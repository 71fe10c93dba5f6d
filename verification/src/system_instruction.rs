//! The instructions of the system program, and their byte encoding: a
//! 4-byte little-endian tag, then the fields in order, integers as 8
//! little-endian bytes and addresses as their 32 bytes.

use vstd::prelude::*;
use vstd::bytes::*;
use vstd::slice::slice_subrange;
use crate::pubkey::Pubkey;
use crate::transaction::append_bytes;
use crate::word256::Word256;

verus! {

#[derive(Clone, Copy, Debug, PartialEq, Eq, Structural)]
pub enum SystemInstruction {
    /// Create a new account: account 0 pays `lamports` to account 1, which
    /// gets `space` bytes of data and `program_id` as its owner.
    CreateAccount { lamports: u64, space: u64, program_id: Pubkey },
    /// Hand account 0 over to a program.
    Assign { program_id: Pubkey },
    /// Move `lamports` from account 0 to account 1.
    Move { lamports: u64 },
}

impl SystemInstruction {
    /// The encoding of an instruction.
    pub open spec fn serialize_spec(self) -> Seq<u8> {
        match self {
            SystemInstruction::CreateAccount { lamports, space, program_id } => {
                spec_u32_to_le_bytes(0) + spec_u64_to_le_bytes(lamports) + spec_u64_to_le_bytes(
                    space,
                ) + program_id.to_bytes_spec()
            },
            SystemInstruction::Assign { program_id } => {
                spec_u32_to_le_bytes(1) + program_id.to_bytes_spec()
            },
            SystemInstruction::Move { lamports } => {
                spec_u32_to_le_bytes(2) + spec_u64_to_le_bytes(lamports)
            },
        }
    }

    /// The instruction that a byte string starts with, if it starts with one.
    pub open spec fn deserialize_spec(data: Seq<u8>) -> Option<SystemInstruction> {
        if data.len() < 4 {
            None
        } else {
            let tag = spec_u32_from_le_bytes(data.subrange(0, 4));
            if tag == 0 && data.len() >= 52 {
                Some(
                    SystemInstruction::CreateAccount {
                        lamports: spec_u64_from_le_bytes(data.subrange(4, 12)),
                        space: spec_u64_from_le_bytes(data.subrange(12, 20)),
                        program_id: Pubkey { id: Word256::from_bytes_spec(data.subrange(20, 52)) },
                    },
                )
            } else if tag == 1 && data.len() >= 36 {
                Some(
                    SystemInstruction::Assign {
                        program_id: Pubkey { id: Word256::from_bytes_spec(data.subrange(4, 36)) },
                    },
                )
            } else if tag == 2 && data.len() >= 12 {
                Some(SystemInstruction::Move { lamports: spec_u64_from_le_bytes(data.subrange(4, 12)) })
            } else {
                None
            }
        }
    }

    pub fn serialize(&self) -> (r: Vec<u8>)
        ensures
            r@ == self.serialize_spec(),
    {
        match self {
            SystemInstruction::CreateAccount { lamports, space, program_id } => {
                let mut out = u32_to_le_bytes(0);
                append_bytes(&mut out, &u64_to_le_bytes(*lamports));
                append_bytes(&mut out, &u64_to_le_bytes(*space));
                append_bytes(&mut out, &program_id.to_bytes());
                out
            },
            SystemInstruction::Assign { program_id } => {
                let mut out = u32_to_le_bytes(1);
                append_bytes(&mut out, &program_id.to_bytes());
                out
            },
            SystemInstruction::Move { lamports } => {
                let mut out = u32_to_le_bytes(2);
                append_bytes(&mut out, &u64_to_le_bytes(*lamports));
                out
            },
        }
    }

    pub fn deserialize(data: &[u8]) -> (r: Option<SystemInstruction>)
        ensures
            r == SystemInstruction::deserialize_spec(data@),
    {
        if data.len() < 4 {
            return None;
        }
        let tag = u32_from_le_bytes(slice_subrange(data, 0, 4));
        if tag == 0 && data.len() >= 52 {
            Some(
                SystemInstruction::CreateAccount {
                    lamports: u64_from_le_bytes(slice_subrange(data, 4, 12)),
                    space: u64_from_le_bytes(slice_subrange(data, 12, 20)),
                    program_id: Pubkey { id: Word256::from_bytes(slice_subrange(data, 20, 52)) },
                },
            )
        } else if tag == 1 && data.len() >= 36 {
            Some(
                SystemInstruction::Assign {
                    program_id: Pubkey { id: Word256::from_bytes(slice_subrange(data, 4, 36)) },
                },
            )
        } else if tag == 2 && data.len() >= 12 {
            Some(SystemInstruction::Move { lamports: u64_from_le_bytes(slice_subrange(data, 4, 12)) })
        } else {
            None
        }
    }

    /// Decoding an encoded instruction gives the instruction again.
    pub proof fn lemma_round_trip(self)
        ensures
            SystemInstruction::deserialize_spec(self.serialize_spec()) == Some(self),
    {
        lemma_auto_spec_u32_to_from_le_bytes();
        lemma_auto_spec_u64_to_from_le_bytes();
        let data = self.serialize_spec();
        match self {
            SystemInstruction::CreateAccount { lamports, space, program_id } => {
                program_id.id.lemma_bytes_round_trip();
                assert(data.subrange(0, 4) =~= spec_u32_to_le_bytes(0));
                assert(data.subrange(4, 12) =~= spec_u64_to_le_bytes(lamports));
                assert(data.subrange(12, 20) =~= spec_u64_to_le_bytes(space));
                assert(data.subrange(20, 52) =~= program_id.to_bytes_spec());
            },
            SystemInstruction::Assign { program_id } => {
                program_id.id.lemma_bytes_round_trip();
                assert(data.subrange(0, 4) =~= spec_u32_to_le_bytes(1));
                assert(data.subrange(4, 36) =~= program_id.to_bytes_spec());
            },
            SystemInstruction::Move { lamports } => {
                assert(data.subrange(0, 4) =~= spec_u32_to_le_bytes(2));
                assert(data.subrange(4, 12) =~= spec_u64_to_le_bytes(lamports));
            },
        }
    }
}

} // verus!
