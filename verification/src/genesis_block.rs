//! The genesis block: the accounts and the parameters that a ledger starts
//! with.

use vstd::prelude::*;
use vstd::bytes::*;
use vstd::string::*;
use crate::pubkey::Pubkey;
use crate::signature::Keypair;
use crate::transaction::append_bytes;

verus! {

/// The lamports that the bootstrap leader gets when nothing else is said:
/// one for its own account and one for its vote account.
pub const BOOTSTRAP_LEADER_LAMPORTS: u64 = 2;

pub const DEFAULT_TICKS_PER_SLOT: u64 = 8;

pub const DEFAULT_SLOTS_PER_EPOCH: u64 = 64;

pub const NUM_TICKS_PER_SECOND: u64 = 10;

pub struct GenesisBlockView {
    pub bootstrap_leader_id: Pubkey,
    pub bootstrap_leader_lamports: u64,
    pub bootstrap_leader_vote_account_id: Pubkey,
    pub mint_id: Pubkey,
    pub lamports: u64,
    pub ticks_per_slot: u64,
    pub slots_per_epoch: u64,
    pub stakers_slot_offset: u64,
    pub epoch_warmup: bool,
    pub native_programs: Seq<(Seq<u8>, Pubkey)>,
}

#[derive(Debug)]
pub struct GenesisBlock {
    /// The node that leads the first slots.
    pub bootstrap_leader_id: Pubkey,
    /// The lamports of the bootstrap leader, its stake included.
    pub bootstrap_leader_lamports: u64,
    /// The vote account that holds the bootstrap leader's stake.
    pub bootstrap_leader_vote_account_id: Pubkey,
    /// The account that holds the rest of the lamports.
    pub mint_id: Pubkey,
    /// All the lamports of the ledger.
    pub lamports: u64,
    pub ticks_per_slot: u64,
    pub slots_per_epoch: u64,
    pub stakers_slot_offset: u64,
    pub epoch_warmup: bool,
    /// Native programs to install beside the mandatory ones, each with its name.
    pub native_programs: Vec<(String, Pubkey)>,
}

/// The names and addresses of a list of native programs.
pub open spec fn program_views(programs: Seq<(String, Pubkey)>) -> Seq<(Seq<u8>, Pubkey)> {
    programs.map_values(|p: (String, Pubkey)| (vstd::utf8::encode_utf8(p.0@), p.1))
}

impl View for GenesisBlock {
    type V = GenesisBlockView;

    open spec fn view(&self) -> GenesisBlockView {
        GenesisBlockView {
            bootstrap_leader_id: self.bootstrap_leader_id,
            bootstrap_leader_lamports: self.bootstrap_leader_lamports,
            bootstrap_leader_vote_account_id: self.bootstrap_leader_vote_account_id,
            mint_id: self.mint_id,
            lamports: self.lamports,
            ticks_per_slot: self.ticks_per_slot,
            slots_per_epoch: self.slots_per_epoch,
            stakers_slot_offset: self.stakers_slot_offset,
            epoch_warmup: self.epoch_warmup,
            native_programs: program_views(self.native_programs@),
        }
    }
}

/// The bytes of a list of native programs: for each the length of the name
/// as 8 little-endian bytes, the name, and the address.
pub open spec fn programs_bytes(programs: Seq<(Seq<u8>, Pubkey)>) -> Seq<u8>
    decreases programs.len(),
{
    if programs.len() == 0 {
        Seq::empty()
    } else {
        programs_bytes(programs.drop_last()) + spec_u64_to_le_bytes(programs.last().0.len() as u64)
            + programs.last().0 + programs.last().1.to_bytes_spec()
    }
}

impl GenesisBlockView {
    /// A block that a bank can start from: the three accounts have
    /// addresses, the leader's lamports cover its account and its stake and
    /// are covered by the ledger's, and an epoch has slots, few enough for
    /// the warmup to reach them.
    pub open spec fn valid(self) -> bool {
        &&& self.mint_id != Pubkey::zero()
        &&& self.bootstrap_leader_id != Pubkey::zero()
        &&& self.bootstrap_leader_vote_account_id != Pubkey::zero()
        &&& self.lamports >= self.bootstrap_leader_lamports
        &&& self.bootstrap_leader_lamports >= 2
        &&& self.slots_per_epoch > 0
        &&& self.epoch_warmup ==> self.slots_per_epoch <= 0x8000_0000_0000_0000
    }

    /// The bytes that the block's hash is taken of: the fields in order,
    /// integers as 8 little-endian bytes, the flag as one byte.
    pub open spec fn bytes(self) -> Seq<u8> {
        self.bootstrap_leader_id.to_bytes_spec() + spec_u64_to_le_bytes(
            self.bootstrap_leader_lamports,
        ) + self.bootstrap_leader_vote_account_id.to_bytes_spec() + self.mint_id.to_bytes_spec()
            + spec_u64_to_le_bytes(self.lamports) + spec_u64_to_le_bytes(self.ticks_per_slot)
            + spec_u64_to_le_bytes(self.slots_per_epoch) + spec_u64_to_le_bytes(
            self.stakers_slot_offset,
        ) + seq![if self.epoch_warmup {
            1u8
        } else {
            0u8
        }] + spec_u64_to_le_bytes(self.native_programs.len() as u64) + programs_bytes(
            self.native_programs,
        )
    }
}

impl GenesisBlock {
    /// A block with `lamports` for the mint beside those of a fresh
    /// bootstrap leader, and the mint's key pair. Where that sum would not
    /// fit, the leader's lamports are taken out of `lamports`.
    pub fn new(lamports: u64) -> (r: (GenesisBlock, Keypair))
        ensures
            r.0@.lamports == (if lamports + BOOTSTRAP_LEADER_LAMPORTS <= u64::MAX {
                (lamports + BOOTSTRAP_LEADER_LAMPORTS) as u64
            } else {
                lamports
            }),
            r.0@.bootstrap_leader_lamports == BOOTSTRAP_LEADER_LAMPORTS,
            GenesisBlock::defaults(r.0@),
            r.0@.mint_id == r.1.pubkey_spec(),
            r.1.wf(),
    {
        let total = match lamports.checked_add(BOOTSTRAP_LEADER_LAMPORTS) {
            Some(sum) => sum,
            None => lamports,
        };
        let leader = Keypair::new();
        GenesisBlock::new_with_leader(total, &leader.pubkey(), BOOTSTRAP_LEADER_LAMPORTS)
    }

    /// The parameters that a fresh block has.
    pub open spec fn defaults(block: GenesisBlockView) -> bool {
        &&& block.ticks_per_slot == DEFAULT_TICKS_PER_SLOT
        &&& block.slots_per_epoch == DEFAULT_SLOTS_PER_EPOCH
        &&& block.stakers_slot_offset == DEFAULT_SLOTS_PER_EPOCH
        &&& block.epoch_warmup
        &&& block.native_programs == Seq::<(Seq<u8>, Pubkey)>::empty()
    }

    /// A block with `lamports` in all, of which the given leader has
    /// `bootstrap_leader_lamports`, and the key pair of the mint. The mint
    /// and the leader's vote account get fresh addresses.
    pub fn new_with_leader(
        lamports: u64,
        bootstrap_leader_id: &Pubkey,
        bootstrap_leader_lamports: u64,
    ) -> (r: (GenesisBlock, Keypair))
        ensures
            r.0@.lamports == lamports,
            r.0@.bootstrap_leader_id == *bootstrap_leader_id,
            r.0@.bootstrap_leader_lamports == bootstrap_leader_lamports,
            GenesisBlock::defaults(r.0@),
            r.0@.mint_id == r.1.pubkey_spec(),
            r.1.wf(),
    {
        let mint_keypair = Keypair::new();
        let vote_keypair = Keypair::new();
        let block = GenesisBlock {
            bootstrap_leader_id: *bootstrap_leader_id,
            bootstrap_leader_lamports,
            bootstrap_leader_vote_account_id: vote_keypair.pubkey(),
            mint_id: mint_keypair.pubkey(),
            lamports,
            ticks_per_slot: DEFAULT_TICKS_PER_SLOT,
            slots_per_epoch: DEFAULT_SLOTS_PER_EPOCH,
            stakers_slot_offset: DEFAULT_SLOTS_PER_EPOCH,
            epoch_warmup: true,
            native_programs: Vec::new(),
        };
        proof {
            assert(block@.native_programs =~= Seq::<(Seq<u8>, Pubkey)>::empty());
        }
        (block, mint_keypair)
    }

    /// Whether a bank can start from the block.
    pub fn is_valid(&self) -> (r: bool)
        ensures
            r == self@.valid(),
    {
        let zero = Pubkey::default();
        self.mint_id != zero && self.bootstrap_leader_id != zero
            && self.bootstrap_leader_vote_account_id != zero && self.lamports
            >= self.bootstrap_leader_lamports && self.bootstrap_leader_lamports >= 2
            && self.slots_per_epoch > 0 && (!self.epoch_warmup
            || self.slots_per_epoch <= 0x8000_0000_0000_0000)
    }

    /// The bytes that the block's hash is taken of.
    pub fn to_bytes(&self) -> (r: Vec<u8>)
        ensures
            r@ == self@.bytes(),
    {
        let mut out = self.bootstrap_leader_id.to_bytes();
        append_bytes(&mut out, &u64_to_le_bytes(self.bootstrap_leader_lamports));
        append_bytes(&mut out, &self.bootstrap_leader_vote_account_id.to_bytes());
        append_bytes(&mut out, &self.mint_id.to_bytes());
        append_bytes(&mut out, &u64_to_le_bytes(self.lamports));
        append_bytes(&mut out, &u64_to_le_bytes(self.ticks_per_slot));
        append_bytes(&mut out, &u64_to_le_bytes(self.slots_per_epoch));
        append_bytes(&mut out, &u64_to_le_bytes(self.stakers_slot_offset));
        out.push(if self.epoch_warmup {
            1u8
        } else {
            0u8
        });
        append_bytes(&mut out, &u64_to_le_bytes(self.native_programs.len() as u64));
        let ghost head = out@;
        let ghost programs = program_views(self.native_programs@);
        let mut i: usize = 0;
        proof {
            assert(out@ =~= head + programs_bytes(programs.subrange(0, 0)));
        }
        while i < self.native_programs.len()
            invariant
                i <= self.native_programs@.len(),
                programs == program_views(self.native_programs@),
                out@ == head + programs_bytes(programs.subrange(0, i as int)),
            decreases self.native_programs@.len() - i,
        {
            let name = self.native_programs[i].0.as_str().as_bytes_vec();
            append_bytes(&mut out, &u64_to_le_bytes(name.len() as u64));
            append_bytes(&mut out, &name);
            append_bytes(&mut out, &self.native_programs[i].1.to_bytes());
            proof {
                let next = programs.subrange(0, i + 1);
                assert(next.drop_last() =~= programs.subrange(0, i as int));
                assert(next.last() == programs[i as int]);
                assert(out@ =~= head + programs_bytes(next));
            }
            i += 1;
        }
        proof {
            assert(programs.subrange(0, programs.len() as int) =~= programs);
            assert(out@ =~= self@.bytes());
        }
        out
    }

    /// The hash of the block, which is the first blockhash of its ledger.
    pub fn hash(&self) -> (r: crate::hash::Hash)
        ensures
            r == crate::hash::hash_spec(self@.bytes()),
    {
        let bytes = self.to_bytes();
        crate::hash::hash(bytes.as_slice())
    }
}

} // verus!
