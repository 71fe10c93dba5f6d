//! The loader of bytecode programs.

use vstd::prelude::*;
use crate::pubkey::Pubkey;
use crate::word256::Word256;

verus! {

/// The address of the bytecode loader.
pub open spec fn id_spec() -> Pubkey {
    Pubkey { id: Word256 { w0: 128, w1: 0, w2: 0, w3: 0 } }
}

pub fn id() -> (r: Pubkey)
    ensures
        r == id_spec(),
{
    Pubkey { id: Word256 { w0: 128, w1: 0, w2: 0, w3: 0 } }
}

pub fn check_id(program_id: &Pubkey) -> (r: bool)
    ensures
        r == (*program_id == id_spec()),
{
    *program_id == id()
}

} // verus!
