//! The native loader: the root of every program's chain of owners.

use vstd::prelude::*;
use crate::account::{copy_bytes, Account, AccountView};
use crate::pubkey::Pubkey;
use crate::word256::Word256;

verus! {

/// The address of the native loader.
pub open spec fn id_spec() -> Pubkey {
    Pubkey { id: Word256 { w0: 1, w1: 0, w2: 0, w3: 0 } }
}

pub fn id() -> (r: Pubkey)
    ensures
        r == id_spec(),
{
    Pubkey { id: Word256 { w0: 1, w1: 0, w2: 0, w3: 0 } }
}

pub fn check_id(program_id: &Pubkey) -> (r: bool)
    ensures
        r == (*program_id == id_spec()),
{
    *program_id == id()
}

/// The account of a native program: one lamport, the program's name as
/// data, owned by the native loader, executable.
pub open spec fn program_account_spec(name: Seq<u8>) -> AccountView {
    AccountView { lamports: 1, data: name, owner: id_spec(), executable: true }
}

/// Creates the account of the native program with the given name.
pub fn create_program_account(name: &Vec<u8>) -> (r: Account)
    ensures
        r@ == program_account_spec(name@),
{
    Account { lamports: 1, data: copy_bytes(name), owner: id(), executable: true }
}

} // verus!
