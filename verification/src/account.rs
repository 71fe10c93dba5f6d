//! Accounts: a balance, a data buffer, the program that owns them.

use vstd::prelude::*;
use crate::pubkey::Pubkey;

verus! {

/// An account as a mathematical value.
pub struct AccountView {
    pub lamports: u64,
    pub data: Seq<u8>,
    pub owner: Pubkey,
    pub executable: bool,
}

impl AccountView {
    /// The account that a key has before anything was stored for it: no
    /// lamports, no data, owned by the system program.
    pub open spec fn empty() -> AccountView {
        AccountView { lamports: 0, data: Seq::empty(), owner: Pubkey::zero(), executable: false }
    }

    /// An account that holds nothing counts as deleted.
    pub open spec fn is_dead(self) -> bool {
        self.lamports == 0 && self.data.len() == 0
    }
}

#[derive(Debug, PartialEq, Eq)]
pub struct Account {
    /// The balance, in lamports.
    pub lamports: u64,
    /// Data held in this account.
    pub data: Vec<u8>,
    /// The program that owns this account and may change its data.
    pub owner: Pubkey,
    /// Whether the data is a loaded program.
    pub executable: bool,
}

impl View for Account {
    type V = AccountView;

    open spec fn view(&self) -> AccountView {
        AccountView {
            lamports: self.lamports,
            data: self.data@,
            owner: self.owner,
            executable: self.executable,
        }
    }
}

/// Copies a byte vector.
pub fn copy_bytes(bytes: &Vec<u8>) -> (r: Vec<u8>)
    ensures
        r@ == bytes@,
{
    let mut out: Vec<u8> = Vec::new();
    let mut i: usize = 0;
    while i < bytes.len()
        invariant
            i <= bytes.len(),
            out@ == bytes@.subrange(0, i as int),
        decreases bytes.len() - i,
    {
        out.push(bytes[i]);
        proof {
            assert(out@ =~= bytes@.subrange(0, i + 1));
        }
        i += 1;
    }
    proof {
        assert(bytes@.subrange(0, bytes@.len() as int) =~= bytes@);
    }
    out
}

/// Whether two byte vectors hold the same bytes.
pub fn same_bytes(a: &Vec<u8>, b: &Vec<u8>) -> (r: bool)
    ensures
        r == (a@ == b@),
{
    if a.len() != b.len() {
        return false;
    }
    let mut i: usize = 0;
    while i < a.len()
        invariant
            i <= a.len(),
            a.len() == b.len(),
            forall|j: int| 0 <= j < i ==> a@[j] == b@[j],
        decreases a.len() - i,
    {
        if a[i] != b[i] {
            return false;
        }
        i += 1;
    }
    proof {
        assert(a@ =~= b@);
    }
    true
}

impl Account {
    /// An account with `space` zero bytes of data.
    pub fn new(lamports: u64, space: usize, owner: &Pubkey) -> (r: Account)
        ensures
            r@.lamports == lamports,
            r@.data == Seq::new(space as nat, |i: int| 0u8),
            r@.owner == *owner,
            !r@.executable,
    {
        let mut data: Vec<u8> = Vec::new();
        let mut i: usize = 0;
        while i < space
            invariant
                i <= space,
                data@ == Seq::new(i as nat, |j: int| 0u8),
            decreases space - i,
        {
            data.push(0u8);
            proof {
                assert(data@ =~= Seq::new((i + 1) as nat, |j: int| 0u8));
            }
            i += 1;
        }
        Account { lamports, data, owner: *owner, executable: false }
    }

    pub fn is_dead(&self) -> (r: bool)
        ensures
            r == self@.is_dead(),
    {
        self.lamports == 0 && self.data.len() == 0
    }
}

impl Default for Account {
    fn default() -> (r: Account)
        ensures
            r@ == AccountView::empty(),
    {
        Account { lamports: 0, data: Vec::new(), owner: Pubkey::default(), executable: false }
    }
}

impl Clone for Account {
    fn clone(&self) -> (r: Account)
        ensures
            r@ == self@,
    {
        Account {
            lamports: self.lamports,
            data: copy_bytes(&self.data),
            owner: self.owner,
            executable: self.executable,
        }
    }
}

/// The views of a sequence of accounts.
pub open spec fn account_views(accounts: Seq<Account>) -> Seq<AccountView> {
    accounts.map_values(|a: Account| a@)
}

/// An account handed to an instruction handler, with its address and
/// whether the transaction was signed with that address.
#[derive(Debug)]
pub struct KeyedAccount {
    pub key: Pubkey,
    pub is_signer: bool,
    pub account: Account,
}

impl KeyedAccount {
    /// The address, if the transaction was signed with it.
    pub fn signer_key(&self) -> (r: Option<Pubkey>)
        ensures
            r == (if self.is_signer {
                Some(self.key)
            } else {
                None
            }),
    {
        if self.is_signer {
            Some(self.key)
        } else {
            None
        }
    }
}

} // verus!
