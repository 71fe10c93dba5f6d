//! The system program: it creates accounts, assigns them to programs and
//! moves lamports between them.

use vstd::prelude::*;
use crate::account::{Account, AccountView, KeyedAccount};
use crate::pubkey::Pubkey;
use crate::system_instruction::SystemInstruction;
use crate::transaction::InstructionError;

verus! {

/// The address of the system program: the all-zero address, which is also
/// the owner of every account that no program has claimed.
pub open spec fn id_spec() -> Pubkey {
    Pubkey::zero()
}

pub fn id() -> (r: Pubkey)
    ensures
        r == id_spec(),
{
    Pubkey::default()
}

pub fn check_id(program_id: &Pubkey) -> (r: bool)
    ensures
        r == (*program_id == id_spec()),
{
    *program_id == id()
}

/// The accounts of a list of keyed accounts.
pub open spec fn keyed_views(keyed: Seq<KeyedAccount>) -> Seq<AccountView> {
    keyed.map_values(|k: KeyedAccount| k.account@)
}

/// Whether two lists of keyed accounts hold the same addresses, each with
/// the same word on whether it signed.
pub open spec fn same_keys(before: Seq<KeyedAccount>, after: Seq<KeyedAccount>) -> bool {
    &&& after.len() == before.len()
    &&& forall|i: int|
        0 <= i < before.len() ==> (#[trigger] after[i]).key == before[i].key && after[i].is_signer
            == before[i].is_signer
}

/// Whether the transaction was signed with the address of the first of a
/// list of keyed accounts.
pub open spec fn first_signs(keyed: Seq<KeyedAccount>) -> bool {
    keyed.len() > 0 && keyed[0].is_signer
}

/// What a system instruction does to the accounts it is given, or why it
/// fails. `from` is account 0 and `to` is account 1; `signed` says whether
/// the transaction was signed with the address of account 0.
pub open spec fn outcome(signed: bool, pre: Seq<AccountView>, data: Seq<u8>) -> Result<
    Seq<AccountView>,
    InstructionError,
> {
    match SystemInstruction::deserialize_spec(data) {
        None => Err(InstructionError::InvalidInstructionData),
        Some(ix) => {
            if pre.len() < 1 {
                Err(InstructionError::NotEnoughAccountKeys)
            } else if !signed {
                Err(InstructionError::MissingRequiredSignature)
            } else {
                match ix {
                    SystemInstruction::Assign { program_id } => {
                        if pre[0].owner != id_spec() {
                            Err(InstructionError::SourceNotSystemAccount)
                        } else {
                            Ok(pre.update(0, AccountView { owner: program_id, ..pre[0] }))
                        }
                    },
                    SystemInstruction::Move { lamports } => {
                        if pre.len() < 2 {
                            Err(InstructionError::NotEnoughAccountKeys)
                        } else if lamports > pre[0].lamports {
                            Err(InstructionError::ResultWithNegativeLamports)
                        } else if pre[1].lamports + lamports > u64::MAX {
                            Err(InstructionError::LamportsOverflow)
                        } else {
                            Ok(
                                pre.update(
                                    0,
                                    AccountView {
                                        lamports: (pre[0].lamports - lamports) as u64,
                                        ..pre[0]
                                    },
                                ).update(
                                    1,
                                    AccountView {
                                        lamports: (pre[1].lamports + lamports) as u64,
                                        ..pre[1]
                                    },
                                ),
                            )
                        }
                    },
                    SystemInstruction::CreateAccount { lamports, space, program_id } => {
                        if pre.len() < 2 {
                            Err(InstructionError::NotEnoughAccountKeys)
                        } else if pre[0].owner != id_spec() {
                            Err(InstructionError::SourceNotSystemAccount)
                        } else if pre[1].data.len() != 0 || pre[1].owner != id_spec() {
                            Err(InstructionError::AccountAlreadyInUse)
                        } else if lamports > pre[0].lamports {
                            Err(InstructionError::ResultWithNegativeLamports)
                        } else if pre[1].lamports + lamports > u64::MAX {
                            Err(InstructionError::LamportsOverflow)
                        } else if space > usize::MAX {
                            Err(InstructionError::InvalidInstructionData)
                        } else {
                            Ok(
                                pre.update(
                                    0,
                                    AccountView {
                                        lamports: (pre[0].lamports - lamports) as u64,
                                        ..pre[0]
                                    },
                                ).update(
                                    1,
                                    AccountView {
                                        lamports: (pre[1].lamports + lamports) as u64,
                                        data: Seq::new(space as nat, |i: int| 0u8),
                                        owner: program_id,
                                        executable: false,
                                    },
                                ),
                            )
                        }
                    },
                }
            }
        },
    }
}

/// Runs one system instruction on the accounts it names. On an error the
/// accounts are left as they were.
pub fn process_instruction(keyed_accounts: &mut Vec<KeyedAccount>, data: &[u8]) -> (r: Result<
    (),
    InstructionError,
>)
    ensures
        final(keyed_accounts).len() == old(keyed_accounts).len(),
        same_keys(old(keyed_accounts)@, final(keyed_accounts)@),
        match outcome(first_signs(old(keyed_accounts)@), keyed_views(old(keyed_accounts)@), data@) {
            Ok(post) => r is Ok && keyed_views(final(keyed_accounts)@) == post,
            Err(e) => r == Err::<(), InstructionError>(e) && keyed_views(final(keyed_accounts)@)
                == keyed_views(old(keyed_accounts)@),
        },
{
    let ghost pre = keyed_views(keyed_accounts@);
    let ix = match SystemInstruction::deserialize(data) {
        None => { return Err(InstructionError::InvalidInstructionData); },
        Some(ix) => ix,
    };
    if keyed_accounts.len() < 1 {
        return Err(InstructionError::NotEnoughAccountKeys);
    }
    if !keyed_accounts[0].is_signer {
        return Err(InstructionError::MissingRequiredSignature);
    }
    match ix {
        SystemInstruction::Assign { program_id } => {
            if !check_id(&keyed_accounts[0].account.owner) {
                return Err(InstructionError::SourceNotSystemAccount);
            }
            keyed_accounts[0].account.owner = program_id;
            proof {
                assert(keyed_views(keyed_accounts@) =~= pre.update(
                    0,
                    AccountView { owner: program_id, ..pre[0] },
                ));
            }
            Ok(())
        },
        SystemInstruction::Move { lamports } => {
            if keyed_accounts.len() < 2 {
                return Err(InstructionError::NotEnoughAccountKeys);
            }
            if lamports > keyed_accounts[0].account.lamports {
                return Err(InstructionError::ResultWithNegativeLamports);
            }
            if lamports > u64::MAX - keyed_accounts[1].account.lamports {
                return Err(InstructionError::LamportsOverflow);
            }
            keyed_accounts[0].account.lamports -= lamports;
            keyed_accounts[1].account.lamports += lamports;
            proof {
                assert(keyed_views(keyed_accounts@) =~= outcome(
                    first_signs(old(keyed_accounts)@),
                    keyed_views(old(keyed_accounts)@),
                    data@,
                )->Ok_0);
            }
            Ok(())
        },
        SystemInstruction::CreateAccount { lamports, space, program_id } => {
            if keyed_accounts.len() < 2 {
                return Err(InstructionError::NotEnoughAccountKeys);
            }
            if !check_id(&keyed_accounts[0].account.owner) {
                return Err(InstructionError::SourceNotSystemAccount);
            }
            if keyed_accounts[1].account.data.len() != 0 || !check_id(
                &keyed_accounts[1].account.owner,
            ) {
                return Err(InstructionError::AccountAlreadyInUse);
            }
            if lamports > keyed_accounts[0].account.lamports {
                return Err(InstructionError::ResultWithNegativeLamports);
            }
            if lamports > u64::MAX - keyed_accounts[1].account.lamports {
                return Err(InstructionError::LamportsOverflow);
            }
            if space > usize::MAX as u64 {
                return Err(InstructionError::InvalidInstructionData);
            }
            let fresh = Account::new(0, space as usize, &program_id);
            keyed_accounts[0].account.lamports -= lamports;
            keyed_accounts[1].account.lamports += lamports;
            keyed_accounts[1].account.owner = program_id;
            keyed_accounts[1].account.data = fresh.data;
            keyed_accounts[1].account.executable = false;
            proof {
                assert(keyed_views(keyed_accounts@) =~= outcome(
                    first_signs(old(keyed_accounts)@),
                    keyed_views(old(keyed_accounts)@),
                    data@,
                )->Ok_0);
            }
            Ok(())
        },
    }
}

} // verus!
