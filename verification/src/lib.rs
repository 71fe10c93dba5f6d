//! A fork-aware ledger: banks that execute batches of signed transactions
//! against a chain of account snapshots, with the blockhash queue, the
//! signature status cache and the epoch schedule that they rest on; and
//! the commands of a wallet for it.

// Values: addresses, hashes, signatures, accounts, transactions.
pub mod word256;
pub mod pubkey;
pub mod hash;
pub mod signature;
pub mod base58;
pub mod decimal;
pub mod account;
pub mod instruction;
pub mod transaction;

// Programs and their instructions.
pub mod native_loader;
pub mod bpf_loader;
pub mod system_instruction;
pub mod system_program;
pub mod system_transaction;
pub mod vote_state;
pub mod budget;

// The parts of a bank.
pub mod timing;
pub mod epoch_schedule;
pub mod blockhash_queue;
pub mod status_cache;
pub mod account_store;
pub mod account_locks;
pub mod epoch_stakes;
pub mod runtime;
pub mod genesis_block;

// The bank.
pub mod bank_view;
pub mod bank;

// The wallet.
pub mod wallet;
