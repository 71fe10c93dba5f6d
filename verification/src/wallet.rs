//! The wallet: what its command line asks for, and the decisions that it
//! takes between its requests to a node.

use vstd::prelude::*;
use vstd::string::*;
use crate::base58::{parse_pubkey, parse_signature, pubkey_of_text, signature_of_text};
use crate::budget::Timestamp;
use crate::decimal::{parse_u64, parse_u64_spec};
use crate::pubkey::Pubkey;
use crate::signature::Signature;
use crate::timing::{parse_datetime, parsed_datetime, timestamp};

verus! {

/// The number of bytes of a program that one transaction writes.
pub const USERDATA_CHUNK_SIZE: usize = 256;

pub enum CommandView {
    Address,
    Airdrop(u64),
    Balance,
    Cancel(Pubkey),
    Confirm(Signature),
    ConfigureStakingAccount(Option<Pubkey>, Option<Pubkey>),
    CreateStakingAccount(Pubkey, u64),
    Deploy(Seq<char>),
    GetTransactionCount,
    Pay(u64, Pubkey, Option<Timestamp>, Option<Pubkey>, Option<Seq<Pubkey>>, Option<Pubkey>),
    TimeElapsed(Pubkey, Pubkey, Timestamp),
    Witness(Pubkey, Pubkey),
}

#[derive(Debug, PartialEq)]
pub enum WalletCommand {
    /// Show the wallet's address.
    Address,
    /// Ask the drone for lamports.
    Airdrop(u64),
    /// Show the wallet's balance.
    Balance,
    /// Cancel the contract with the given address.
    Cancel(Pubkey),
    /// Ask whether the transaction with the given signature is confirmed.
    Confirm(Signature),
    /// Give the staking account a delegate, an authorized voter, or both.
    ConfigureStakingAccount(Option<Pubkey>, Option<Pubkey>),
    /// Create the staking account with the given address and lamports.
    CreateStakingAccount(Pubkey, u64),
    /// Deploy the program in the file at the given place.
    Deploy(String),
    /// Show the number of transactions that the ledger has processed.
    GetTransactionCount,
    /// Pay lamports to an address: at once, or after a time that an
    /// address confirms, or when witnesses have signed; the last address
    /// may cancel the payment.
    Pay(u64, Pubkey, Option<Timestamp>, Option<Pubkey>, Option<Vec<Pubkey>>, Option<Pubkey>),
    /// Tell the contract at the second address, which pays the first,
    /// that the time has passed.
    TimeElapsed(Pubkey, Pubkey, Timestamp),
    /// Sign as a witness of the contract at the second address, which
    /// pays the first.
    Witness(Pubkey, Pubkey),
}

impl View for WalletCommand {
    type V = CommandView;

    open spec fn view(&self) -> CommandView {
        match self {
            WalletCommand::Address => CommandView::Address,
            WalletCommand::Airdrop(lamports) => CommandView::Airdrop(*lamports),
            WalletCommand::Balance => CommandView::Balance,
            WalletCommand::Cancel(id) => CommandView::Cancel(*id),
            WalletCommand::Confirm(signature) => CommandView::Confirm(*signature),
            WalletCommand::ConfigureStakingAccount(delegate, voter) => {
                CommandView::ConfigureStakingAccount(*delegate, *voter)
            },
            WalletCommand::CreateStakingAccount(id, lamports) => CommandView::CreateStakingAccount(
                *id,
                *lamports,
            ),
            WalletCommand::Deploy(location) => CommandView::Deploy(location@),
            WalletCommand::GetTransactionCount => CommandView::GetTransactionCount,
            WalletCommand::Pay(lamports, to, timestamp, timestamp_pubkey, witnesses, cancelable) => {
                CommandView::Pay(
                    *lamports,
                    *to,
                    *timestamp,
                    *timestamp_pubkey,
                    match witnesses {
                        Some(list) => Some(list@),
                        None => None,
                    },
                    *cancelable,
                )
            },
            WalletCommand::TimeElapsed(to, id, dt) => CommandView::TimeElapsed(*to, *id, *dt),
            WalletCommand::Witness(to, id) => CommandView::Witness(*to, *id),
        }
    }
}

pub enum ErrorView {
    CommandNotRecognized(Seq<char>),
    BadParameter(Seq<char>),
    DynamicProgramError(Seq<char>),
    RpcRequestError(Seq<char>),
}

#[derive(Debug, Clone, PartialEq)]
pub enum WalletError {
    CommandNotRecognized(String),
    BadParameter(String),
    DynamicProgramError(String),
    RpcRequestError(String),
}

impl View for WalletError {
    type V = ErrorView;

    open spec fn view(&self) -> ErrorView {
        match self {
            WalletError::CommandNotRecognized(text) => ErrorView::CommandNotRecognized(text@),
            WalletError::BadParameter(text) => ErrorView::BadParameter(text@),
            WalletError::DynamicProgramError(text) => ErrorView::DynamicProgramError(text@),
            WalletError::RpcRequestError(text) => ErrorView::RpcRequestError(text@),
        }
    }
}

impl WalletError {
    /// What the error shows as: every kind shows as "invalid".
    pub fn description(&self) -> (r: String)
        ensures
            r@ == "invalid"@,
    {
        String::from_str("invalid")
    }
}

pub struct ArgumentView {
    pub name: Seq<char>,
    pub values: Seq<Seq<char>>,
}

/// An argument that the command line holds: its name and its values, none
/// for a flag.
#[derive(Debug)]
pub struct Argument {
    pub name: String,
    pub values: Vec<String>,
}

pub open spec fn texts(values: Seq<String>) -> Seq<Seq<char>> {
    values.map_values(|s: String| s@)
}

impl View for Argument {
    type V = ArgumentView;

    open spec fn view(&self) -> ArgumentView {
        ArgumentView { name: self.name@, values: texts(self.values@) }
    }
}

pub open spec fn argument_views(arguments: Seq<Argument>) -> Seq<ArgumentView> {
    arguments.map_values(|a: Argument| a@)
}

/// The first argument with the given name, from place `from` on.
pub open spec fn find_argument(arguments: Seq<ArgumentView>, name: Seq<char>, from: int) -> Option<
    ArgumentView,
>
    decreases arguments.len() - from,
{
    if from < 0 || from >= arguments.len() {
        None
    } else if arguments[from].name == name {
        Some(arguments[from])
    } else {
        find_argument(arguments, name, from + 1)
    }
}

pub open spec fn is_present(arguments: Seq<ArgumentView>, name: Seq<char>) -> bool {
    find_argument(arguments, name, 0) is Some
}

/// The first value of an argument, if the argument is there and has one.
pub open spec fn value_of(arguments: Seq<ArgumentView>, name: Seq<char>) -> Option<Seq<char>> {
    match find_argument(arguments, name, 0) {
        Some(a) => if a.values.len() > 0 {
            Some(a.values[0])
        } else {
            None
        },
        None => None,
    }
}

pub struct CommandArgsView {
    pub subcommand: Option<Seq<char>>,
    pub arguments: Seq<ArgumentView>,
}

/// What a command line holds: the subcommand, if one was given, and the
/// arguments behind it.
#[derive(Debug)]
pub struct CommandArgs {
    pub subcommand: Option<String>,
    pub arguments: Vec<Argument>,
}

impl View for CommandArgs {
    type V = CommandArgsView;

    open spec fn view(&self) -> CommandArgsView {
        CommandArgsView {
            subcommand: match self.subcommand {
                Some(name) => Some(name@),
                None => None,
            },
            arguments: argument_views(self.arguments@),
        }
    }
}

pub open spec fn bad_parameter(message: Seq<char>) -> ErrorView {
    ErrorView::BadParameter(message)
}

/// The address that a required argument names.
pub open spec fn required_pubkey(
    arguments: Seq<ArgumentView>,
    name: Seq<char>,
    message: Seq<char>,
) -> Result<Pubkey, ErrorView> {
    match value_of(arguments, name) {
        None => Err(bad_parameter("Missing argument"@)),
        Some(text) => match pubkey_of_text(text) {
            Some(key) => Ok(key),
            None => Err(bad_parameter(message)),
        },
    }
}

/// The address that an argument names, if the argument is there.
pub open spec fn optional_pubkey(
    arguments: Seq<ArgumentView>,
    name: Seq<char>,
    message: Seq<char>,
) -> Result<Option<Pubkey>, ErrorView> {
    if is_present(arguments, name) {
        match required_pubkey(arguments, name, message) {
            Ok(key) => Ok(Some(key)),
            Err(e) => Err(e),
        }
    } else {
        Ok(None)
    }
}

/// The number of lamports that a required argument names.
pub open spec fn required_lamports(arguments: Seq<ArgumentView>, name: Seq<char>) -> Result<
    u64,
    ErrorView,
> {
    match value_of(arguments, name) {
        None => Err(bad_parameter("Missing argument"@)),
        Some(text) => match parse_u64_spec(text) {
            Some(lamports) => Ok(lamports),
            None => Err(bad_parameter("Invalid lamports"@)),
        },
    }
}

/// The moment that a text names; a text without a `Z` is taken as
/// universal time.
pub open spec fn datetime_of_text(text: Seq<char>) -> Option<Timestamp> {
    if text.contains('Z') {
        parsed_datetime(text)
    } else {
        parsed_datetime(text + "Z"@)
    }
}

/// The moment that an argument names, if the argument is there.
pub open spec fn optional_datetime(arguments: Seq<ArgumentView>, name: Seq<char>) -> Result<
    Option<Timestamp>,
    ErrorView,
> {
    if is_present(arguments, name) {
        match value_of(arguments, name) {
            None => Err(bad_parameter("Missing argument"@)),
            Some(text) => match datetime_of_text(text) {
                Some(dt) => Ok(Some(dt)),
                None => Err(bad_parameter("Invalid timestamp"@)),
            },
        }
    } else {
        Ok(None)
    }
}

/// The addresses that the first `n` of a list of texts name, or `None` if
/// one of them names none.
pub open spec fn pubkeys_of_texts(values: Seq<Seq<char>>, n: int) -> Option<Seq<Pubkey>>
    decreases n,
{
    if n <= 0 {
        Some(Seq::empty())
    } else {
        match pubkeys_of_texts(values, n - 1) {
            None => None,
            Some(keys) => match pubkey_of_text(values[n - 1]) {
                None => None,
                Some(key) => Some(keys.push(key)),
            },
        }
    }
}

/// The witnesses that a payment names, if it names any.
pub open spec fn witnesses_of(arguments: Seq<ArgumentView>) -> Result<
    Option<Seq<Pubkey>>,
    ErrorView,
> {
    match find_argument(arguments, "witness"@, 0) {
        None => Ok(None),
        Some(a) => match pubkeys_of_texts(a.values, a.values.len() as int) {
            Some(keys) => Ok(Some(keys)),
            None => Err(bad_parameter("Invalid witness public key"@)),
        },
    }
}

/// The payment that the arguments of `pay` ask for.
pub open spec fn pay_of(pubkey: Pubkey, arguments: Seq<ArgumentView>) -> Result<
    CommandView,
    ErrorView,
> {
    match required_lamports(arguments, "lamports"@) {
        Err(e) => Err(e),
        Ok(lamports) => match optional_pubkey(arguments, "to"@, "Invalid to public key"@) {
            Err(e) => Err(e),
            Ok(to) => match optional_datetime(arguments, "timestamp"@) {
                Err(e) => Err(e),
                Ok(timestamp) => match optional_pubkey(
                    arguments,
                    "timestamp_pubkey"@,
                    "Invalid timestamp public key"@,
                ) {
                    Err(e) => Err(e),
                    Ok(timestamp_pubkey) => match witnesses_of(arguments) {
                        Err(e) => Err(e),
                        Ok(witnesses) => Ok(
                            CommandView::Pay(
                                lamports,
                                match to {
                                    Some(key) => key,
                                    None => pubkey,
                                },
                                timestamp,
                                timestamp_pubkey,
                                witnesses,
                                if is_present(arguments, "cancelable"@) {
                                    Some(pubkey)
                                } else {
                                    None
                                },
                            ),
                        ),
                    },
                },
            },
        },
    }
}

/// The two addresses that `send-signature` and `send-timestamp` name: the
/// payee and the contract.
pub open spec fn to_and_process_id(arguments: Seq<ArgumentView>) -> Result<
    (Pubkey, Pubkey),
    ErrorView,
> {
    match required_pubkey(arguments, "to"@, "Invalid public key"@) {
        Err(e) => Err(e),
        Ok(to) => match required_pubkey(arguments, "process_id"@, "Invalid public key"@) {
            Err(e) => Err(e),
            Ok(id) => Ok((to, id)),
        },
    }
}

/// The command that a command line asks for. `pubkey` is the wallet's
/// address, which stands in where a payment names no payee and which may
/// cancel a cancelable payment; `now` is the time that `send-timestamp`
/// sends where it names none.
pub open spec fn parse_spec(pubkey: Pubkey, args: CommandArgsView, now: Timestamp) -> Result<
    CommandView,
    ErrorView,
> {
    let arguments = args.arguments;
    match args.subcommand {
        None => Err(ErrorView::CommandNotRecognized("no subcommand given"@)),
        Some(name) => if name == "address"@ {
            Ok(CommandView::Address)
        } else if name == "airdrop"@ {
            match required_lamports(arguments, "lamports"@) {
                Ok(lamports) => Ok(CommandView::Airdrop(lamports)),
                Err(e) => Err(e),
            }
        } else if name == "balance"@ {
            Ok(CommandView::Balance)
        } else if name == "cancel"@ {
            match required_pubkey(arguments, "process_id"@, "Invalid public key"@) {
                Ok(id) => Ok(CommandView::Cancel(id)),
                Err(e) => Err(e),
            }
        } else if name == "confirm"@ {
            match value_of(arguments, "signature"@) {
                None => Err(bad_parameter("Missing argument"@)),
                Some(text) => match signature_of_text(text) {
                    Some(signature) => Ok(CommandView::Confirm(signature)),
                    None => Err(bad_parameter("Invalid signature"@)),
                },
            }
        } else if name == "configure-staking-account"@ {
            match optional_pubkey(arguments, "delegate"@, "Invalid public key"@) {
                Err(e) => Err(e),
                Ok(delegate) => match optional_pubkey(
                    arguments,
                    "authorize"@,
                    "Invalid public key"@,
                ) {
                    Err(e) => Err(e),
                    Ok(voter) => Ok(CommandView::ConfigureStakingAccount(delegate, voter)),
                },
            }
        } else if name == "create-staking-account"@ {
            match required_pubkey(arguments, "voting_account_id"@, "Invalid public key"@) {
                Err(e) => Err(e),
                Ok(id) => match required_lamports(arguments, "lamports"@) {
                    Err(e) => Err(e),
                    Ok(lamports) => Ok(CommandView::CreateStakingAccount(id, lamports)),
                },
            }
        } else if name == "deploy"@ {
            match value_of(arguments, "program_location"@) {
                None => Err(bad_parameter("Missing argument"@)),
                Some(location) => Ok(CommandView::Deploy(location)),
            }
        } else if name == "get-transaction-count"@ {
            Ok(CommandView::GetTransactionCount)
        } else if name == "pay"@ {
            pay_of(pubkey, arguments)
        } else if name == "send-signature"@ {
            match to_and_process_id(arguments) {
                Err(e) => Err(e),
                Ok(pair) => Ok(CommandView::Witness(pair.0, pair.1)),
            }
        } else if name == "send-timestamp"@ {
            match to_and_process_id(arguments) {
                Err(e) => Err(e),
                Ok(pair) => match optional_datetime(arguments, "datetime"@) {
                    Err(e) => Err(e),
                    Ok(dt) => Ok(
                        CommandView::TimeElapsed(
                            pair.0,
                            pair.1,
                            match dt {
                                Some(t) => t,
                                None => now,
                            },
                        ),
                    ),
                },
            }
        } else {
            Err(ErrorView::CommandNotRecognized("unknown subcommand"@))
        },
    }
}

/// The view of what `parse_command` returns.
pub open spec fn result_view(r: Result<WalletCommand, WalletError>) -> Result<
    CommandView,
    ErrorView,
> {
    match r {
        Ok(command) => Ok(command@),
        Err(e) => Err(e@),
    }
}

fn same_text(a: &str, b: &str) -> (r: bool)
    ensures
        r == (a@ == b@),
{
    let x = a.to_owned();
    let y = b.to_owned();
    x == y
}

fn bad(message: &str) -> (r: WalletError)
    ensures
        r@ == bad_parameter(message@),
{
    WalletError::BadParameter(String::from_str(message))
}

fn contains_z(text: &str) -> (r: bool)
    ensures
        r == text@.contains('Z'),
{
    let len = text.unicode_len();
    let mut i: usize = 0;
    while i < len
        invariant
            i <= len == text@.len(),
            forall|k: int| 0 <= k < i ==> text@[k] != 'Z',
        decreases len - i,
    {
        if text.get_char(i) == 'Z' {
            return true;
        }
        i += 1;
    }
    false
}

/// Reads a moment from a text; a text without a `Z` is taken as universal
/// time.
pub fn parse_timestamp(text: &str) -> (r: Option<Timestamp>)
    ensures
        r == datetime_of_text(text@),
{
    if contains_z(text) {
        parse_datetime(text)
    } else {
        let full = String::from_str(text).concat("Z");
        parse_datetime(full.as_str())
    }
}

impl CommandArgs {
    fn find(&self, name: &str) -> (r: Option<&Argument>)
        ensures
            match r {
                Some(a) => find_argument(self@.arguments, name@, 0) == Some(a@),
                None => find_argument(self@.arguments, name@, 0) is None,
            },
    {
        let ghost views = self@.arguments;
        let mut i: usize = 0;
        while i < self.arguments.len()
            invariant
                i <= self.arguments@.len(),
                views == argument_views(self.arguments@),
                find_argument(views, name@, 0) == find_argument(views, name@, i as int),
            decreases self.arguments@.len() - i,
        {
            assert(views[i as int] == self.arguments@[i as int]@);
            if same_text(self.arguments[i].name.as_str(), name) {
                return Some(&self.arguments[i]);
            }
            i += 1;
        }
        None
    }

    /// Whether the command line holds the argument.
    pub fn is_present(&self, name: &str) -> (r: bool)
        ensures
            r == is_present(self@.arguments, name@),
    {
        self.find(name).is_some()
    }

    /// The first value of an argument.
    pub fn value_of(&self, name: &str) -> (r: Option<&String>)
        ensures
            match r {
                Some(text) => value_of(self@.arguments, name@) == Some(text@),
                None => value_of(self@.arguments, name@) is None,
            },
    {
        match self.find(name) {
            Some(a) => {
                if a.values.len() > 0 {
                    assert(a@.values[0] == a.values@[0]@);
                    Some(&a.values[0])
                } else {
                    None
                }
            },
            None => None,
        }
    }

    fn required_pubkey(&self, name: &str, message: &str) -> (r: Result<Pubkey, WalletError>)
        ensures
            match r {
                Ok(key) => required_pubkey(self@.arguments, name@, message@) == Ok::<
                    Pubkey,
                    ErrorView,
                >(key),
                Err(e) => required_pubkey(self@.arguments, name@, message@) == Err::<
                    Pubkey,
                    ErrorView,
                >(e@),
            },
    {
        match self.value_of(name) {
            None => Err(bad("Missing argument")),
            Some(text) => match parse_pubkey(text.as_str()) {
                Some(key) => Ok(key),
                None => Err(bad(message)),
            },
        }
    }

    fn optional_pubkey(&self, name: &str, message: &str) -> (r: Result<
        Option<Pubkey>,
        WalletError,
    >)
        ensures
            match r {
                Ok(key) => optional_pubkey(self@.arguments, name@, message@) == Ok::<
                    Option<Pubkey>,
                    ErrorView,
                >(key),
                Err(e) => optional_pubkey(self@.arguments, name@, message@) == Err::<
                    Option<Pubkey>,
                    ErrorView,
                >(e@),
            },
    {
        if self.is_present(name) {
            match self.required_pubkey(name, message) {
                Ok(key) => Ok(Some(key)),
                Err(e) => Err(e),
            }
        } else {
            Ok(None)
        }
    }

    fn required_lamports(&self, name: &str) -> (r: Result<u64, WalletError>)
        ensures
            match r {
                Ok(n) => required_lamports(self@.arguments, name@) == Ok::<u64, ErrorView>(n),
                Err(e) => required_lamports(self@.arguments, name@) == Err::<u64, ErrorView>(e@),
            },
    {
        match self.value_of(name) {
            None => Err(bad("Missing argument")),
            Some(text) => match parse_u64(text.as_str()) {
                Some(lamports) => Ok(lamports),
                None => Err(bad("Invalid lamports")),
            },
        }
    }

    fn optional_datetime(&self, name: &str) -> (r: Result<Option<Timestamp>, WalletError>)
        ensures
            match r {
                Ok(dt) => optional_datetime(self@.arguments, name@) == Ok::<
                    Option<Timestamp>,
                    ErrorView,
                >(dt),
                Err(e) => optional_datetime(self@.arguments, name@) == Err::<
                    Option<Timestamp>,
                    ErrorView,
                >(e@),
            },
    {
        if self.is_present(name) {
            match self.value_of(name) {
                None => Err(bad("Missing argument")),
                Some(text) => match parse_timestamp(text.as_str()) {
                    Some(dt) => Ok(Some(dt)),
                    None => Err(bad("Invalid timestamp")),
                },
            }
        } else {
            Ok(None)
        }
    }

    fn witnesses(&self) -> (r: Result<Option<Vec<Pubkey>>, WalletError>)
        ensures
            match r {
                Ok(Some(keys)) => witnesses_of(self@.arguments) == Ok::<
                    Option<Seq<Pubkey>>,
                    ErrorView,
                >(Some(keys@)),
                Ok(None) => witnesses_of(self@.arguments) == Ok::<Option<Seq<Pubkey>>, ErrorView>(
                    None,
                ),
                Err(e) => witnesses_of(self@.arguments) == Err::<Option<Seq<Pubkey>>, ErrorView>(
                    e@,
                ),
            },
    {
        match self.find("witness") {
            None => Ok(None),
            Some(a) => {
                let ghost values = a@.values;
                let mut keys: Vec<Pubkey> = Vec::new();
                let mut i: usize = 0;
                while i < a.values.len()
                    invariant
                        i <= a.values@.len(),
                        values == texts(a.values@),
                        find_argument(self@.arguments, "witness"@, 0) == Some(a@),
                        pubkeys_of_texts(values, i as int) == Some(keys@),
                    decreases a.values@.len() - i,
                {
                    assert(values[i as int] == a.values@[i as int]@);
                    match parse_pubkey(a.values[i].as_str()) {
                        Some(key) => {
                            keys.push(key);
                        },
                        None => {
                            proof {
                                lemma_pubkeys_fail(values, i + 1, values.len() as int);
                            }
                            return Err(bad("Invalid witness public key"));
                        },
                    }
                    i += 1;
                }
                Ok(Some(keys))
            },
        }
    }

    fn to_and_process_id(&self) -> (r: Result<(Pubkey, Pubkey), WalletError>)
        ensures
            match r {
                Ok(pair) => to_and_process_id(self@.arguments) == Ok::<
                    (Pubkey, Pubkey),
                    ErrorView,
                >(pair),
                Err(e) => to_and_process_id(self@.arguments) == Err::<(Pubkey, Pubkey), ErrorView>(
                    e@,
                ),
            },
    {
        let to = match self.required_pubkey("to", "Invalid public key") {
            Ok(to) => to,
            Err(e) => { return Err(e); },
        };
        match self.required_pubkey("process_id", "Invalid public key") {
            Ok(id) => Ok((to, id)),
            Err(e) => Err(e),
        }
    }

    fn pay(&self, pubkey: &Pubkey) -> (r: Result<WalletCommand, WalletError>)
        ensures
            result_view(r) == pay_of(*pubkey, self@.arguments),
    {
        let lamports = match self.required_lamports("lamports") {
            Ok(lamports) => lamports,
            Err(e) => { return Err(e); },
        };
        let to = match self.optional_pubkey("to", "Invalid to public key") {
            Ok(Some(key)) => key,
            Ok(None) => *pubkey,
            Err(e) => { return Err(e); },
        };
        let timestamp = match self.optional_datetime("timestamp") {
            Ok(timestamp) => timestamp,
            Err(e) => { return Err(e); },
        };
        let timestamp_pubkey = match self.optional_pubkey(
            "timestamp_pubkey",
            "Invalid timestamp public key",
        ) {
            Ok(key) => key,
            Err(e) => { return Err(e); },
        };
        let witnesses = match self.witnesses() {
            Ok(witnesses) => witnesses,
            Err(e) => { return Err(e); },
        };
        let cancelable = if self.is_present("cancelable") {
            Some(*pubkey)
        } else {
            None
        };
        Ok(WalletCommand::Pay(lamports, to, timestamp, timestamp_pubkey, witnesses, cancelable))
    }
}

/// Once a text names no address, the list names none.
proof fn lemma_pubkeys_fail(values: Seq<Seq<char>>, k: int, n: int)
    requires
        0 < k <= n,
        pubkeys_of_texts(values, k) is None,
    ensures
        pubkeys_of_texts(values, n) is None,
    decreases n - k,
{
    if k < n {
        assert(pubkeys_of_texts(values, k + 1) is None);
        lemma_pubkeys_fail(values, k + 1, n);
    }
}

/// Reads the command that a command line asks for, with `now` as the
/// current time.
pub fn parse_command_at(pubkey: &Pubkey, args: &CommandArgs, now: Timestamp) -> (r: Result<
    WalletCommand,
    WalletError,
>)
    ensures
        result_view(r) == parse_spec(*pubkey, args@, now),
{
    let name = match &args.subcommand {
        None => {
            return Err(
                WalletError::CommandNotRecognized(String::from_str("no subcommand given")),
            );
        },
        Some(name) => name.as_str(),
    };
    if same_text(name, "address") {
        Ok(WalletCommand::Address)
    } else if same_text(name, "airdrop") {
        match args.required_lamports("lamports") {
            Ok(lamports) => Ok(WalletCommand::Airdrop(lamports)),
            Err(e) => Err(e),
        }
    } else if same_text(name, "balance") {
        Ok(WalletCommand::Balance)
    } else if same_text(name, "cancel") {
        match args.required_pubkey("process_id", "Invalid public key") {
            Ok(id) => Ok(WalletCommand::Cancel(id)),
            Err(e) => Err(e),
        }
    } else if same_text(name, "confirm") {
        match args.value_of("signature") {
            None => Err(bad("Missing argument")),
            Some(text) => match parse_signature(text.as_str()) {
                Some(signature) => Ok(WalletCommand::Confirm(signature)),
                None => Err(bad("Invalid signature")),
            },
        }
    } else if same_text(name, "configure-staking-account") {
        let delegate = match args.optional_pubkey("delegate", "Invalid public key") {
            Ok(delegate) => delegate,
            Err(e) => { return Err(e); },
        };
        match args.optional_pubkey("authorize", "Invalid public key") {
            Ok(voter) => Ok(WalletCommand::ConfigureStakingAccount(delegate, voter)),
            Err(e) => Err(e),
        }
    } else if same_text(name, "create-staking-account") {
        let id = match args.required_pubkey("voting_account_id", "Invalid public key") {
            Ok(id) => id,
            Err(e) => { return Err(e); },
        };
        match args.required_lamports("lamports") {
            Ok(lamports) => Ok(WalletCommand::CreateStakingAccount(id, lamports)),
            Err(e) => Err(e),
        }
    } else if same_text(name, "deploy") {
        match args.value_of("program_location") {
            None => Err(bad("Missing argument")),
            Some(location) => Ok(WalletCommand::Deploy(location.clone())),
        }
    } else if same_text(name, "get-transaction-count") {
        Ok(WalletCommand::GetTransactionCount)
    } else if same_text(name, "pay") {
        args.pay(pubkey)
    } else if same_text(name, "send-signature") {
        match args.to_and_process_id() {
            Ok(pair) => Ok(WalletCommand::Witness(pair.0, pair.1)),
            Err(e) => Err(e),
        }
    } else if same_text(name, "send-timestamp") {
        let pair = match args.to_and_process_id() {
            Ok(pair) => pair,
            Err(e) => { return Err(e); },
        };
        match args.optional_datetime("datetime") {
            Ok(Some(dt)) => Ok(WalletCommand::TimeElapsed(pair.0, pair.1, dt)),
            Ok(None) => Ok(WalletCommand::TimeElapsed(pair.0, pair.1, now)),
            Err(e) => Err(e),
        }
    } else {
        Err(WalletError::CommandNotRecognized(String::from_str("unknown subcommand")))
    }
}

/// Reads the command that a command line asks for. The current time, for
/// a `send-timestamp` that names none, is read from the clock.
pub fn parse_command(pubkey: &Pubkey, args: &CommandArgs) -> (r: Result<WalletCommand, WalletError>)
    ensures
        exists|now: Timestamp| result_view(r) == #[trigger] parse_spec(*pubkey, args@, now),
{
    let now = Timestamp::from_millis(timestamp());
    parse_command_at(pubkey, args, now)
}

/// How a request for an airdrop ended.
#[derive(Clone, Copy, Debug, PartialEq, Eq, Structural)]
pub enum AirdropOutcome {
    /// The balance grew by the lamports asked for, or more; this is it.
    Balance(u64),
    /// The balance is lower than it was.
    Decreased,
    /// The balance grew by this much, which is less than was asked for.
    Short(u64),
}

/// Judges an airdrop by the balances before and after it.
pub fn airdrop_outcome(previous_balance: u64, current_balance: u64, lamports: u64) -> (r:
    AirdropOutcome)
    ensures
        r == (if current_balance < previous_balance {
            AirdropOutcome::Decreased
        } else if current_balance - previous_balance < lamports {
            AirdropOutcome::Short((current_balance - previous_balance) as u64)
        } else {
            AirdropOutcome::Balance(current_balance)
        }),
{
    if current_balance < previous_balance {
        AirdropOutcome::Decreased
    } else if current_balance - previous_balance < lamports {
        AirdropOutcome::Short(current_balance - previous_balance)
    } else {
        AirdropOutcome::Balance(current_balance)
    }
}

/// How a payment is made.
#[derive(Clone, Copy, Debug, PartialEq, Eq, Structural)]
pub enum PaymentKind {
    /// At once, by a move of lamports.
    Move,
    /// By a contract that pays after the given time, which the given
    /// address confirms.
    OnDate(Timestamp, Pubkey),
    /// By a contract that pays when the given witness has signed.
    WhenSigned(Pubkey),
    /// A payment that waits for a time and for witnesses is not supported.
    Combination,
    /// The list of witnesses is empty.
    NoWitness,
}

pub open spec fn payment_kind_spec(
    id: Pubkey,
    timestamp: Option<Timestamp>,
    timestamp_pubkey: Option<Pubkey>,
    witnesses: Option<Seq<Pubkey>>,
) -> PaymentKind {
    match (timestamp, witnesses) {
        (None, None) => PaymentKind::Move,
        (Some(dt), None) => PaymentKind::OnDate(
            dt,
            match timestamp_pubkey {
                Some(key) => key,
                None => id,
            },
        ),
        (None, Some(list)) => if list.len() > 0 {
            PaymentKind::WhenSigned(list[0])
        } else {
            PaymentKind::NoWitness
        },
        (Some(_), Some(_)) => PaymentKind::Combination,
    }
}

/// Decides how a payment is made. `id` is the wallet's address, which
/// confirms the time where no other address is named.
pub fn payment_kind(
    id: &Pubkey,
    timestamp: Option<Timestamp>,
    timestamp_pubkey: Option<Pubkey>,
    witnesses: &Option<Vec<Pubkey>>,
) -> (r: PaymentKind)
    ensures
        r == payment_kind_spec(
            *id,
            timestamp,
            timestamp_pubkey,
            match witnesses {
                Some(list) => Some(list@),
                None => None,
            },
        ),
{
    match timestamp {
        None => match witnesses {
            None => PaymentKind::Move,
            Some(list) => {
                if list.len() > 0 {
                    PaymentKind::WhenSigned(list[0])
                } else {
                    PaymentKind::NoWitness
                }
            },
        },
        Some(dt) => match witnesses {
            None => PaymentKind::OnDate(
                dt,
                match timestamp_pubkey {
                    Some(key) => key,
                    None => *id,
                },
            ),
            Some(_) => PaymentKind::Combination,
        },
    }
}

/// The pieces in which a program is written to its account: each with the
/// place in the program where it starts.
pub open spec fn chunk_at(data: Seq<u8>, i: int) -> (u32, Seq<u8>) {
    let start = i * USERDATA_CHUNK_SIZE;
    let end = if start + USERDATA_CHUNK_SIZE <= data.len() {
        start + USERDATA_CHUNK_SIZE
    } else {
        data.len() as int
    };
    (start as u32, data.subrange(start, end))
}

/// Whether an account can pay for the deployment of a program: it can
/// unless its balance is known and holds nothing.
pub fn can_deploy(balance: Option<u64>) -> (r: bool)
    ensures
        r == !(balance matches Some(lamports) && lamports < 1),
{
    match balance {
        Some(lamports) => lamports >= 1,
        None => true,
    }
}

/// The number of pieces of a program of the given length.
pub open spec fn chunk_count(len: int) -> int {
    (len + USERDATA_CHUNK_SIZE - 1) / (USERDATA_CHUNK_SIZE as int)
}

/// Cuts a program into the pieces in which it is written to its account:
/// each of `USERDATA_CHUNK_SIZE` bytes but the last, which may be shorter.
pub fn program_chunks(data: &Vec<u8>) -> (r: Vec<(u32, Vec<u8>)>)
    requires
        data@.len() <= u32::MAX,
    ensures
        r@.len() == chunk_count(data@.len() as int),
        forall|i: int|
            0 <= i < r@.len() ==> (#[trigger] r@[i]).0 == chunk_at(data@, i).0 && r@[i].1@
                == chunk_at(data@, i).1,
{
    let mut out: Vec<(u32, Vec<u8>)> = Vec::new();
    let mut start: usize = 0;
    while start < data.len()
        invariant
            start <= data@.len() <= u32::MAX,
            start == out@.len() * USERDATA_CHUNK_SIZE || start == data@.len(),
            start == data@.len() ==> out@.len() == chunk_count(data@.len() as int),
            start < data@.len() ==> out@.len() < chunk_count(data@.len() as int),
            forall|i: int|
                0 <= i < out@.len() ==> (#[trigger] out@[i]).0 == chunk_at(data@, i).0
                    && out@[i].1@ == chunk_at(data@, i).1,
        decreases data@.len() - start,
    {
        let end: usize = if data.len() - start >= USERDATA_CHUNK_SIZE {
            start + USERDATA_CHUNK_SIZE
        } else {
            data.len()
        };
        let mut chunk: Vec<u8> = Vec::new();
        let mut k: usize = start;
        while k < end
            invariant
                start <= k <= end <= data@.len(),
                chunk@ == data@.subrange(start as int, k as int),
            decreases end - k,
        {
            chunk.push(data[k]);
            proof {
                assert(chunk@ =~= data@.subrange(start as int, k + 1));
            }
            k += 1;
        }
        proof {
            let i = out@.len() as int;
            assert(start == i * USERDATA_CHUNK_SIZE);
            assert(chunk_at(data@, i).1 == data@.subrange(start as int, end as int));
        }
        out.push((start as u32, chunk));
        start = end;
    }
    out
}

} // verus!
