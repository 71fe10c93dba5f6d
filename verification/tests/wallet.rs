use ledger_core::base58::{parse_pubkey, parse_signature, pubkey_to_string, signature_to_string};
use ledger_core::budget::Timestamp;
use ledger_core::decimal::parse_u64;
use ledger_core::pubkey::Pubkey;
use ledger_core::signature::{Keypair, Signature};
use ledger_core::wallet::{
    airdrop_outcome, parse_command, parse_command_at, parse_timestamp, payment_kind,
    program_chunks, AirdropOutcome, Argument, CommandArgs, PaymentKind, WalletCommand,
    WalletError,
};

fn command(name: &str, arguments: Vec<(&str, Vec<&str>)>) -> CommandArgs {
    CommandArgs {
        subcommand: Some(name.to_string()),
        arguments: arguments
            .into_iter()
            .map(|(name, values)| Argument {
                name: name.to_string(),
                values: values.into_iter().map(|v| v.to_string()).collect(),
            })
            .collect(),
    }
}

#[test]
fn test_wallet_parse_command() {
    let pubkey = Keypair::new().pubkey();
    let pubkey_string = pubkey_to_string(&pubkey);
    let witness0 = Keypair::new().pubkey();
    let witness0_string = pubkey_to_string(&witness0);
    let witness1 = Keypair::new().pubkey();
    let witness1_string = pubkey_to_string(&witness1);
    let dt = Timestamp {
        seconds: chrono::NaiveDate::from_ymd_opt(2018, 9, 19)
            .unwrap()
            .and_hms_opt(17, 30, 59)
            .unwrap()
            .and_utc()
            .timestamp(),
        nanos: 0,
    };
    assert_eq!(dt.seconds, 1537378259);

    // Test Airdrop Subcommand
    let test_airdrop = command("airdrop", vec![("lamports", vec!["50"])]);
    assert_eq!(
        parse_command(&pubkey, &test_airdrop).unwrap(),
        WalletCommand::Airdrop(50)
    );
    let test_bad_airdrop = command("airdrop", vec![("lamports", vec!["notint"])]);
    assert!(parse_command(&pubkey, &test_bad_airdrop).is_err());

    // Test Cancel Subcommand
    let test_cancel = command("cancel", vec![("process_id", vec![&pubkey_string])]);
    assert_eq!(
        parse_command(&pubkey, &test_cancel).unwrap(),
        WalletCommand::Cancel(pubkey)
    );

    // Test Confirm Subcommand
    let signature = Signature::new(&vec![1; 64]);
    let signature_string = signature_to_string(&signature);
    let test_confirm = command("confirm", vec![("signature", vec![&signature_string])]);
    assert_eq!(
        parse_command(&pubkey, &test_confirm).unwrap(),
        WalletCommand::Confirm(signature)
    );
    let test_bad_signature = command("confirm", vec![("signature", vec!["deadbeef"])]);
    assert!(parse_command(&pubkey, &test_bad_signature).is_err());

    // Test ConfigureStakingAccount Subcommand
    let second_pubkey = Keypair::new().pubkey();
    let second_pubkey_string = pubkey_to_string(&second_pubkey);
    let test_configure_staking_account = command(
        "configure-staking-account",
        vec![
            ("delegate", vec![&pubkey_string]),
            ("authorize", vec![&second_pubkey_string]),
        ],
    );
    assert_eq!(
        parse_command(&pubkey, &test_configure_staking_account).unwrap(),
        WalletCommand::ConfigureStakingAccount(Some(pubkey), Some(second_pubkey))
    );
    let test_configure_staking_account = command(
        "configure-staking-account",
        vec![("delegate", vec![&pubkey_string])],
    );
    assert_eq!(
        parse_command(&pubkey, &test_configure_staking_account).unwrap(),
        WalletCommand::ConfigureStakingAccount(Some(pubkey), None)
    );

    // Test CreateStakingAccount SubCommand
    let test_create_staking_account = command(
        "create-staking-account",
        vec![
            ("voting_account_id", vec![&pubkey_string]),
            ("lamports", vec!["50"]),
        ],
    );
    assert_eq!(
        parse_command(&pubkey, &test_create_staking_account).unwrap(),
        WalletCommand::CreateStakingAccount(pubkey, 50)
    );
    let test_bad_pubkey = command(
        "create-staking-account",
        vec![("voting_account_id", vec!["deadbeef"]), ("lamports", vec!["50"])],
    );
    assert!(parse_command(&pubkey, &test_bad_pubkey).is_err());

    // Test Deploy Subcommand
    let test_deploy = command(
        "deploy",
        vec![("program_location", vec!["/Users/test/program.o"])],
    );
    assert_eq!(
        parse_command(&pubkey, &test_deploy).unwrap(),
        WalletCommand::Deploy("/Users/test/program.o".to_string())
    );

    // Test Simple Pay Subcommand
    let test_pay = command(
        "pay",
        vec![("to", vec![&pubkey_string]), ("lamports", vec!["50"])],
    );
    assert_eq!(
        parse_command(&pubkey, &test_pay).unwrap(),
        WalletCommand::Pay(50, pubkey, None, None, None, None)
    );
    let test_bad_pubkey = command(
        "pay",
        vec![("to", vec!["deadbeef"]), ("lamports", vec!["50"])],
    );
    assert!(parse_command(&pubkey, &test_bad_pubkey).is_err());

    // Test Pay Subcommand w/ Witness
    let test_pay_multiple_witnesses = command(
        "pay",
        vec![
            ("to", vec![&pubkey_string]),
            ("lamports", vec!["50"]),
            ("witness", vec![&witness0_string, &witness1_string]),
        ],
    );
    assert_eq!(
        parse_command(&pubkey, &test_pay_multiple_witnesses).unwrap(),
        WalletCommand::Pay(50, pubkey, None, None, Some(vec![witness0, witness1]), None)
    );
    let test_pay_single_witness = command(
        "pay",
        vec![
            ("to", vec![&pubkey_string]),
            ("lamports", vec!["50"]),
            ("witness", vec![&witness0_string]),
        ],
    );
    assert_eq!(
        parse_command(&pubkey, &test_pay_single_witness).unwrap(),
        WalletCommand::Pay(50, pubkey, None, None, Some(vec![witness0]), None)
    );

    // Test Pay Subcommand w/ Timestamp
    let test_pay_timestamp = command(
        "pay",
        vec![
            ("to", vec![&pubkey_string]),
            ("lamports", vec!["50"]),
            ("timestamp", vec!["2018-09-19T17:30:59"]),
            ("timestamp_pubkey", vec![&witness0_string]),
        ],
    );
    assert_eq!(
        parse_command(&pubkey, &test_pay_timestamp).unwrap(),
        WalletCommand::Pay(50, pubkey, Some(dt), Some(witness0), None, None)
    );

    // Test Send-Signature Subcommand
    let test_send_signature = command(
        "send-signature",
        vec![("to", vec![&pubkey_string]), ("process_id", vec![&pubkey_string])],
    );
    assert_eq!(
        parse_command(&pubkey, &test_send_signature).unwrap(),
        WalletCommand::Witness(pubkey, pubkey)
    );
    let test_pay_multiple_witnesses = command(
        "pay",
        vec![
            ("to", vec![&pubkey_string]),
            ("lamports", vec!["50"]),
            ("timestamp", vec!["2018-09-19T17:30:59"]),
            ("witness", vec![&witness0_string, &witness1_string]),
            ("timestamp_pubkey", vec![&witness0_string]),
        ],
    );
    assert_eq!(
        parse_command(&pubkey, &test_pay_multiple_witnesses).unwrap(),
        WalletCommand::Pay(
            50,
            pubkey,
            Some(dt),
            Some(witness0),
            Some(vec![witness0, witness1]),
            None
        )
    );

    // Test Send-Timestamp Subcommand
    let test_send_timestamp = command(
        "send-timestamp",
        vec![
            ("to", vec![&pubkey_string]),
            ("process_id", vec![&pubkey_string]),
            ("datetime", vec!["2018-09-19T17:30:59"]),
        ],
    );
    assert_eq!(
        parse_command(&pubkey, &test_send_timestamp).unwrap(),
        WalletCommand::TimeElapsed(pubkey, pubkey, dt)
    );
    let test_bad_timestamp = command(
        "send-timestamp",
        vec![
            ("to", vec![&pubkey_string]),
            ("process_id", vec![&pubkey_string]),
            ("datetime", vec!["20180919T17:30:59"]),
        ],
    );
    assert!(parse_command(&pubkey, &test_bad_timestamp).is_err());
}

#[test]
fn parse_command_errors_and_defaults() {
    let me = Keypair::new().pubkey();
    let other = Keypair::new().pubkey();
    let other_string = pubkey_to_string(&other);
    let now = Timestamp { seconds: 77, nanos: 5 };
    let parse = |args: &CommandArgs| parse_command_at(&me, args, now);
    let bad = |message: &str| Err(WalletError::BadParameter(message.to_string()));

    assert_eq!(parse(&command("address", vec![])), Ok(WalletCommand::Address));
    assert_eq!(parse(&command("balance", vec![])), Ok(WalletCommand::Balance));
    assert_eq!(
        parse(&command("get-transaction-count", vec![])),
        Ok(WalletCommand::GetTransactionCount)
    );
    assert_eq!(
        parse(&CommandArgs { subcommand: None, arguments: vec![] }),
        Err(WalletError::CommandNotRecognized("no subcommand given".to_string()))
    );
    assert_eq!(
        parse(&command("withdraw", vec![])),
        Err(WalletError::CommandNotRecognized("unknown subcommand".to_string()))
    );
    assert_eq!(parse(&command("airdrop", vec![])), bad("Missing argument"));
    assert_eq!(
        parse(&command("airdrop", vec![("lamports", vec!["-3"])])),
        bad("Invalid lamports")
    );
    assert_eq!(
        parse(&command("cancel", vec![("process_id", vec!["deadbeef"])])),
        bad("Invalid public key")
    );
    assert_eq!(
        parse(&command("cancel", vec![("process_id", vec!["not base58: 0OIl"])])),
        bad("Invalid public key")
    );
    assert_eq!(
        parse(&command("confirm", vec![("signature", vec![&other_string])])),
        bad("Invalid signature")
    );
    assert_eq!(
        parse(&command("configure-staking-account", vec![("authorize", vec!["x"])])),
        bad("Invalid public key")
    );
    assert_eq!(
        parse(&command("configure-staking-account", vec![])),
        Ok(WalletCommand::ConfigureStakingAccount(None, None))
    );
    assert_eq!(parse(&command("deploy", vec![])), bad("Missing argument"));

    // a payment without payee pays the wallet; a cancelable one names it
    assert_eq!(
        parse(&command("pay", vec![("lamports", vec!["7"]), ("cancelable", vec![])])),
        Ok(WalletCommand::Pay(7, me, None, None, None, Some(me)))
    );
    assert_eq!(
        parse(&command("pay", vec![("lamports", vec!["7"]), ("to", vec!["deadbeef"])])),
        bad("Invalid to public key")
    );
    assert_eq!(
        parse(&command(
            "pay",
            vec![("lamports", vec!["7"]), ("timestamp", vec!["yesterday"])]
        )),
        bad("Invalid timestamp")
    );
    assert_eq!(
        parse(&command(
            "pay",
            vec![("lamports", vec!["7"]), ("timestamp_pubkey", vec!["?"])]
        )),
        bad("Invalid timestamp public key")
    );
    assert_eq!(
        parse(&command(
            "pay",
            vec![("lamports", vec!["7"]), ("witness", vec![&other_string, "deadbeef"])]
        )),
        bad("Invalid witness public key")
    );
    assert_eq!(
        parse(&command("pay", vec![("lamports", vec!["7"]), ("witness", vec![])])),
        Ok(WalletCommand::Pay(7, me, None, None, Some(vec![]), None))
    );
    assert_eq!(parse(&command("pay", vec![("to", vec![&other_string])])), bad("Missing argument"));
    // the first argument of a name counts
    assert_eq!(
        parse(&command(
            "airdrop",
            vec![("lamports", vec!["1", "2"]), ("lamports", vec!["3"])]
        )),
        Ok(WalletCommand::Airdrop(1))
    );

    // without a date the current time is sent
    assert_eq!(
        parse(&command(
            "send-timestamp",
            vec![("to", vec![&other_string]), ("process_id", vec![&pubkey_to_string(&me)])]
        )),
        Ok(WalletCommand::TimeElapsed(other, me, now))
    );
    let read = parse_command(
        &me,
        &command(
            "send-timestamp",
            vec![("to", vec![&other_string]), ("process_id", vec![&other_string])],
        ),
    );
    match read {
        Ok(WalletCommand::TimeElapsed(_, _, dt)) => assert!(dt.seconds > 1_577_836_800),
        other => panic!("unexpected {:?}", other),
    }
    assert_eq!(
        parse(&command("send-signature", vec![("to", vec![&other_string])])),
        bad("Missing argument")
    );
    assert_eq!(WalletError::BadParameter("x".to_string()).description(), "invalid");
}

#[test]
fn decimal_numbers() {
    assert_eq!(parse_u64("0"), Some(0));
    assert_eq!(parse_u64("50"), Some(50));
    assert_eq!(parse_u64("+5"), Some(5));
    assert_eq!(parse_u64("007"), Some(7));
    assert_eq!(parse_u64("18446744073709551615"), Some(u64::MAX));
    assert_eq!(parse_u64("18446744073709551616"), None);
    assert_eq!(parse_u64("99999999999999999999999"), None);
    assert_eq!(parse_u64(""), None);
    assert_eq!(parse_u64("+"), None);
    assert_eq!(parse_u64("++1"), None);
    assert_eq!(parse_u64("-1"), None);
    assert_eq!(parse_u64("12a"), None);
    assert_eq!(parse_u64(" 1"), None);
    assert_eq!(parse_u64("1 "), None);
    assert_eq!(parse_u64("١"), None);
    for text in ["0", "+5", "007", "18446744073709551615", "18446744073709551616", "", "+", "-1", "1_000"] {
        assert_eq!(parse_u64(text), text.parse::<u64>().ok());
    }
}

#[test]
fn base58_texts() {
    assert_eq!(
        pubkey_to_string(&Pubkey::default()),
        "11111111111111111111111111111111"
    );
    assert_eq!(
        parse_pubkey("11111111111111111111111111111111"),
        Some(Pubkey::default())
    );
    let key = Pubkey::new(&[200u8; 32]);
    let text = pubkey_to_string(&key);
    assert_ne!(text.as_bytes(), &[200u8; 32]);
    assert_eq!(text, bs58::encode([200u8; 32]).into_string());
    assert_eq!(parse_pubkey(&text), Some(key));
    assert_eq!(parse_signature(&text), None);
    assert_eq!(parse_pubkey("1111111111111111111111111111111"), None);
    assert_eq!(parse_pubkey("0OIl"), None);
    assert_eq!(parse_pubkey(""), None);
    let signature = Keypair::new().sign_message(b"text");
    assert_eq!(parse_signature(&signature_to_string(&signature)), Some(signature));
    assert_eq!(parse_pubkey(&signature_to_string(&signature)), None);
}

#[test]
fn timestamps_as_text() {
    let want = Some(Timestamp { seconds: 1467969011, nanos: 0 });
    assert_eq!(parse_timestamp("2016-07-08T09:10:11Z"), want);
    assert_eq!(parse_timestamp("2016-07-08T09:10:11"), want);
    assert_eq!(parse_timestamp("2016-07-08 09:10:11Z"), want);
    assert_eq!(
        parse_timestamp("2016-07-08T09:10:11.250Z"),
        Some(Timestamp { seconds: 1467969011, nanos: 250_000_000 })
    );
    assert_eq!(
        parse_timestamp("1969-12-31T23:59:59Z"),
        Some(Timestamp { seconds: -1, nanos: 0 })
    );
    assert_eq!(parse_timestamp("20160708T09:10:11"), None);
    assert_eq!(parse_timestamp("2016-07-08"), None);
    assert_eq!(parse_timestamp(""), None);
    assert_eq!(parse_timestamp("Z"), None);
    assert_eq!(
        Timestamp::from_millis(1467969011_250),
        Timestamp { seconds: 1467969011, nanos: 250_000_000 }
    );
    assert_eq!(Timestamp::from_millis(u64::MAX).seconds, 18446744073709551);
}

#[test]
fn wallet_decisions() {
    assert_eq!(airdrop_outcome(10, 60, 50), AirdropOutcome::Balance(60));
    assert_eq!(airdrop_outcome(10, 61, 50), AirdropOutcome::Balance(61));
    assert_eq!(airdrop_outcome(10, 59, 50), AirdropOutcome::Short(49));
    assert_eq!(airdrop_outcome(10, 9, 50), AirdropOutcome::Decreased);
    assert_eq!(airdrop_outcome(0, 0, 0), AirdropOutcome::Balance(0));

    let me = Pubkey::new(&[1; 32]);
    let other = Pubkey::new(&[2; 32]);
    let dt = Timestamp { seconds: 5, nanos: 0 };
    assert_eq!(payment_kind(&me, None, None, &None), PaymentKind::Move);
    assert_eq!(payment_kind(&me, None, Some(other), &None), PaymentKind::Move);
    assert_eq!(payment_kind(&me, Some(dt), None, &None), PaymentKind::OnDate(dt, me));
    assert_eq!(
        payment_kind(&me, Some(dt), Some(other), &None),
        PaymentKind::OnDate(dt, other)
    );
    assert_eq!(
        payment_kind(&me, None, None, &Some(vec![other, me])),
        PaymentKind::WhenSigned(other)
    );
    assert_eq!(payment_kind(&me, None, None, &Some(vec![])), PaymentKind::NoWitness);
    assert_eq!(
        payment_kind(&me, Some(dt), None, &Some(vec![other])),
        PaymentKind::Combination
    );
}

#[test]
fn programs_are_written_in_chunks() {
    assert!(program_chunks(&vec![]).is_empty());
    assert_eq!(program_chunks(&vec![7]), vec![(0, vec![7])]);
    let data: Vec<u8> = (0..600u32).map(|n| (n % 251) as u8).collect();
    let chunks = program_chunks(&data);
    assert_eq!(chunks.len(), 3);
    assert_eq!(chunks[0], (0, data[..256].to_vec()));
    assert_eq!(chunks[1], (256, data[256..512].to_vec()));
    assert_eq!(chunks[2], (512, data[512..].to_vec()));
    let exact = program_chunks(&vec![1u8; 512]);
    assert_eq!(exact.len(), 2);
    assert_eq!(exact[1], (256, vec![1u8; 256]));
}

#[test]
fn deployment_needs_a_lamport() {
    assert!(!ledger_core::wallet::can_deploy(Some(0)));
    assert!(ledger_core::wallet::can_deploy(Some(1)));
    assert!(ledger_core::wallet::can_deploy(Some(u64::MAX)));
    assert!(ledger_core::wallet::can_deploy(None));
}
