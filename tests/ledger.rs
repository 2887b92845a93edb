use account_ledger::account::{Account, AccountType, Summarizable};
use account_ledger::errors::LedgerError;
use account_ledger::ledger::Ledger;

fn handle_add_account(l: &mut Ledger, acc: Account) {
    if let Err(err) = l.add_account(acc) {
        panic!("{}", err.to_string());
    }
}

fn wallet(key: &str, balance: u64) -> Account {
    Account::with_identity(key.to_string(), AccountType::Wallet { balance }, 0)
}

fn lamports_of(l: &Ledger, key: &str) -> u64 {
    l.accounts.iter().find(|a| a.pubkey == key).unwrap().lamports
}

#[test]
fn ledger_test_add_account() {
    let mut ledger = Ledger::new();
    assert!(ledger.accounts.is_empty());

    let account = Account::new(AccountType::Wallet { balance: 0 });
    let acc = ledger.add_account(account.clone()).unwrap();
    assert!(acc.pubkey == account.pubkey);
    assert!(ledger.accounts.len() == 1);

    let err = ledger.add_account(account.clone()).unwrap_err();
    let expected_err = LedgerError::DuplicateAccount(account.pubkey.clone());
    assert_eq!(err.to_string(), expected_err.to_string());
    assert!(ledger.accounts.len() == 1);

    let new_account = Account::new(AccountType::Program {
        executable: true,
        program_data: vec![],
    });
    let ref_new_account = ledger.add_account(new_account.clone()).unwrap();
    assert!(new_account.pubkey == ref_new_account.pubkey);
    assert!(ledger.accounts.len() == 2);
}

#[test]
fn ledger_test_accounts_by_type() {
    let wallet_1 = Account::new(AccountType::Wallet { balance: 0 });
    let program_1 = Account::new(AccountType::Program {
        executable: false,
        program_data: vec![],
    });

    let mut ledger = Ledger::new();

    handle_add_account(&mut ledger, wallet_1.clone());
    handle_add_account(&mut ledger, program_1.clone());

    let wallets = ledger.accounts_by_type("wallet");
    assert!(wallets.len() == 1);
    assert_eq!(wallets.first().unwrap().pubkey, wallet_1.pubkey);

    let toke_accounts = ledger.accounts_by_type("toke_account");
    assert!(toke_accounts.is_empty());

    let no_valid_type = ledger.accounts_by_type("hfsdbhfsdbhfds");
    assert!(no_valid_type.is_empty());

    let programs = ledger.accounts_by_type("program");
    assert!(programs.len() == 1);
    assert_eq!(programs.first().unwrap().pubkey, program_1.pubkey);
}

#[test]
fn ledger_test_total_suply() {
    let mut ledger = Ledger::new();
    assert!(ledger.total_supply() == 0);

    let program_acc = Account::new(AccountType::Program {
        executable: false,
        program_data: vec![],
    });
    handle_add_account(&mut ledger, program_acc);
    assert!(ledger.total_supply() == 1);

    let stacked_coins: u64 = 200_000_000_000_000;
    let stake_acc = Account::new(AccountType::TokenAccount {
        mint: String::new(),
        token_balance: stacked_coins,
        delegate: None,
    });
    handle_add_account(&mut ledger, stake_acc);
    assert!(ledger.total_supply() == stacked_coins + 1);

    let balance_coins: u64 = 40_000_000_000;
    let wallet_acc = Account::new(AccountType::Wallet {
        balance: balance_coins,
    });
    handle_add_account(&mut ledger, wallet_acc);

    assert!(ledger.total_supply() == stacked_coins + balance_coins + 1);
}

#[test]
fn ledger_test_transfer() {
    let wallet_1 = Account::new(AccountType::Wallet { balance: 10 });
    let wallet_2 = Account::new(AccountType::Wallet { balance: 2 });

    let program_1 = Account::new(AccountType::Program {
        executable: false,
        program_data: vec![],
    });

    let mut ledger = Ledger::new();
    handle_add_account(&mut ledger, wallet_1.clone());
    handle_add_account(&mut ledger, wallet_2.clone());
    handle_add_account(&mut ledger, program_1.clone());

    if let Err(err) = ledger.transfer(&wallet_1.pubkey, &wallet_2.pubkey, 15) {
        let expected_err = LedgerError::InsufficientFunds {
            require: 15,
            available: 10,
        };
        assert_eq!(err.to_string(), expected_err.to_string());
    }

    if let Err(err) = ledger.transfer(&wallet_1.pubkey, &wallet_2.pubkey, 3) {
        panic!("{}", err.to_string());
    }

    if let Err(err) = ledger.transfer(&wallet_1.pubkey, &program_1.pubkey, 1) {
        let expected_err =
            LedgerError::InvalidTransfer(format!("key: {} is not a Wallet", program_1.pubkey));
        assert_eq!(err.to_string(), expected_err.to_string());
    }
}

#[test]
fn transfer_between_wallets_conserves_supply() {
    let mut ledger = Ledger::new();
    handle_add_account(&mut ledger, wallet("walletA-000000", 10_000));
    handle_add_account(&mut ledger, wallet("walletB-000000", 50_000_000));
    assert_eq!(ledger.total_supply(), 50_010_000);
    ledger.transfer("walletA-000000", "walletB-000000", 100).unwrap();
    assert_eq!(lamports_of(&ledger, "walletA-000000"), 9_900);
    assert_eq!(lamports_of(&ledger, "walletB-000000"), 50_000_100);
    assert_eq!(ledger.total_supply(), 50_010_000);
    match &ledger.accounts[0].account_type {
        AccountType::Wallet { balance } => assert_eq!(*balance, 9_900),
        _ => panic!("not a wallet"),
    }
    match &ledger.accounts[1].account_type {
        AccountType::Wallet { balance } => assert_eq!(*balance, 50_000_100),
        _ => panic!("not a wallet"),
    }
}

#[test]
fn transfer_to_program_is_invalid_and_changes_nothing() {
    let mut ledger = Ledger::new();
    handle_add_account(&mut ledger, wallet("walletA-000000", 10));
    let program = Account::with_identity(
        "program-P-0000".to_string(),
        AccountType::Program {
            executable: true,
            program_data: vec![],
        },
        0,
    );
    handle_add_account(&mut ledger, program);
    let err = ledger.transfer("walletA-000000", "program-P-0000", 1).unwrap_err();
    assert_eq!(
        err.to_string(),
        "invalid transfer for: key: program-P-0000 is not a Wallet"
    );
    assert!(matches!(err, LedgerError::InvalidTransfer(_)));
    assert_eq!(lamports_of(&ledger, "walletA-000000"), 10);
    assert_eq!(lamports_of(&ledger, "program-P-0000"), 1);

    let err = ledger.transfer("program-P-0000", "walletA-000000", 1).unwrap_err();
    assert_eq!(
        err.to_string(),
        "invalid transfer for: key: program-P-0000 is not a Wallet"
    );
    assert_eq!(ledger.total_supply(), 11);
}

#[test]
fn transfer_to_stake_and_token_is_invalid() {
    let mut ledger = Ledger::new();
    handle_add_account(&mut ledger, wallet("w", 10));
    handle_add_account(
        &mut ledger,
        Account::with_identity(
            "s".to_string(),
            AccountType::Stake {
                validator: "v".to_string(),
                staked_amount: 5,
            },
            0,
        ),
    );
    handle_add_account(
        &mut ledger,
        Account::with_identity(
            "t".to_string(),
            AccountType::TokenAccount {
                mint: "m".to_string(),
                token_balance: 5,
                delegate: None,
            },
            0,
        ),
    );
    assert!(matches!(
        ledger.transfer("w", "s", 1),
        Err(LedgerError::InvalidTransfer(_))
    ));
    assert!(matches!(
        ledger.transfer("t", "w", 1),
        Err(LedgerError::InvalidTransfer(_))
    ));
    assert_eq!(lamports_of(&ledger, "w"), 10);
}

#[test]
fn duplicate_add_keeps_size_one() {
    let mut ledger = Ledger::new();
    let x = wallet("same-key-00000", 5);
    handle_add_account(&mut ledger, x.clone());
    let err = ledger.add_account(x.clone()).unwrap_err();
    match err {
        LedgerError::DuplicateAccount(k) => assert_eq!(k, "same-key-00000"),
        _ => panic!("wrong error"),
    }
    assert_eq!(ledger.accounts.len(), 1);
}

#[test]
fn overdraft_is_refused_without_mutation() {
    let mut ledger = Ledger::new();
    handle_add_account(&mut ledger, wallet("a", 10));
    handle_add_account(&mut ledger, wallet("b", 0));
    let err = ledger.transfer("a", "b", 11).unwrap_err();
    match err {
        LedgerError::InsufficientFunds { require, available } => {
            assert_eq!(require, 11);
            assert_eq!(available, 10);
        }
        _ => panic!("wrong error"),
    }
    assert_eq!(
        LedgerError::InsufficientFunds {
            require: 11,
            available: 10
        }
        .to_string(),
        "Insuficient funds to make the trasnfer: requires: 11, account has: 10"
    );
    assert_eq!(lamports_of(&ledger, "a"), 10);
    assert_eq!(lamports_of(&ledger, "b"), 0);
    ledger.transfer("a", "b", 10).unwrap();
    assert_eq!(lamports_of(&ledger, "a"), 0);
    assert_eq!(lamports_of(&ledger, "b"), 10);
}

#[test]
fn transfer_reports_missing_source_and_destination() {
    let mut ledger = Ledger::new();
    handle_add_account(&mut ledger, wallet("a", 10));
    let err = ledger.transfer("nobody", "a", 1).unwrap_err();
    assert_eq!(err.to_string(), "nobody was not fount");
    let err = ledger.transfer("a", "nobody", 1).unwrap_err();
    match err {
        LedgerError::AccountNotFound(k) => assert_eq!(k, "nobody"),
        _ => panic!("a missing destination is reported as not found"),
    }
    assert_eq!(lamports_of(&ledger, "a"), 10);
}

#[test]
fn transfer_to_itself_keeps_balance() {
    let mut ledger = Ledger::new();
    handle_add_account(&mut ledger, wallet("a", 10));
    ledger.transfer("a", "a", 7).unwrap();
    assert_eq!(lamports_of(&ledger, "a"), 10);
}

#[test]
fn transfer_that_would_overflow_is_refused() {
    let mut ledger = Ledger::new();
    handle_add_account(&mut ledger, wallet("a", 10));
    handle_add_account(&mut ledger, wallet("b", u64::MAX - 5));
    let err = ledger.transfer("a", "b", 6).unwrap_err();
    assert_eq!(
        err.to_string(),
        "invalid transfer for: key: b balance would overflow"
    );
    assert_eq!(lamports_of(&ledger, "a"), 10);
    ledger.transfer("a", "b", 5).unwrap();
    assert_eq!(lamports_of(&ledger, "b"), u64::MAX);
}

#[test]
fn accounts_by_type_all_and_unknown() {
    let mut ledger = Ledger::new();
    handle_add_account(&mut ledger, wallet("w1", 1));
    handle_add_account(
        &mut ledger,
        Account::with_identity(
            "s1".to_string(),
            AccountType::Stake {
                validator: String::new(),
                staked_amount: 3,
            },
            0,
        ),
    );
    handle_add_account(&mut ledger, wallet("w2", 2));
    let all: Vec<String> = ledger
        .accounts_by_type("all")
        .iter()
        .map(|a| a.pubkey.clone())
        .collect();
    assert_eq!(all, vec!["w1", "s1", "w2"]);
    let wallets: Vec<String> = ledger
        .accounts_by_type("wallet")
        .iter()
        .map(|a| a.pubkey.clone())
        .collect();
    assert_eq!(wallets, vec!["w1", "w2"]);
    assert_eq!(ledger.accounts_by_type("stake").len(), 1);
    assert!(ledger.accounts_by_type("token_account").is_empty());
    assert!(ledger.accounts_by_type("Wallet").is_empty());
    assert!(ledger.accounts_by_type("").is_empty());
}

#[test]
fn ledger_bytes_round_trip_keeps_supply_and_summaries() {
    let mut ledger = Ledger::new();
    handle_add_account(&mut ledger, Account::new(AccountType::Wallet { balance: 10_000 }));
    handle_add_account(
        &mut ledger,
        Account::new(AccountType::Program {
            executable: true,
            program_data: vec![0, 1, 2],
        }),
    );
    handle_add_account(
        &mut ledger,
        Account::new(AccountType::TokenAccount {
            mint: "mint".to_string(),
            token_balance: 5,
            delegate: Some("d".to_string()),
        }),
    );
    let bytes = ledger.to_bytes().unwrap();
    let loaded = Ledger::from_bytes(&bytes).unwrap();
    assert_eq!(loaded.total_supply(), ledger.total_supply());
    assert_eq!(loaded.accounts.len(), 3);
    for (a, b) in ledger.accounts.iter().zip(loaded.accounts.iter()) {
        assert_eq!(a.summary(), b.summary());
        assert_eq!(a.pubkey, b.pubkey);
        assert_eq!(a.created_at, b.created_at);
    }
}

#[test]
fn ledger_bytes_of_empty_ledger() {
    let ledger = Ledger::new();
    let bytes = ledger.to_bytes().unwrap();
    assert_eq!(bytes, vec![0, 0, 0, 0]);
    let loaded = Ledger::from_bytes(&bytes).unwrap();
    assert!(loaded.accounts.is_empty());
    assert_eq!(loaded.total_supply(), 0);
}

#[test]
fn malformed_ledger_bytes_are_rejected() {
    assert!(matches!(
        Ledger::from_bytes(b"hello"),
        Err(LedgerError::SerializationError(_))
    ));
    assert!(matches!(
        Ledger::from_bytes(&[1, 0, 0, 0]),
        Err(LedgerError::SerializationError(_))
    ));
    let mut ledger = Ledger::new();
    handle_add_account(&mut ledger, wallet("a", 1));
    let mut bytes = ledger.to_bytes().unwrap();
    bytes.push(9);
    assert!(matches!(
        Ledger::from_bytes(&bytes),
        Err(LedgerError::SerializationError(_))
    ));
}
