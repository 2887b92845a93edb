use account_ledger::account::{Account, AccountType, Summarizable};
use account_ledger::errors::LedgerError;
use solana_sdk::pubkey::Pubkey;
use std::mem;

fn serialized_deserialize(acc: Account) -> Account {
    let bytes = acc.save_to_bytes();
    if let Err(err) = bytes {
        panic!("{}", err.to_string());
    }
    let clone_acc_result = Account::from_bytes(&bytes.unwrap());
    if let Err(err) = clone_acc_result {
        panic!("{}", err.to_string());
    }

    clone_acc_result.unwrap()
}

#[test]
fn test_account_type_display() {
    let wallet_type = AccountType::Wallet { balance: 0 };
    assert_eq!(wallet_type.to_string(), "Wallet");
    let program_type = AccountType::Program {
        executable: false,
        program_data: vec![],
    };
    assert_eq!(program_type.to_string(), "Program");
    let token_type = AccountType::TokenAccount {
        mint: "".to_string(),
        token_balance: 0,
        delegate: None,
    };
    assert_eq!(token_type.to_string(), "Token Account");
    let stake_type = AccountType::Stake {
        validator: "".to_string(),
        staked_amount: 0,
    };
    assert_eq!(stake_type.to_string(), "Stake");
}

#[test]
fn test_account_wallet_serialized_round_trip() {
    let lamports = 5_000_000_000;
    let wallet = Account::new(AccountType::Wallet { balance: lamports });

    let clone_wallet = serialized_deserialize(wallet.clone());
    assert_eq!(wallet.pubkey, clone_wallet.pubkey);
    assert_eq!(wallet.lamports, clone_wallet.lamports);
    assert_eq!(wallet.owner, clone_wallet.owner);
    assert_eq!(wallet.created_at, clone_wallet.created_at);
    assert_eq!(wallet.summary(), clone_wallet.summary());
    if let AccountType::Wallet { balance } = clone_wallet.account_type {
        assert_eq!(balance, lamports);
    } else {
        panic!("account result is not a wallet type");
    }
}

#[test]
fn test_account_program_round_trip_serialization() {
    let executable_val = true;
    let program_data_val = b"hello random program passing by".to_vec();
    let program_account = Account::new(AccountType::Program {
        executable: executable_val,
        program_data: program_data_val.clone(),
    });

    let clone_program_account = serialized_deserialize(program_account.clone());
    assert_eq!(program_account.pubkey, clone_program_account.pubkey);
    assert_eq!(program_account.created_at, clone_program_account.created_at);
    assert_eq!(program_account.owner, clone_program_account.owner);
    assert_eq!(program_account.lamports, clone_program_account.lamports);
    assert_eq!(program_account.summary(), clone_program_account.summary());
    if let AccountType::Program {
        executable,
        program_data,
    } = clone_program_account.account_type
    {
        assert_eq!(executable, executable_val);
        assert_eq!(program_data, program_data_val)
    } else {
        panic!("account type is not program type");
    }
}

#[test]
fn test_account_token_round_trip_serialization() {
    let mint_data = Pubkey::new_unique().to_string();
    let token_balance_data = 200_000_000_000_000;
    let token_account = Account::new(AccountType::TokenAccount {
        mint: mint_data.clone(),
        token_balance: token_balance_data,
        delegate: None,
    });

    let clone_token_account = serialized_deserialize(token_account.clone());
    assert_eq!(token_account.pubkey, clone_token_account.pubkey);
    assert_eq!(token_account.created_at, clone_token_account.created_at);
    assert_eq!(token_account.lamports, clone_token_account.lamports);
    assert_eq!(token_account.owner, clone_token_account.owner);
    assert_eq!(token_account.summary(), clone_token_account.summary());

    if let AccountType::TokenAccount {
        mint,
        token_balance,
        delegate,
    } = clone_token_account.account_type
    {
        assert_eq!(mint_data, mint);
        assert_eq!(token_balance_data, token_balance);
        assert_eq!(token_account.lamports, token_balance);
        assert_eq!(delegate, None);
    } else {
        panic!("account is not a token account");
    }
}

#[test]
fn test_account_stake_round_trip_serialization() {
    let validator_data = Pubkey::new_unique().to_string();
    let staked_amount_data = 2_000_000_000;
    let stake_account = Account::new(AccountType::Stake {
        validator: validator_data.clone(),
        staked_amount: staked_amount_data,
    });

    let clone_stake_account = serialized_deserialize(stake_account.clone());
    assert_eq!(stake_account.created_at, clone_stake_account.created_at);
    assert_eq!(stake_account.owner, clone_stake_account.owner);
    assert_eq!(stake_account.pubkey, clone_stake_account.pubkey);
    assert_eq!(stake_account.lamports, clone_stake_account.lamports);
    assert_eq!(stake_account.summary(), clone_stake_account.summary());
    if let AccountType::Stake {
        validator,
        staked_amount,
    } = clone_stake_account.account_type
    {
        assert_eq!(validator_data, validator);
        assert_eq!(staked_amount_data, staked_amount);
    } else {
        panic!("account is not a stake account");
    }
}

#[test]
fn test_serialization_error() {
    let bad_data = b"hello random set of bytes passing by";
    if let Err(err) = Account::from_bytes(bad_data) {
        assert!(
            mem::discriminant(&err)
                == mem::discriminant(&LedgerError::SerializationError("".to_string()))
        );
    }
}

#[test]
fn test_is_account_type() {
    let account = Account::new(AccountType::Stake {
        validator: String::new(),
        staked_amount: 0,
    });
    assert!(account.is_account_type(AccountType::Stake {
        validator: String::new(),
        staked_amount: 0
    }));
    assert!(!account.is_account_type(AccountType::TokenAccount {
        mint: String::new(),
        token_balance: 0,
        delegate: None
    }));
}

#[test]
fn test_account_summary() {
    let lamports: u64 = 20_000_000_000;
    let acc_type = AccountType::Stake {
        validator: String::new(),
        staked_amount: lamports,
    };
    let account = Account::new(acc_type);

    let pubkey = account.pubkey.clone();
    let sumary_key = pubkey.get(..8).unwrap().to_owned()
        + ".."
        + pubkey.chars().rev().collect::<String>().get(..4).unwrap();
    let sol = (lamports as f64) / 1_000_000_000.0;
    let acc_type_str = AccountType::Stake {
        validator: String::new(),
        staked_amount: 0,
    }
    .to_string();
    assert_eq!(
        account.summary(),
        format!("{sumary_key}|{acc_type_str}|{sol} SOL")
    );
}

#[test]
fn new_account_derives_owner_and_lamports_from_kind() {
    let wallet = Account::new(AccountType::Wallet { balance: 42 });
    assert_eq!(wallet.owner, "system");
    assert_eq!(wallet.lamports, 42);
    let program = Account::new(AccountType::Program {
        executable: true,
        program_data: vec![1, 2, 3],
    });
    assert_eq!(program.owner, "");
    assert_eq!(program.lamports, 1);
    let token = Account::new(AccountType::TokenAccount {
        mint: "m".to_string(),
        token_balance: 77,
        delegate: Some("d".to_string()),
    });
    assert_eq!(token.owner, "");
    assert_eq!(token.lamports, 77);
    let stake = Account::new(AccountType::Stake {
        validator: "v".to_string(),
        staked_amount: 9,
    });
    assert_eq!(stake.lamports, 9);
}

#[test]
fn new_accounts_get_distinct_keys() {
    let a = Account::new(AccountType::Wallet { balance: 0 });
    let b = Account::new(AccountType::Wallet { balance: 0 });
    assert_ne!(a.pubkey, b.pubkey);
    assert!(a.pubkey.len() >= 12);
}

#[test]
fn summary_of_fixed_identity() {
    let account = Account::with_identity(
        "ABCDEFGHIJKLMNOP".to_string(),
        AccountType::Wallet { balance: 1_500_000_000 },
        7,
    );
    assert_eq!(account.summary(), "ABCDEFGH..PONM|Wallet|1.5 SOL");
    let tiny = Account::with_identity(
        "ABCDEFGHIJKL".to_string(),
        AccountType::Program {
            executable: false,
            program_data: vec![],
        },
        0,
    );
    assert_eq!(tiny.summary(), "ABCDEFGH..LKJI|Program|0.000000001 SOL");
}

#[test]
fn summary_keeps_short_identifier_whole() {
    let account = Account::with_identity(
        "short".to_string(),
        AccountType::TokenAccount {
            mint: String::new(),
            token_balance: 20_000_000_000,
            delegate: None,
        },
        0,
    );
    assert_eq!(account.summary(), "short|Token Account|20 SOL");
}

#[test]
fn summary_matches_float_rendering() {
    for lamports in [0u64, 1, 10, 123_456_789, 1_000_000_000, 2_500_000_000, 5_000_000_001] {
        let account = Account::with_identity(
            "0123456789abcdef".to_string(),
            AccountType::Stake {
                validator: String::new(),
                staked_amount: lamports,
            },
            0,
        );
        let sol = (lamports as f64) / 1_000_000_000.0;
        assert_eq!(account.summary(), format!("01234567..fedc|Stake|{sol} SOL"));
    }
}

#[test]
fn with_identity_keeps_given_fields() {
    let account = Account::with_identity(
        "key".to_string(),
        AccountType::Wallet { balance: 5 },
        1234,
    );
    assert_eq!(account.pubkey, "key");
    assert_eq!(account.created_at, 1234);
    assert_eq!(account.owner, "system");
    assert_eq!(account.lamports, 5);
}

#[test]
fn owner_and_balance_of_kinds() {
    assert_eq!(AccountType::Wallet { balance: 3 }.owner(), "system");
    assert_eq!(AccountType::Wallet { balance: 3 }.balance(), 3);
    let program = AccountType::Program {
        executable: true,
        program_data: vec![9],
    };
    assert_eq!(program.owner(), "");
    assert_eq!(program.balance(), 1);
}

#[test]
fn round_trip_token_with_delegate() {
    let account = Account::with_identity(
        "tok-key-0123456".to_string(),
        AccountType::TokenAccount {
            mint: "mint-é".to_string(),
            token_balance: u64::MAX,
            delegate: Some("delegate".to_string()),
        },
        99,
    );
    let bytes = account.save_to_bytes().unwrap();
    let back = Account::from_bytes(&bytes).unwrap();
    assert_eq!(back.pubkey, account.pubkey);
    assert_eq!(back.created_at, 99);
    match back.account_type {
        AccountType::TokenAccount {
            mint,
            token_balance,
            delegate,
        } => {
            assert_eq!(mint, "mint-é");
            assert_eq!(token_balance, u64::MAX);
            assert_eq!(delegate, Some("delegate".to_string()));
        }
        _ => panic!("not a token account"),
    }
}

#[test]
fn wallet_bytes_have_the_documented_layout() {
    let account = Account::with_identity("ab".to_string(), AccountType::Wallet { balance: 258 }, 1);
    let bytes = account.save_to_bytes().unwrap();
    let mut expected: Vec<u8> = vec![2, 0, 0, 0, b'a', b'b', 6, 0, 0, 0];
    expected.extend_from_slice(b"system");
    expected.extend_from_slice(&258u64.to_le_bytes());
    expected.push(0);
    expected.extend_from_slice(&258u64.to_le_bytes());
    expected.extend_from_slice(&1u64.to_le_bytes());
    assert_eq!(bytes, expected);
}

#[test]
fn from_bytes_rejects_trailing_and_truncated_bytes() {
    let account = Account::with_identity("k".to_string(), AccountType::Wallet { balance: 1 }, 1);
    let mut bytes = account.save_to_bytes().unwrap();
    let truncated = bytes[..bytes.len() - 1].to_vec();
    assert!(matches!(
        Account::from_bytes(&truncated),
        Err(LedgerError::SerializationError(_))
    ));
    bytes.push(0);
    assert!(matches!(
        Account::from_bytes(&bytes),
        Err(LedgerError::SerializationError(_))
    ));
    assert!(matches!(
        Account::from_bytes(&[]),
        Err(LedgerError::SerializationError(_))
    ));
}

#[test]
fn from_bytes_rejects_unknown_kind_tag_and_bad_flag() {
    let account = Account::with_identity(
        "k".to_string(),
        AccountType::Program {
            executable: true,
            program_data: vec![],
        },
        1,
    );
    let bytes = account.save_to_bytes().unwrap();
    // pubkey field (4 + 1), owner field (4 + 0), lamports (8): the tag follows
    let tag_at = 5 + 4 + 8;
    assert_eq!(bytes[tag_at], 1);
    let mut bad_tag = bytes.clone();
    bad_tag[tag_at] = 7;
    assert!(Account::from_bytes(&bad_tag).is_err());
    let mut bad_flag = bytes.clone();
    bad_flag[tag_at + 1] = 2;
    assert!(Account::from_bytes(&bad_flag).is_err());
}
