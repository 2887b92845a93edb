//! Accounts: the kind of value an account holds, and the account itself.

use vstd::prelude::*;
use crate::text::{units_of, units_text};

verus! {

/// The economic nature of an account, with its payload.
#[derive(Debug, Clone)]
pub enum AccountType {
    Wallet { balance: u64 },
    Program { executable: bool, program_data: Vec<u8> },
    TokenAccount { mint: String, token_balance: u64, delegate: Option<String> },
    Stake { validator: String, staked_amount: u64 },
}

/// What an [`AccountType`] holds, as plain values.
pub enum KindView {
    Wallet { balance: u64 },
    Program { executable: bool, program_data: Seq<u8> },
    TokenAccount { mint: Seq<char>, token_balance: u64, delegate: Option<Seq<char>> },
    Stake { validator: Seq<char>, staked_amount: u64 },
}

impl View for AccountType {
    type V = KindView;

    open spec fn view(&self) -> KindView {
        match self {
            AccountType::Wallet { balance } => KindView::Wallet { balance: *balance },
            AccountType::Program { executable, program_data } => KindView::Program {
                executable: *executable,
                program_data: program_data@,
            },
            AccountType::TokenAccount { mint, token_balance, delegate } => KindView::TokenAccount {
                mint: mint@,
                token_balance: *token_balance,
                delegate: match delegate {
                    Some(d) => Some(d@),
                    None => None,
                },
            },
            AccountType::Stake { validator, staked_amount } => KindView::Stake {
                validator: validator@,
                staked_amount: *staked_amount,
            },
        }
    }
}

impl KindView {
    /// The variant's tag, ignoring the payload: 0 wallet, 1 program,
    /// 2 token account, 3 stake.
    pub open spec fn tag(self) -> u8 {
        match self {
            KindView::Wallet { .. } => 0,
            KindView::Program { .. } => 1,
            KindView::TokenAccount { .. } => 2,
            KindView::Stake { .. } => 3,
        }
    }

    /// The owner label of an account of this kind.
    pub open spec fn owner(self) -> Seq<char> {
        match self {
            KindView::Wallet { .. } => "system"@,
            _ => Seq::empty(),
        }
    }

    /// The natural unit amount of the kind; a program holds the placeholder 1.
    pub open spec fn balance(self) -> u64 {
        match self {
            KindView::Wallet { balance } => balance,
            KindView::Program { .. } => 1,
            KindView::TokenAccount { token_balance, .. } => token_balance,
            KindView::Stake { staked_amount, .. } => staked_amount,
        }
    }

    /// The display label of the kind.
    pub open spec fn label(self) -> Seq<char> {
        match self {
            KindView::Wallet { .. } => "Wallet"@,
            KindView::Program { .. } => "Program"@,
            KindView::TokenAccount { .. } => "Token Account"@,
            KindView::Stake { .. } => "Stake"@,
        }
    }
}

impl AccountType {
    /// The owner label: "system" for a wallet, empty otherwise.
    pub fn owner(&self) -> (r: String)
        ensures
            r@ == self@.owner(),
    {
        match self {
            AccountType::Wallet { .. } => String::from_str("system"),
            _ => String::new(),
        }
    }

    /// The intrinsic unit balance of the kind.
    pub fn balance(&self) -> (r: u64)
        ensures
            r == self@.balance(),
    {
        match self {
            AccountType::Wallet { balance } => *balance,
            AccountType::TokenAccount { token_balance, .. } => *token_balance,
            AccountType::Stake { staked_amount, .. } => *staked_amount,
            _ => 1,
        }
    }

    /// The display label of the kind.
    pub fn to_string(&self) -> (r: String)
        ensures
            r@ == self@.label(),
    {
        match self {
            AccountType::Wallet { .. } => String::from_str("Wallet"),
            AccountType::Program { .. } => String::from_str("Program"),
            AccountType::TokenAccount { .. } => String::from_str("Token Account"),
            AccountType::Stake { .. } => String::from_str("Stake"),
        }
    }

    /// The variant's tag, as [`KindView::tag`] numbers it.
    pub fn tag(&self) -> (r: u8)
        ensures
            r == self@.tag(),
    {
        match self {
            AccountType::Wallet { .. } => 0,
            AccountType::Program { .. } => 1,
            AccountType::TokenAccount { .. } => 2,
            AccountType::Stake { .. } => 3,
        }
    }
}

/// An identified account wrapping one [`AccountType`].
#[derive(Debug, Clone)]
pub struct Account {
    pub pubkey: String,
    pub owner: String,
    pub lamports: u64,
    pub account_type: AccountType,
    pub created_at: u64,
}

/// What an [`Account`] holds, as plain values.
pub struct AccountView {
    pub pubkey: Seq<char>,
    pub owner: Seq<char>,
    pub lamports: u64,
    pub kind: KindView,
    pub created_at: u64,
}

impl View for Account {
    type V = AccountView;

    open spec fn view(&self) -> AccountView {
        AccountView {
            pubkey: self.pubkey@,
            owner: self.owner@,
            lamports: self.lamports,
            kind: self.account_type@,
            created_at: self.created_at,
        }
    }
}

/// The account that [`Account::with_identity`] builds.
pub open spec fn fresh_account(pubkey: Seq<char>, kind: KindView, created_at: u64) -> AccountView {
    AccountView { pubkey, owner: kind.owner(), lamports: kind.balance(), kind, created_at }
}

/// The identifier with its middle left out: the first eight characters, "..",
/// and the first four characters of the reversed identifier (its last four,
/// last first); an identifier of fewer than twelve characters whole.
pub open spec fn short_key(key: Seq<char>) -> Seq<char> {
    if key.len() >= 12 {
        key.subrange(0, 8) + ".."@ + seq![
            key[key.len() - 1],
            key[key.len() - 2],
            key[key.len() - 3],
            key[key.len() - 4],
        ]
    } else {
        key
    }
}

/// The summary line of an account: short identifier, kind label and the
/// balance in whole units, separated by bars.
pub open spec fn summary_of(a: AccountView) -> Seq<char> {
    short_key(a.pubkey) + "|"@ + a.kind.label() + "|"@ + units_of(a.lamports) + " SOL"@
}

/// Relies on solana_sdk's `Pubkey::new_unique` and `Pubkey`'s `Display`
/// (base58): a fresh identifier text. Nothing is promised of the text itself.
#[verifier::external_body]
fn fresh_pubkey() -> String {
    solana_sdk::pubkey::Pubkey::new_unique().to_string()
}

/// Relies on std's `SystemTime::elapsed` on `UNIX_EPOCH`: the whole seconds
/// since the epoch, or `None` when the clock reads an earlier time.
#[verifier::external_body]
fn seconds_since_epoch() -> Option<u64> {
    match std::time::UNIX_EPOCH.elapsed() {
        Ok(d) => Some(d.as_secs()),
        Err(_) => None,
    }
}

impl Account {
    /// A new account of the given kind, with a fresh identifier and the current
    /// time; a clock that reads before the epoch stamps 0.
    pub fn new(account_type: AccountType) -> (r: Account)
        ensures
            r@.owner == account_type@.owner(),
            r@.lamports == account_type@.balance(),
            r@.kind == account_type@,
    {
        let pubkey = fresh_pubkey();
        let created_at = match seconds_since_epoch() {
            Some(secs) => secs,
            None => 0,
        };
        Account::with_identity(pubkey, account_type, created_at)
    }

    /// An account of the given kind under the given identifier and creation
    /// time; owner and lamports are derived from the kind.
    pub fn with_identity(pubkey: String, account_type: AccountType, created_at: u64) -> (r: Account)
        ensures
            r@ == fresh_account(pubkey@, account_type@, created_at),
    {
        let owner = account_type.owner();
        let lamports = account_type.balance();
        Account { pubkey, owner, lamports, account_type, created_at }
    }

    /// Whether this account's kind has the same variant as `account_type`,
    /// whatever the payloads.
    pub fn is_account_type(&self, account_type: AccountType) -> (r: bool)
        ensures
            r == (self@.kind.tag() == account_type@.tag()),
    {
        self.account_type.tag() == account_type.tag()
    }
}

/// Things that render as a one-line summary.
pub trait Summarizable {
    spec fn summary_spec(&self) -> Seq<char>;

    fn summary(&self) -> (r: String)
        ensures
            r@ == self.summary_spec(),
    ;
}

impl Summarizable for Account {
    open spec fn summary_spec(&self) -> Seq<char> {
        summary_of(self@)
    }

    fn summary(&self) -> (r: String) {
        let key = self.pubkey.as_str();
        let n = key.unicode_len();
        let mut s = if n >= 12 {
            let mut k = String::from_str(key.substring_char(0, 8));
            k.append("..");
            k.append(key.substring_char(n - 1, n));
            k.append(key.substring_char(n - 2, n - 1));
            k.append(key.substring_char(n - 3, n - 2));
            k.append(key.substring_char(n - 4, n - 3));
            k
        } else {
            self.pubkey.clone()
        };
        s.append("|");
        s.append(self.account_type.to_string().as_str());
        s.append("|");
        s.append(units_text(self.lamports).as_str());
        s.append(" SOL");
        s
    }
}

} // verus!
