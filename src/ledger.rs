//! The ledger: an ordered collection of accounts with unique identifiers.

use vstd::prelude::*;
use crate::account::{Account, AccountType, AccountView, KindView};
use crate::errors::LedgerError;

verus! {

/// Whether some account in `s` has the identifier `key`.
pub open spec fn has_key(s: Seq<AccountView>, key: Seq<char>) -> bool {
    exists|i: int| 0 <= i < s.len() && s[i].pubkey == key
}

/// Whether no two accounts of `s` share an identifier.
pub open spec fn unique_keys(s: Seq<AccountView>) -> bool {
    forall|i: int, j: int| 0 <= i < s.len() && 0 <= j < s.len() && i != j ==> s[i].pubkey != s[j].pubkey
}

/// Whether `i` is the first position of `s` that holds the identifier `key`.
pub open spec fn is_first(s: Seq<AccountView>, key: Seq<char>, i: int) -> bool {
    0 <= i < s.len() && s[i].pubkey == key && forall|j: int| 0 <= j < i ==> s[j].pubkey != key
}

/// The first position of `s` that holds `key`, or -1 where none does.
pub open spec fn position(s: Seq<AccountView>, key: Seq<char>) -> int {
    if exists|i: int| is_first(s, key, i) {
        choose|i: int| is_first(s, key, i)
    } else {
        -1
    }
}

/// The sum of the lamports of all accounts in `s`.
pub open spec fn supply(s: Seq<AccountView>) -> int
    decreases s.len(),
{
    if s.len() == 0 {
        0
    } else {
        supply(s.drop_last()) + s.last().lamports
    }
}

/// Whether the category name `name` selects accounts of kind `k`.
pub open spec fn selects(name: Seq<char>, k: KindView) -> bool {
    if name == "wallet"@ {
        k is Wallet
    } else if name == "program"@ {
        k is Program
    } else if name == "token_account"@ {
        k is TokenAccount
    } else if name == "stake"@ {
        k is Stake
    } else {
        name == "all"@
    }
}

/// The accounts of `s` that the category name `name` selects, in order.
pub open spec fn select(s: Seq<AccountView>, name: Seq<char>) -> Seq<AccountView> {
    s.filter(|a: AccountView| selects(name, a.kind))
}

/// `a` with its lamports set to `v`; a wallet's balance is set to `v` with them.
pub open spec fn with_lamports(a: AccountView, v: u64) -> AccountView {
    AccountView {
        pubkey: a.pubkey,
        owner: a.owner,
        lamports: v,
        kind: match a.kind {
            KindView::Wallet { .. } => KindView::Wallet { balance: v },
            k => k,
        },
        created_at: a.created_at,
    }
}

/// `s` after `amount` left the account at `i`.
pub open spec fn debited(s: Seq<AccountView>, i: int, amount: u64) -> Seq<AccountView> {
    s.update(i, with_lamports(s[i], (s[i].lamports - amount) as u64))
}

/// `s` after `amount` moved from the account at `i` to the account at `j`.
pub open spec fn moved(s: Seq<AccountView>, i: int, j: int, amount: u64) -> Seq<AccountView> {
    let d = debited(s, i, amount);
    d.update(j, with_lamports(d[j], (d[j].lamports + amount) as u64))
}

/// The reasons for which a transfer is refused, in the order they are checked.
pub enum Refusal {
    /// The source identifier is not stored.
    MissingSource,
    /// The destination identifier is not stored.
    MissingDestination,
    /// The source is not a wallet.
    SourceNotWallet,
    /// The destination is not a wallet.
    DestinationNotWallet,
    /// The source holds less than the amount.
    Insufficient,
    /// The destination's balance would pass `u64::MAX`.
    Overflow,
}

/// Why moving `amount` from `from` to `to` in `s` is refused, or `None` where it is allowed.
pub open spec fn refusal(s: Seq<AccountView>, from: Seq<char>, to: Seq<char>, amount: u64) -> Option<Refusal> {
    let i = position(s, from);
    let j = position(s, to);
    if !has_key(s, from) {
        Some(Refusal::MissingSource)
    } else if !has_key(s, to) {
        Some(Refusal::MissingDestination)
    } else if !(s[i].kind is Wallet) {
        Some(Refusal::SourceNotWallet)
    } else if !(s[j].kind is Wallet) {
        Some(Refusal::DestinationNotWallet)
    } else if s[i].lamports < amount {
        Some(Refusal::Insufficient)
    } else if debited(s, i, amount)[j].lamports + amount > u64::MAX {
        Some(Refusal::Overflow)
    } else {
        None
    }
}

/// The text of the refusal of an endpoint that is not a wallet.
pub open spec fn not_wallet_text(key: Seq<char>) -> Seq<char> {
    "key: "@ + key + " is not a Wallet"@
}

/// The text of the refusal of a destination whose balance would overflow.
pub open spec fn overflow_text(key: Seq<char>) -> Seq<char> {
    "key: "@ + key + " balance would overflow"@
}

/// Whether `e` is the error that reports refusal `f` of moving `amount` from
/// `from` to `to` in `s`.
pub open spec fn reports(
    e: LedgerError,
    f: Refusal,
    s: Seq<AccountView>,
    from: Seq<char>,
    to: Seq<char>,
    amount: u64,
) -> bool {
    match f {
        Refusal::MissingSource => e matches LedgerError::AccountNotFound(k) && k@ == from,
        Refusal::MissingDestination => e matches LedgerError::AccountNotFound(k) && k@ == to,
        Refusal::SourceNotWallet => e matches LedgerError::InvalidTransfer(m) && m@
            == not_wallet_text(from),
        Refusal::DestinationNotWallet => e matches LedgerError::InvalidTransfer(m) && m@
            == not_wallet_text(to),
        Refusal::Insufficient => e matches LedgerError::InsufficientFunds { require, available }
            && require == amount && available == s[position(s, from)].lamports,
        Refusal::Overflow => e matches LedgerError::InvalidTransfer(m) && m@ == overflow_text(to),
    }
}

/// The collection of accounts.
#[derive(Debug)]
pub struct Ledger {
    pub accounts: Vec<Account>,
}

impl View for Ledger {
    type V = Seq<AccountView>;

    open spec fn view(&self) -> Seq<AccountView> {
        self.accounts@.map_values(|a: Account| a@)
    }
}

proof fn lemma_position(s: Seq<AccountView>, key: Seq<char>, i: int)
    requires
        is_first(s, key, i),
    ensures
        position(s, key) == i,
{
    let j = choose|j: int| is_first(s, key, j);
    assert(is_first(s, key, j));
    assert(j == i);
}

proof fn lemma_no_position(s: Seq<AccountView>, key: Seq<char>)
    requires
        !has_key(s, key),
    ensures
        position(s, key) == -1,
{
    if exists|i: int| is_first(s, key, i) {
        let i = choose|i: int| is_first(s, key, i);
        assert(s[i].pubkey == key);
    }
}

proof fn lemma_supply_update(s: Seq<AccountView>, i: int, a: AccountView)
    requires
        0 <= i < s.len(),
    ensures
        supply(s.update(i, a)) == supply(s) - s[i].lamports + a.lamports,
    decreases s.len(),
{
    if i == s.len() - 1 {
        assert(s.update(i, a).drop_last() =~= s.drop_last());
    } else {
        assert(s.update(i, a).drop_last() =~= s.drop_last().update(i, a));
        lemma_supply_update(s.drop_last(), i, a);
    }
}

proof fn lemma_supply_prefix(s: Seq<AccountView>, i: int)
    requires
        0 <= i <= s.len(),
    ensures
        supply(s.subrange(0, i)) <= supply(s),
    decreases s.len(),
{
    if i < s.len() {
        assert(s.drop_last().subrange(0, i) =~= s.subrange(0, i));
        lemma_supply_prefix(s.drop_last(), i);
    } else {
        assert(s.subrange(0, i) =~= s);
    }
}

/// Asking for the category "all" gives every account, in insertion order.
pub proof fn lemma_select_all(s: Seq<AccountView>)
    ensures
        select(s, "all"@) == s,
    decreases s.len(),
{
    reveal(Seq::filter);
    reveal_strlit("all");
    reveal_strlit("wallet");
    reveal_strlit("program");
    reveal_strlit("token_account");
    reveal_strlit("stake");
    assert("all"@.len() == 3);
    if s.len() > 0 {
        lemma_select_all(s.drop_last());
        assert(selects("all"@, s.last().kind));
        assert(s.drop_last().push(s.last()) =~= s);
    }
}

/// A name that is none of the category names selects no account.
pub proof fn lemma_select_unknown(s: Seq<AccountView>, name: Seq<char>)
    requires
        name != "wallet"@,
        name != "program"@,
        name != "token_account"@,
        name != "stake"@,
        name != "all"@,
    ensures
        select(s, name) == Seq::<AccountView>::empty(),
    decreases s.len(),
{
    reveal(Seq::filter);
    if s.len() > 0 {
        lemma_select_unknown(s.drop_last(), name);
    }
}

/// A transfer between two stored accounts of which one is not a wallet is
/// refused as an invalid transfer.
pub proof fn lemma_non_wallet_refused(s: Seq<AccountView>, from: Seq<char>, to: Seq<char>, amount: u64)
    requires
        has_key(s, from),
        has_key(s, to),
        !(s[position(s, from)].kind is Wallet) || !(s[position(s, to)].kind is Wallet),
    ensures
        refusal(s, from, to, amount) == Some(Refusal::SourceNotWallet) || refusal(s, from, to, amount)
            == Some(Refusal::DestinationNotWallet),
{
}

/// A transfer between two wallets of more than the source holds is refused
/// for insufficient funds, so no balance goes below zero.
pub proof fn lemma_overdraft_refused(s: Seq<AccountView>, from: Seq<char>, to: Seq<char>, amount: u64)
    requires
        has_key(s, from),
        has_key(s, to),
        s[position(s, from)].kind is Wallet,
        s[position(s, to)].kind is Wallet,
        s[position(s, from)].lamports < amount,
    ensures
        refusal(s, from, to, amount) == Some(Refusal::Insufficient),
{
}

impl Ledger {
    /// An empty ledger.
    pub fn new() -> (r: Ledger)
        ensures
            r@ == Seq::<AccountView>::empty(),
    {
        let r = Ledger { accounts: Vec::new() };
        assert(r@ =~= Seq::<AccountView>::empty());
        r
    }

    /// The first position holding `key`, or `None` where no account has it.
    fn find(&self, key: &str) -> (r: Option<usize>)
        ensures
            match r {
                Some(i) => is_first(self@, key@, i as int) && position(self@, key@) == i,
                None => !has_key(self@, key@) && position(self@, key@) == -1,
            },
    {
        let k = String::from_str(key);
        let mut i: usize = 0;
        while i < self.accounts.len()
            invariant
                i <= self.accounts@.len(),
                k@ == key@,
                forall|j: int| 0 <= j < i ==> self@[j].pubkey != key@,
            decreases self.accounts@.len() - i,
        {
            if self.accounts[i].pubkey == k {
                proof {
                    lemma_position(self@, key@, i as int);
                }
                return Some(i);
            }
            i += 1;
        }
        proof {
            lemma_no_position(self@, key@);
        }
        None
    }

    /// Whether an account with identifier `pubkey` is stored.
    fn account_exist(&self, pubkey: &String) -> (r: bool)
        ensures
            r == has_key(self@, pubkey@),
    {
        self.find(pubkey.as_str()).is_some()
    }

    /// Stores `acc`, unless an account with its identifier is already stored.
    /// Returns the stored account. Identifiers that were unique stay unique.
    pub fn add_account(&mut self, acc: Account) -> (r: Result<&Account, LedgerError>)
        ensures
            match r {
                Ok(a) => !has_key(old(self)@, acc@.pubkey) && final(self)@ == old(self)@.push(acc@)
                    && a@ == acc@,
                Err(e) => has_key(old(self)@, acc@.pubkey) && final(self)@ == old(self)@
                    && (e matches LedgerError::DuplicateAccount(k) && k@ == acc@.pubkey),
            },
            unique_keys(old(self)@) ==> unique_keys(final(self)@),
    {
        if self.account_exist(&acc.pubkey) {
            return Err(LedgerError::DuplicateAccount(acc.pubkey.clone()));
        }
        self.accounts.push(acc);
        assert(self@ =~= old(self)@.push(acc@));
        let last = self.accounts.len() - 1;
        Ok(&self.accounts[last])
    }

    /// The stored accounts whose kind the category `category` names ("wallet",
    /// "program", "token_account", "stake"), or all of them for "all", in
    /// insertion order; none for any other name.
    pub fn accounts_by_type(&self, category: &str) -> (r: Vec<&Account>)
        ensures
            r@.map_values(|a: &Account| a@) == select(self@, category@),
    {
        let name = String::from_str(category);
        let wanted: Option<u8> = if name == String::from_str("wallet") {
            Some(0)
        } else if name == String::from_str("program") {
            Some(1)
        } else if name == String::from_str("token_account") {
            Some(2)
        } else if name == String::from_str("stake") {
            Some(3)
        } else {
            None
        };
        let all = wanted.is_none() && name == String::from_str("all");
        let ghost pred = |a: AccountView| selects(category@, a.kind);
        let mut r: Vec<&Account> = Vec::new();
        proof {
            reveal(Seq::filter);
            assert(r@.map_values(|a: &Account| a@) =~= self@.subrange(0, 0).filter(pred));
        }
        let mut i: usize = 0;
        while i < self.accounts.len()
            invariant
                i <= self.accounts@.len(),
                pred == (|a: AccountView| selects(category@, a.kind)),
                forall|k: KindView| #![trigger selects(category@, k)]
                    selects(category@, k) == match wanted {
                        Some(t) => k.tag() == t,
                        None => all,
                    },
                r@.map_values(|a: &Account| a@) == self@.subrange(0, i as int).filter(pred),
            decreases self.accounts@.len() - i,
        {
            let a = &self.accounts[i];
            let keep = match wanted {
                Some(t) => a.account_type.tag() == t,
                None => all,
            };
            let ghost before = r@.map_values(|a: &Account| a@);
            let ghost sub = self@.subrange(0, i + 1);
            let ghost prev = self@.subrange(0, i as int);
            proof {
                assert(sub.drop_last() =~= prev);
                assert(sub.last() == a@);
                assert(keep == pred(a@));
                reveal(Seq::filter);
                assert(sub.filter(pred) == if pred(sub.last()) {
                    prev.filter(pred).push(sub.last())
                } else {
                    prev.filter(pred)
                });
            }
            if keep {
                r.push(a);
                assert(r@.map_values(|a: &Account| a@) =~= before.push(a@));
            }
            i += 1;
        }
        assert(self@.subrange(0, self@.len() as int) =~= self@);
        r
    }

    /// The sum of the lamports of all stored accounts; 0 when there are none.
    pub fn total_supply(&self) -> (r: u64)
        requires
            supply(self@) <= u64::MAX,
        ensures
            r == supply(self@),
    {
        let mut total: u64 = 0;
        let mut i: usize = 0;
        while i < self.accounts.len()
            invariant
                i <= self.accounts@.len(),
                supply(self@) <= u64::MAX,
                total == supply(self@.subrange(0, i as int)),
            decreases self.accounts@.len() - i,
        {
            proof {
                let sub = self@.subrange(0, i + 1);
                assert(sub.drop_last() =~= self@.subrange(0, i as int));
                lemma_supply_prefix(self@, i + 1);
            }
            total = total + self.accounts[i].lamports;
            i += 1;
        }
        assert(self@.subrange(0, self@.len() as int) =~= self@);
        total
    }

    /// Sets the lamports of the wallet at `i`, and its balance with them.
    fn set_wallet_lamports(&mut self, i: usize, v: u64)
        requires
            i < old(self)@.len(),
            old(self)@[i as int].kind is Wallet,
        ensures
            final(self)@ == old(self)@.update(i as int, with_lamports(old(self)@[i as int], v)),
    {
        let acc = &mut self.accounts[i];
        acc.lamports = v;
        acc.account_type = AccountType::Wallet { balance: v };
        assert(self@ =~= old(self)@.update(i as int, with_lamports(old(self)@[i as int], v)));
    }

    /// Moves `amount` from the wallet `from` to the wallet `to`. Refused, with
    /// nothing changed, when either identifier is not stored (the source is
    /// checked first), when either account is not a wallet, when the source
    /// holds less than `amount`, or when the destination's balance would pass
    /// `u64::MAX`. Each wallet's balance moves with its lamports, and the total
    /// supply stays the same.
    pub fn transfer(&mut self, from: &str, to: &str, amount: u64) -> (r: Result<(), LedgerError>)
        ensures
            match refusal(old(self)@, from@, to@, amount) {
                None => r is Ok && final(self)@ == moved(
                    old(self)@,
                    position(old(self)@, from@),
                    position(old(self)@, to@),
                    amount,
                ),
                Some(f) => final(self)@ == old(self)@ && (r matches Err(e) && reports(
                    e,
                    f,
                    old(self)@,
                    from@,
                    to@,
                    amount,
                )),
            },
            r is Ok ==> supply(final(self)@) == supply(old(self)@),
    {
        let fi = match self.find(from) {
            Some(i) => i,
            None => return Err(LedgerError::AccountNotFound(String::from_str(from))),
        };
        let ti = match self.find(to) {
            Some(i) => i,
            None => return Err(LedgerError::AccountNotFound(String::from_str(to))),
        };
        if self.accounts[fi].account_type.tag() != 0 {
            let m = String::from_str("key: ").concat(from).concat(" is not a Wallet");
            return Err(LedgerError::InvalidTransfer(m));
        }
        if self.accounts[ti].account_type.tag() != 0 {
            let m = String::from_str("key: ").concat(to).concat(" is not a Wallet");
            return Err(LedgerError::InvalidTransfer(m));
        }
        let available = self.accounts[fi].lamports;
        if available < amount {
            return Err(LedgerError::InsufficientFunds { require: amount, available });
        }
        let target = if ti == fi {
            available - amount
        } else {
            self.accounts[ti].lamports
        };
        if target > u64::MAX - amount {
            let m = String::from_str("key: ").concat(to).concat(" balance would overflow");
            return Err(LedgerError::InvalidTransfer(m));
        }
        let ghost s = self@;
        self.set_wallet_lamports(fi, available - amount);
        proof {
            lemma_supply_update(s, fi as int, with_lamports(s[fi as int], (available - amount) as u64));
        }
        let ghost d = self@;
        self.set_wallet_lamports(ti, target + amount);
        proof {
            lemma_supply_update(d, ti as int, with_lamports(d[ti as int], (target + amount) as u64));
        }
        Ok(())
    }
}

} // verus!
