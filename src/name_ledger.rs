//! A ledger of plain balances kept under account names; names are stored in
//! lower case when an account is opened.

use vstd::prelude::*;

verus! {

/// The lower-case form of a text, as `str::to_lowercase` gives it.
pub uninterp spec fn lower_of(s: Seq<char>) -> Seq<char>;

/// Relies on `str::to_lowercase`: the result depends on the characters alone.
#[verifier::external_body]
fn lowercase(s: &str) -> (r: String)
    ensures
        r@ == lower_of(s@),
{
    s.to_lowercase()
}

/// The failures of the name ledger.
#[derive(Debug)]
pub enum LedgerErrors {
    /// An account under this name exists already.
    AccountAlreadyExist(String),
    /// No account under this name exists.
    AccountNotFound(String),
    /// The source account holds less than the amount.
    AccountInsuficientFunds,
}

/// The human-readable text of an error.
pub open spec fn errors_text(e: LedgerErrors) -> Seq<char> {
    match e {
        LedgerErrors::AccountAlreadyExist(m) => "The account: "@ + m@ + " already exists"@,
        LedgerErrors::AccountNotFound(m) => "account: "@ + m@ + " not found"@,
        LedgerErrors::AccountInsuficientFunds => "account does not have enough funds"@,
    }
}

impl LedgerErrors {
    /// Renders the error as text.
    pub fn to_string(&self) -> (r: String)
        ensures
            r@ == errors_text(*self),
    {
        match self {
            LedgerErrors::AccountAlreadyExist(m) => {
                String::from_str("The account: ").concat(m.as_str()).concat(" already exists")
            },
            LedgerErrors::AccountNotFound(m) => {
                String::from_str("account: ").concat(m.as_str()).concat(" not found")
            },
            LedgerErrors::AccountInsuficientFunds => String::from_str(
                "account does not have enough funds",
            ),
        }
    }
}

/// One account: a name and its balance.
#[derive(Debug)]
struct Entry {
    name: String,
    balance: u32,
}

/// The balances of the entries of `s`, by name; a later entry wins.
pub open spec fn balances(s: Seq<(Seq<char>, u32)>) -> Map<Seq<char>, u32>
    decreases s.len(),
{
    if s.len() == 0 {
        Map::empty()
    } else {
        balances(s.drop_last()).insert(s.last().0, s.last().1)
    }
}

/// Whether no two entries of `s` share a name.
pub open spec fn distinct_names(s: Seq<(Seq<char>, u32)>) -> bool {
    forall|i: int, j: int| 0 <= i < s.len() && 0 <= j < s.len() && i != j ==> s[i].0 != s[j].0
}

proof fn lemma_balances(s: Seq<(Seq<char>, u32)>)
    requires
        distinct_names(s),
    ensures
        forall|k: Seq<char>| #[trigger]
            balances(s).contains_key(k) <==> exists|i: int| 0 <= i < s.len() && s[i].0 == k,
        forall|i: int| 0 <= i < s.len() ==> #[trigger] balances(s)[s[i].0] == s[i].1,
    decreases s.len(),
{
    if s.len() > 0 {
        let init = s.drop_last();
        let last = s.last();
        assert forall|i: int, j: int|
            0 <= i < init.len() && 0 <= j < init.len() && i != j implies init[i].0 != init[j].0 by {
            assert(init[i] == s[i] && init[j] == s[j]);
        }
        lemma_balances(init);
        assert(balances(s) == balances(init).insert(last.0, last.1));
        assert forall|k: Seq<char>| #[trigger]
            balances(s).contains_key(k) <==> exists|i: int| 0 <= i < s.len() && s[i].0 == k by {
            if k == last.0 {
                assert(s[s.len() - 1].0 == k);
            } else {
                if balances(s).contains_key(k) {
                    assert(balances(init).contains_key(k));
                    let i = choose|i: int| 0 <= i < init.len() && init[i].0 == k;
                    assert(s[i].0 == k);
                }
                if exists|i: int| 0 <= i < s.len() && s[i].0 == k {
                    let i = choose|i: int| 0 <= i < s.len() && s[i].0 == k;
                    assert(i < init.len());
                    assert(init[i].0 == k);
                    assert(balances(init).contains_key(k));
                }
            }
        }
        assert forall|i: int| 0 <= i < s.len() implies #[trigger] balances(s)[s[i].0] == s[i].1 by {
            if i < s.len() - 1 {
                assert(init[i] == s[i]);
                assert(s[i].0 != last.0);
                assert(balances(init)[init[i].0] == init[i].1);
            }
        }
    }
}

proof fn lemma_balances_update(s: Seq<(Seq<char>, u32)>, i: int, v: u32)
    requires
        distinct_names(s),
        0 <= i < s.len(),
    ensures
        distinct_names(s.update(i, (s[i].0, v))),
        balances(s.update(i, (s[i].0, v))) == balances(s).insert(s[i].0, v),
{
    let t = s.update(i, (s[i].0, v));
    lemma_balances(s);
    lemma_balances(t);
    assert forall|k: Seq<char>| #[trigger] balances(t).contains_key(k) == balances(s).insert(
        s[i].0,
        v,
    ).contains_key(k) by {
        if exists|j: int| 0 <= j < s.len() && s[j].0 == k {
            let j = choose|j: int| 0 <= j < s.len() && s[j].0 == k;
            assert(t[j].0 == k);
        }
        if exists|j: int| 0 <= j < t.len() && t[j].0 == k {
            let j = choose|j: int| 0 <= j < t.len() && t[j].0 == k;
            assert(s[j].0 == k);
        }
    }
    assert forall|k: Seq<char>| #[trigger] balances(t).contains_key(k) implies balances(t)[k]
        == balances(s).insert(s[i].0, v)[k] by {
        let j = choose|j: int| 0 <= j < t.len() && t[j].0 == k;
        assert(balances(t)[t[j].0] == t[j].1);
        if j != i {
            assert(balances(s)[s[j].0] == s[j].1);
        }
    }
    assert(balances(t) =~= balances(s).insert(s[i].0, v));
}

/// The name ledger.
#[derive(Debug)]
pub struct Ledger {
    accounts: Vec<Entry>,
}

impl View for Ledger {
    type V = Seq<(Seq<char>, u32)>;

    closed spec fn view(&self) -> Seq<(Seq<char>, u32)> {
        self.accounts@.map_values(|e: Entry| (e.name@, e.balance))
    }
}

impl Ledger {
    /// Whether no two accounts share a name.
    pub open spec fn wf(&self) -> bool {
        distinct_names(self@)
    }

    /// The balances by name.
    pub open spec fn book(&self) -> Map<Seq<char>, u32> {
        balances(self@)
    }

    /// An empty ledger.
    pub fn new() -> (r: Ledger)
        ensures
            r.wf(),
            r.book() == Map::<Seq<char>, u32>::empty(),
    {
        let r = Ledger { accounts: Vec::new() };
        assert(r@ =~= Seq::<(Seq<char>, u32)>::empty());
        r
    }

    fn find(&self, name: &String) -> (r: Option<usize>)
        requires
            self.wf(),
        ensures
            match r {
                Some(i) => i < self@.len() && self@[i as int].0 == name@,
                None => !self.book().contains_key(name@),
            },
            r is Some <==> self.book().contains_key(name@),
    {
        let mut i: usize = 0;
        while i < self.accounts.len()
            invariant
                i <= self.accounts@.len(),
                self.wf(),
                forall|j: int| 0 <= j < i ==> self@[j].0 != name@,
            decreases self.accounts@.len() - i,
        {
            if self.accounts[i].name == *name {
                proof {
                    lemma_balances(self@);
                    assert(self@[i as int].0 == name@);
                }
                return Some(i);
            }
            i += 1;
        }
        proof {
            lemma_balances(self@);
        }
        None
    }

    fn set_balance(&mut self, i: usize, v: u32)
        requires
            old(self).wf(),
            i < old(self)@.len(),
        ensures
            final(self).wf(),
            final(self).book() == old(self).book().insert(old(self)@[i as int].0, v),
            final(self)@ == old(self)@.update(i as int, (old(self)@[i as int].0, v)),
    {
        proof {
            lemma_balances_update(self@, i as int, v);
        }
        let e = &mut self.accounts[i];
        e.balance = v;
        assert(self@ =~= old(self)@.update(i as int, (old(self)@[i as int].0, v)));
    }

    /// The balance of the account `name`, if there is one.
    pub fn balance(&self, name: &String) -> (r: Option<u32>)
        requires
            self.wf(),
        ensures
            match r {
                Some(b) => self.book().contains_key(name@) && self.book()[name@] == b,
                None => !self.book().contains_key(name@),
            },
    {
        proof {
            lemma_balances(self@);
        }
        match self.find(name) {
            Some(i) => Some(self.accounts[i].balance),
            None => None,
        }
    }

    /// The names and balances of all accounts, in the order they were opened.
    pub fn entries(&self) -> (r: Vec<(String, u32)>)
        ensures
            r@.map_values(|e: (String, u32)| (e.0@, e.1)) == self@,
    {
        let mut r: Vec<(String, u32)> = Vec::new();
        let mut i: usize = 0;
        while i < self.accounts.len()
            invariant
                i <= self.accounts@.len(),
                r@.map_values(|e: (String, u32)| (e.0@, e.1)) == self@.subrange(0, i as int),
            decreases self.accounts@.len() - i,
        {
            let ghost before = r@.map_values(|e: (String, u32)| (e.0@, e.1));
            let name = self.accounts[i].name.clone();
            r.push((name, self.accounts[i].balance));
            assert(r@.map_values(|e: (String, u32)| (e.0@, e.1)) =~= before.push(self@[i as int]));
            assert(self@.subrange(0, i + 1) =~= self@.subrange(0, i as int).push(self@[i as int]));
            i += 1;
        }
        assert(self@.subrange(0, self@.len() as int) =~= self@);
        r
    }

    /// Opens an account under `key` exactly as given, with balance 0, unless
    /// one exists under it already.
    pub fn new_account_with_key(&mut self, key: String) -> (r: Result<(), LedgerErrors>)
        requires
            old(self).wf(),
        ensures
            final(self).wf(),
            match r {
                Ok(()) => !old(self).book().contains_key(key@) && final(self).book() == old(self).book().insert(key@, 0),
                Err(e) => old(self).book().contains_key(key@) && final(self).book() == old(self).book() && (e matches LedgerErrors::AccountAlreadyExist(m) && m@ == key@),
            },
    {
        if self.find(&key).is_some() {
            return Err(LedgerErrors::AccountAlreadyExist(key));
        }
        proof {
            lemma_balances(self@);
        }
        let ghost k = key@;
        self.accounts.push(Entry { name: key, balance: 0 });
        assert(self@ =~= old(self)@.push((k, 0u32)));
        assert(self@.drop_last() =~= old(self)@);
        Ok(())
    }

    /// Opens an account under the lower-case form of `account_name`, with
    /// balance 0, unless one exists under it already.
    pub fn new_account(&mut self, account_name: &String) -> (r: Result<(), LedgerErrors>)
        requires
            old(self).wf(),
        ensures
            final(self).wf(),
            match r {
                Ok(()) => !old(self).book().contains_key(lower_of(account_name@)) && final(self).book() == old(self).book().insert(lower_of(account_name@), 0),
                Err(e) => old(self).book().contains_key(lower_of(account_name@)) && final(self).book() == old(self).book() && (e matches LedgerErrors::AccountAlreadyExist(m)
                    && m@ == lower_of(account_name@)),
            },
    {
        let key = lowercase(account_name.as_str());
        self.new_account_with_key(key)
    }

    /// Adds `amount` to the balance of the account `account_name` (taken as
    /// given, not lowered).
    pub fn add_balance_account(&mut self, account_name: &String, amount: u32) -> (r: Result<(), LedgerErrors>)
        requires
            old(self).wf(),
            old(self).book().contains_key(account_name@) ==> old(self).book()[account_name@] + amount
                <= u32::MAX,
        ensures
            final(self).wf(),
            match r {
                Ok(()) => old(self).book().contains_key(account_name@) && final(self).book() == old(self).book().insert(account_name@, (old(self).book()[account_name@] + amount) as u32),
                Err(e) => !old(self).book().contains_key(account_name@) && final(self).book() == old(self).book() && (e matches LedgerErrors::AccountNotFound(m) && m@ == account_name@),
            },
    {
        proof {
            lemma_balances(self@);
        }
        match self.find(account_name) {
            Some(i) => {
                let b = self.accounts[i].balance;
                self.set_balance(i, b + amount);
                Ok(())
            },
            None => Err(LedgerErrors::AccountNotFound(account_name.clone())),
        }
    }

    /// Moves `amount` from `account_name_from` to `account_name_to`. Refused,
    /// with nothing changed, when either account is missing (the source is
    /// checked first) or the source holds less than `amount`.
    pub fn transfer(
        &mut self,
        account_name_from: &String,
        account_name_to: &String,
        amount: u32,
    ) -> (r: Result<(), LedgerErrors>)
        requires
            old(self).wf(),
            ({
                let b = old(self).book();
                let f = account_name_from@;
                let t = account_name_to@;
                b.contains_key(f) && b.contains_key(t) && f != t && b[f] >= amount ==> b[t] + amount
                    <= u32::MAX
            }),
        ensures
            final(self).wf(),
            ({
                let b = old(self).book();
                let f = account_name_from@;
                let t = account_name_to@;
                if !b.contains_key(f) {
                    final(self).book() == b && (r matches Err(LedgerErrors::AccountNotFound(m)) && m@
                        == f)
                } else if !b.contains_key(t) {
                    final(self).book() == b && (r matches Err(LedgerErrors::AccountNotFound(m)) && m@
                        == t)
                } else if b[f] < amount {
                    final(self).book() == b && (r matches Err(
                        LedgerErrors::AccountInsuficientFunds,
                    ))
                } else {
                    let d = b.insert(f, (b[f] - amount) as u32);
                    r is Ok && final(self).book() == d.insert(t, (d[t] + amount) as u32)
                }
            }),
    {
        proof {
            lemma_balances(self@);
        }
        let fi = match self.find(account_name_from) {
            Some(i) => i,
            None => return Err(LedgerErrors::AccountNotFound(account_name_from.clone())),
        };
        let ti = match self.find(account_name_to) {
            Some(i) => i,
            None => return Err(LedgerErrors::AccountNotFound(account_name_to.clone())),
        };
        let available = self.accounts[fi].balance;
        if available < amount {
            return Err(LedgerErrors::AccountInsuficientFunds);
        }
        self.set_balance(fi, available - amount);
        proof {
            lemma_balances(self@);
        }
        let target = self.accounts[ti].balance;
        proof {
            assert(self@[ti as int].0 == account_name_to@);
            assert(self.book()[account_name_to@] == target);
            if fi == ti {
                assert(target == available - amount);
            } else {
                assert(account_name_from@ != account_name_to@);
                assert(old(self).book()[account_name_to@] == target);
            }
        }
        self.set_balance(ti, target + amount);
        Ok(())
    }
}

} // verus!
