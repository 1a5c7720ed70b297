//! The account table shared by both ledgers: accounts keyed by their
//! identifier, modelled as a map from identifiers to account values.
use vstd::prelude::*;

verus! {

/// One ledger account.
#[derive(Debug, Clone, PartialEq, Eq)]
pub struct Account {
    pub owner_name: String,
    pub balance: u64,
    pub is_frozen: bool,
}

/// The mathematical value of an account.
pub struct AccountView {
    pub owner_name: Seq<char>,
    pub balance: nat,
    pub is_frozen: bool,
}

impl View for Account {
    type V = AccountView;

    open spec fn view(&self) -> AccountView {
        AccountView {
            owner_name: self.owner_name@,
            balance: self.balance as nat,
            is_frozen: self.is_frozen,
        }
    }
}

/// The abstract state of an account table.
pub type Accounts = Map<Seq<char>, AccountView>;

/// The account `a` with its balance replaced by `balance`.
pub open spec fn with_balance(a: AccountView, balance: nat) -> AccountView {
    AccountView { balance, ..a }
}

/// The account `a` with its frozen flag replaced by `frozen`.
pub open spec fn with_frozen(a: AccountView, frozen: bool) -> AccountView {
    AccountView { is_frozen: frozen, ..a }
}

/// Every balance in `m` fits in a `u64`.
pub open spec fn fits(m: Accounts) -> bool {
    forall|k: Seq<char>| #[trigger] m.contains_key(k) ==> m[k].balance <= u64::MAX
}

/// An outcome of an operation on accounts whose new balances all fit in a `u64`
/// (an error outcome always does).
pub open spec fn fits_after<E>(r: Result<Accounts, E>) -> bool {
    match r {
        Ok(m) => fits(m),
        Err(_) => true,
    }
}

/// A balance stored in accounts whose balances all fit in a `u64` fits too.
pub proof fn lemma_fits_at(m: Accounts, k: Seq<char>)
    requires
        fits(m),
        m.contains_key(k),
    ensures
        m[k].balance <= u64::MAX,
{
}

/// Accounts stored by identifier. Identifiers are pairwise distinct.
#[derive(Clone)]
pub struct AccountTable {
    ids: Vec<String>,
    accounts: Vec<Account>,
    contents: Ghost<Accounts>,
}

impl View for AccountTable {
    type V = Accounts;

    closed spec fn view(&self) -> Accounts {
        self.contents@
    }
}

impl AccountTable {
    /// The table is well formed: one account per identifier, identifiers
    /// pairwise distinct, and the abstract map holds exactly the stored pairs.
    pub closed spec fn wf(&self) -> bool {
        &&& self.ids@.len() == self.accounts@.len()
        &&& forall|i: int, j: int|
            0 <= i < j < self.ids@.len() ==> #[trigger] self.ids@[i]@ != #[trigger] self.ids@[j]@
        &&& forall|i: int|
            0 <= i < self.ids@.len() ==> {
                &&& #[trigger] self.contents@.contains_key(self.ids@[i]@)
                &&& self.contents@[self.ids@[i]@] == self.accounts@[i]@
            }
        &&& forall|k: Seq<char>|
            #[trigger] self.contents@.contains_key(k) ==> exists|i: int|
                0 <= i < self.ids@.len() && #[trigger] self.ids@[i]@ == k
    }

    /// The position of `id` in the table, if it is there.
    fn find(&self, id: &String) -> (r: Option<usize>)
        requires
            self.wf(),
        ensures
            match r {
                Some(i) => {
                    &&& i < self.ids@.len()
                    &&& self.ids@[i as int]@ == id@
                    &&& self@.contains_key(id@)
                    &&& self@[id@] == self.accounts@[i as int]@
                },
                None => !self@.contains_key(id@),
            },
    {
        let n = self.ids.len();
        let mut i: usize = 0;
        while i < n
            invariant
                self.wf(),
                n == self.ids@.len(),
                0 <= i <= n,
                forall|j: int| 0 <= j < i ==> #[trigger] self.ids@[j]@ != id@,
            decreases n - i,
        {
            if self.ids[i] == *id {
                return Some(i);
            }
            i = i + 1;
        }
        None
    }

    /// Whether an account is stored under `id`.
    pub fn contains(&self, id: &String) -> (b: bool)
        requires
            self.wf(),
        ensures
            b == self@.contains_key(id@),
    {
        self.find(id).is_some()
    }

    /// The account stored under `id`, if any.
    pub fn get(&self, id: &String) -> (r: Option<&Account>)
        requires
            self.wf(),
        ensures
            match r {
                Some(a) => self@.contains_key(id@) && a@ == self@[id@],
                None => !self@.contains_key(id@),
            },
    {
        match self.find(id) {
            Some(i) => Some(&self.accounts[i]),
            None => None,
        }
    }

    /// Stores a new account under an identifier that is not yet in use.
    pub fn insert(&mut self, id: String, account: Account)
        requires
            old(self).wf(),
            !old(self)@.contains_key(id@),
        ensures
            final(self).wf(),
            final(self)@ == old(self)@.insert(id@, account@),
    {
        let ghost k = id@;
        let ghost v = account@;
        self.ids.push(id);
        self.accounts.push(account);
        self.contents = Ghost(self.contents@.insert(k, v));
        assert forall|c: Seq<char>| #[trigger] self.contents@.contains_key(c) implies exists|i: int|
            0 <= i < self.ids@.len() && #[trigger] self.ids@[i]@ == c by {
            if c == k {
                assert(self.ids@[self.ids@.len() - 1]@ == c);
            } else {
                let i = choose|i: int| 0 <= i < old(self).ids@.len() && #[trigger] old(self).ids@[i]@ == c;
                assert(self.ids@[i]@ == c);
            }
        }
        assert forall|i: int, j: int|
            0 <= i < j < self.ids@.len() implies #[trigger] self.ids@[i]@ != #[trigger] self.ids@[j]@ by {
            if j == self.ids@.len() - 1 {
                assert(old(self).contents@.contains_key(old(self).ids@[i]@));
            } else {
                assert(old(self).ids@[i] == self.ids@[i]);
                assert(old(self).ids@[j] == self.ids@[j]);
            }
        }
    }

    /// Sets the balance and frozen flag of the account at position `i`.
    fn replace(&mut self, i: usize, balance: u64, is_frozen: bool)
        requires
            old(self).wf(),
            i < old(self).ids@.len(),
        ensures
            final(self).wf(),
            final(self).ids@ == old(self).ids@,
            final(self)@ == old(self)@.insert(
                old(self).ids@[i as int]@,
                AccountView { balance: balance as nat, is_frozen, ..old(self).accounts@[i as int]@ },
            ),
    {
        let ghost k = self.ids@[i as int]@;
        self.accounts[i].balance = balance;
        self.accounts[i].is_frozen = is_frozen;
        self.contents = Ghost(self.contents@.insert(k, self.accounts@[i as int]@));
        assert forall|j: int| 0 <= j < self.ids@.len() implies {
            &&& #[trigger] self.contents@.contains_key(self.ids@[j]@)
            &&& self.contents@[self.ids@[j]@] == self.accounts@[j]@
        } by {
            if j != i {
                assert(old(self).contents@.contains_key(old(self).ids@[j]@));
            }
        }
        assert forall|c: Seq<char>| #[trigger] self.contents@.contains_key(c) implies exists|j: int|
            0 <= j < self.ids@.len() && #[trigger] self.ids@[j]@ == c by {
            if c != k {
                assert(old(self).contents@.contains_key(c));
                let j = choose|j: int| 0 <= j < old(self).ids@.len() && #[trigger] old(self).ids@[j]@ == c;
                assert(self.ids@[j]@ == c);
            } else {
                assert(self.ids@[i as int]@ == c);
            }
        }
    }

    /// Sets the balance of the account stored under `id`.
    pub fn set_balance(&mut self, id: &String, balance: u64)
        requires
            old(self).wf(),
            old(self)@.contains_key(id@),
        ensures
            final(self).wf(),
            final(self)@ == old(self)@.insert(id@, with_balance(old(self)@[id@], balance as nat)),
    {
        let i = self.find(id).unwrap();
        let frozen = self.accounts[i].is_frozen;
        self.replace(i, balance, frozen);
    }

    /// Sets the frozen flag of the account stored under `id`.
    pub fn set_frozen(&mut self, id: &String, frozen: bool)
        requires
            old(self).wf(),
            old(self)@.contains_key(id@),
        ensures
            final(self).wf(),
            final(self)@ == old(self)@.insert(id@, with_frozen(old(self)@[id@], frozen)),
    {
        let i = self.find(id).unwrap();
        let balance = self.accounts[i].balance;
        self.replace(i, balance, frozen);
    }

    /// A copy of the table.
    pub fn duplicate(&self) -> (r: Self)
        requires
            self.wf(),
        ensures
            r.wf(),
            r@ == self@,
    {
        let n = self.ids.len();
        let mut ids: Vec<String> = Vec::new();
        let mut accounts: Vec<Account> = Vec::new();
        let mut i: usize = 0;
        while i < n
            invariant
                self.wf(),
                n == self.ids@.len(),
                0 <= i <= n,
                ids@.len() == i,
                accounts@.len() == i,
                forall|j: int| 0 <= j < i ==> #[trigger] ids@[j] == self.ids@[j],
                forall|j: int| 0 <= j < i ==> #[trigger] accounts@[j]@ == self.accounts@[j]@,
            decreases n - i,
        {
            ids.push(self.ids[i].clone());
            let a = &self.accounts[i];
            accounts.push(Account {
                owner_name: a.owner_name.clone(),
                balance: a.balance,
                is_frozen: a.is_frozen,
            });
            i = i + 1;
        }
        let r = AccountTable { ids, accounts, contents: Ghost(self.contents@) };
        assert(r.ids@ =~= self.ids@);
        assert forall|j: int| 0 <= j < r.ids@.len() implies {
            &&& #[trigger] r.contents@.contains_key(r.ids@[j]@)
            &&& r.contents@[r.ids@[j]@] == r.accounts@[j]@
        } by {
            assert(self.contents@.contains_key(self.ids@[j]@));
            assert(r.accounts@[j]@ == self.accounts@[j]@);
        }
        r
    }

    /// An empty table.
    pub fn new() -> (t: Self)
        ensures
            t.wf(),
            t@ == Map::<Seq<char>, AccountView>::empty(),
    {
        AccountTable { ids: Vec::new(), accounts: Vec::new(), contents: Ghost(Map::empty()) }
    }
}

} // verus!
