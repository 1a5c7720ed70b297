//! The basic ledger: accounts are created empty, and credits are deposited,
//! transferred, frozen and unfrozen one instruction at a time.
use vstd::prelude::*;
use crate::accounts::{
    AccountTable, AccountView, Accounts, fits_after, lemma_fits_at, with_balance, with_frozen,
};

pub use crate::accounts::Account;

verus! {

/// The identifier of an account.
pub type AccountId = String;

/// A request to perform one action on the ledger.
#[derive(Debug, Clone, PartialEq, Eq)]
pub enum Instruction {
    CreateAccount { account_id: AccountId, owner_name: String },
    Deposit { account_id: AccountId, amount: u64 },
    Transfer { from: AccountId, to: AccountId, amount: u64 },
    Freeze { account_id: AccountId },
    Unfreeze { account_id: AccountId },
}

/// Why an instruction was refused.
#[derive(Debug, Clone, PartialEq, Eq, Structural)]
pub enum LedgerError {
    AccountAlreadyExists,
    AccountNotFound,
    AccountFrozen,
    InsufficientFunds,
    InvalidAmount,
}

/// The accounts after depositing `amount` into `id`, or the refusal.
pub open spec fn deposit_spec(m: Accounts, id: Seq<char>, amount: u64) -> Result<Accounts, LedgerError> {
    if amount == 0 {
        Err(LedgerError::InvalidAmount)
    } else if !m.contains_key(id) {
        Err(LedgerError::AccountNotFound)
    } else if m[id].is_frozen {
        Err(LedgerError::AccountFrozen)
    } else {
        Ok(m.insert(id, with_balance(m[id], (m[id].balance + amount) as nat)))
    }
}

/// The accounts after moving `amount` from `from` to `to`, or the refusal.
/// A transfer from an account to itself changes nothing once the account is
/// found and not frozen.
pub open spec fn transfer_spec(m: Accounts, from: Seq<char>, to: Seq<char>, amount: u64) -> Result<
    Accounts,
    LedgerError,
> {
    if amount == 0 {
        Err(LedgerError::InvalidAmount)
    } else if from == to {
        if !m.contains_key(from) {
            Err(LedgerError::AccountNotFound)
        } else if m[from].is_frozen {
            Err(LedgerError::AccountFrozen)
        } else {
            Ok(m)
        }
    } else if !m.contains_key(from) {
        Err(LedgerError::AccountNotFound)
    } else if m[from].is_frozen {
        Err(LedgerError::AccountFrozen)
    } else if m[from].balance < amount {
        Err(LedgerError::InsufficientFunds)
    } else if !m.contains_key(to) {
        Err(LedgerError::AccountNotFound)
    } else if m[to].is_frozen {
        Err(LedgerError::AccountFrozen)
    } else {
        Ok(
            m.insert(from, with_balance(m[from], (m[from].balance - amount) as nat)).insert(
                to,
                with_balance(m[to], (m[to].balance + amount) as nat),
            ),
        )
    }
}

/// The accounts after setting the frozen flag of `id`, or the refusal.
pub open spec fn set_frozen_spec(m: Accounts, id: Seq<char>, frozen: bool) -> Result<Accounts, LedgerError> {
    if !m.contains_key(id) {
        Err(LedgerError::AccountNotFound)
    } else {
        Ok(m.insert(id, with_frozen(m[id], frozen)))
    }
}

/// The accounts after one instruction, or the refusal.
pub open spec fn apply(m: Accounts, instruction: Instruction) -> Result<Accounts, LedgerError> {
    match instruction {
        Instruction::CreateAccount { account_id, owner_name } => {
            if m.contains_key(account_id@) {
                Err(LedgerError::AccountAlreadyExists)
            } else {
                Ok(
                    m.insert(
                        account_id@,
                        AccountView { owner_name: owner_name@, balance: 0, is_frozen: false },
                    ),
                )
            }
        },
        Instruction::Deposit { account_id, amount } => deposit_spec(m, account_id@, amount),
        Instruction::Transfer { from, to, amount } => transfer_spec(m, from@, to@, amount),
        Instruction::Freeze { account_id } => set_frozen_spec(m, account_id@, true),
        Instruction::Unfreeze { account_id } => set_frozen_spec(m, account_id@, false),
    }
}

/// The amount that a deposit or transfer moves; none for the other instructions.
pub open spec fn moved_amount(instruction: Instruction) -> Option<u64> {
    match instruction {
        Instruction::Deposit { amount, .. } => Some(amount),
        Instruction::Transfer { amount, .. } => Some(amount),
        _ => None,
    }
}

/// Whether the instruction would move money into or out of the account `id`.
pub open spec fn moves_money_of(instruction: Instruction, id: Seq<char>) -> bool {
    match instruction {
        Instruction::Deposit { account_id, .. } => account_id@ == id,
        Instruction::Transfer { from, to, .. } => from@ == id || to@ == id,
        _ => false,
    }
}

/// `after` holds the same identifiers as `before`, and every account other
/// than `a` and `b` is the same in both.
pub open spec fn others_unchanged(before: Accounts, after: Accounts, a: Seq<char>, b: Seq<char>) -> bool {
    &&& after.dom() == before.dom()
    &&& forall|k: Seq<char>| #[trigger] before.contains_key(k) && k != a && k != b ==> after[k] == before[k]
}

/// Freezing an existing account always succeeds and leaves it frozen with its
/// owner and balance unchanged; unfreezing leaves it unfrozen in the same way;
/// no other account changes. Only a missing account is refused, with
/// `AccountNotFound`. Freezing twice keeps the account frozen.
pub proof fn lemma_freeze_outcome(m: Accounts, account_id: AccountId, frozen: bool)
    ensures
        ({
            let instruction = if frozen {
                Instruction::Freeze { account_id }
            } else {
                Instruction::Unfreeze { account_id }
            };
            let r = apply(m, instruction);
            let id = account_id@;
            &&& r is Ok <==> m.contains_key(id)
            &&& !m.contains_key(id) ==> r == Err::<Accounts, LedgerError>(LedgerError::AccountNotFound)
            &&& r is Ok ==> {
                let m2 = r->Ok_0;
                &&& m2[id].is_frozen == frozen
                &&& m2[id].balance == m[id].balance
                &&& m2[id].owner_name == m[id].owner_name
                &&& others_unchanged(m, m2, id, id)
                &&& apply(m2, instruction) is Ok
                &&& apply(m2, instruction)->Ok_0[id].is_frozen == frozen
            }
        }),
{
    let id = account_id@;
    if m.contains_key(id) {
        let m2 = m.insert(id, with_frozen(m[id], frozen));
        assert(m2.dom() =~= m.dom());
        assert(m2.insert(id, with_frozen(m2[id], frozen)).dom() =~= m2.dom());
    }
}

/// A deposit succeeds exactly when the amount is positive and the account
/// exists and is not frozen, whatever the amount; it then adds the amount to
/// that account's balance and changes nothing else. Otherwise the refusal is
/// `InvalidAmount` for a zero amount, then `AccountNotFound`, then
/// `AccountFrozen`.
pub proof fn lemma_deposit_outcome(m: Accounts, account_id: AccountId, amount: u64)
    ensures
        ({
            let r = apply(m, Instruction::Deposit { account_id, amount });
            let id = account_id@;
            &&& r is Ok <==> (amount > 0 && m.contains_key(id) && !m[id].is_frozen)
            &&& amount == 0 ==> r == Err::<Accounts, LedgerError>(LedgerError::InvalidAmount)
            &&& amount > 0 && !m.contains_key(id) ==> r == Err::<Accounts, LedgerError>(
                LedgerError::AccountNotFound,
            )
            &&& amount > 0 && m.contains_key(id) && m[id].is_frozen ==> r == Err::<Accounts, LedgerError>(
                LedgerError::AccountFrozen,
            )
            &&& r is Ok ==> {
                let m2 = r->Ok_0;
                &&& m2[id].balance == m[id].balance + amount
                &&& m2[id].owner_name == m[id].owner_name
                &&& m2[id].is_frozen == m[id].is_frozen
                &&& others_unchanged(m, m2, id, id)
            }
        }),
{
    let id = account_id@;
    if amount > 0 && m.contains_key(id) && !m[id].is_frozen {
        let m2 = apply(m, Instruction::Deposit { account_id, amount })->Ok_0;
        assert(m2.dom() =~= m.dom());
    }
}

/// Creating an account under an identifier not yet in use always succeeds,
/// whatever the owner: the new account belongs to that owner, holds nothing
/// and is not frozen, and every other account is unchanged. An identifier in
/// use is refused with `AccountAlreadyExists`.
pub proof fn lemma_create_outcome(m: Accounts, account_id: AccountId, owner_name: String)
    ensures
        ({
            let r = apply(m, Instruction::CreateAccount { account_id, owner_name });
            let id = account_id@;
            &&& r is Ok <==> !m.contains_key(id)
            &&& m.contains_key(id) ==> r == Err::<Accounts, LedgerError>(LedgerError::AccountAlreadyExists)
            &&& r is Ok ==> {
                let m2 = r->Ok_0;
                &&& m2.dom() == m.dom().insert(id)
                &&& m2[id].owner_name == owner_name@
                &&& m2[id].balance == 0
                &&& !m2[id].is_frozen
                &&& forall|k: Seq<char>| #[trigger] m.contains_key(k) ==> m2[k] == m[k]
            }
        }),
{
    let id = account_id@;
    if !m.contains_key(id) {
        let m2 = apply(m, Instruction::CreateAccount { account_id, owner_name })->Ok_0;
        assert(m2.dom() =~= m.dom().insert(id));
    }
}

/// A transfer of a positive amount from an existing, unfrozen account
/// succeeds exactly when it goes to that same account, or the sender holds at
/// least the amount and the recipient exists and is not frozen; whoever owns
/// the two accounts. Between two distinct accounts it takes the amount off
/// the sender and adds it to the recipient, leaving owners, freezes and all
/// other accounts unchanged; a transfer to the same account changes nothing.
/// Otherwise the refusal is `InvalidAmount` for a zero amount; then, for the
/// sender, `AccountNotFound` and `AccountFrozen`; then `InsufficientFunds`;
/// then, for the recipient, `AccountNotFound` and `AccountFrozen`.
pub proof fn lemma_transfer_outcome(m: Accounts, from: AccountId, to: AccountId, amount: u64)
    ensures
        ({
            let r = apply(m, Instruction::Transfer { from, to, amount });
            let (f, t) = (from@, to@);
            &&& r is Ok <==> (amount > 0 && m.contains_key(f) && !m[f].is_frozen && (f == t || (
            m[f].balance >= amount && m.contains_key(t) && !m[t].is_frozen)))
            &&& amount == 0 ==> r == Err::<Accounts, LedgerError>(LedgerError::InvalidAmount)
            &&& amount > 0 && !m.contains_key(f) ==> r == Err::<Accounts, LedgerError>(
                LedgerError::AccountNotFound,
            )
            &&& amount > 0 && m.contains_key(f) && m[f].is_frozen ==> r == Err::<Accounts, LedgerError>(
                LedgerError::AccountFrozen,
            )
            &&& amount > 0 && m.contains_key(f) && !m[f].is_frozen && f != t && m[f].balance < amount
                ==> r == Err::<Accounts, LedgerError>(LedgerError::InsufficientFunds)
            &&& amount > 0 && m.contains_key(f) && !m[f].is_frozen && f != t && m[f].balance >= amount
                && !m.contains_key(t) ==> r == Err::<Accounts, LedgerError>(LedgerError::AccountNotFound)
            &&& amount > 0 && m.contains_key(f) && !m[f].is_frozen && f != t && m[f].balance >= amount
                && m.contains_key(t) && m[t].is_frozen ==> r == Err::<Accounts, LedgerError>(
                LedgerError::AccountFrozen,
            )
            &&& r is Ok && f == t ==> r->Ok_0 == m
            &&& r is Ok && f != t ==> {
                let m2 = r->Ok_0;
                &&& m2[f].balance + amount == m[f].balance
                &&& m2[t].balance == m[t].balance + amount
                &&& m2[f].owner_name == m[f].owner_name && m2[f].is_frozen == m[f].is_frozen
                &&& m2[t].owner_name == m[t].owner_name && m2[t].is_frozen == m[t].is_frozen
                &&& others_unchanged(m, m2, f, t)
            }
        }),
{
    let (f, t) = (from@, to@);
    if amount > 0 && m.contains_key(f) && m.contains_key(t) && !m[f].is_frozen && !m[t].is_frozen
        && m[f].balance >= amount && f != t {
        let m2 = apply(m, Instruction::Transfer { from, to, amount })->Ok_0;
        assert(m2.dom() =~= m.dom());
    }
}

/// A deposit or transfer of zero credits is refused with `InvalidAmount`,
/// whatever the accounts hold.
pub proof fn lemma_zero_amount_refused(m: Accounts, instruction: Instruction)
    requires
        moved_amount(instruction) == Some(0u64),
    ensures
        apply(m, instruction) == Err::<Accounts, LedgerError>(LedgerError::InvalidAmount),
{
}

/// A frozen account can neither receive a deposit nor take part in a
/// transfer: every such instruction that involves it is refused.
pub proof fn lemma_frozen_account_cannot_move_money(m: Accounts, instruction: Instruction, id: Seq<char>)
    requires
        m.contains_key(id),
        m[id].is_frozen,
        moves_money_of(instruction, id),
    ensures
        apply(m, instruction) is Err,
{
}

/// No instruction changes the balance of a frozen account.
pub proof fn lemma_frozen_balance_unchanged(m: Accounts, instruction: Instruction, id: Seq<char>)
    requires
        m.contains_key(id),
        m[id].is_frozen,
        apply(m, instruction) is Ok,
    ensures
        apply(m, instruction)->Ok_0.contains_key(id),
        apply(m, instruction)->Ok_0[id].balance == m[id].balance,
{
}

/// Accounts are never removed, and an account keeps its owner's name: every
/// account before a successful instruction is still there afterwards, under
/// the same owner.
pub proof fn lemma_accounts_persist(m: Accounts, instruction: Instruction, id: Seq<char>)
    requires
        m.contains_key(id),
        apply(m, instruction) is Ok,
    ensures
        apply(m, instruction)->Ok_0.contains_key(id),
        apply(m, instruction)->Ok_0[id].owner_name == m[id].owner_name,
{
}

/// Whether the instruction names the account `id`.
pub open spec fn names(instruction: Instruction, id: Seq<char>) -> bool {
    match instruction {
        Instruction::CreateAccount { account_id, .. } => account_id@ == id,
        Instruction::Freeze { account_id } => account_id@ == id,
        Instruction::Unfreeze { account_id } => account_id@ == id,
        _ => moves_money_of(instruction, id),
    }
}

/// Reading an account after creating it gives the owner's name it was
/// created with, a zero balance and no freeze; a deposit adds its amount to
/// the balance read afterwards; an account that the instruction does not name
/// reads as before.
pub proof fn lemma_read_after_write(m: Accounts, instruction: Instruction, id: Seq<char>)
    requires
        apply(m, instruction) is Ok,
    ensures
        ({
            let m2 = apply(m, instruction)->Ok_0;
            &&& instruction matches Instruction::CreateAccount { account_id, owner_name }
                ==> m2.contains_key(account_id@) && m2[account_id@] == (AccountView {
                owner_name: owner_name@,
                balance: 0,
                is_frozen: false,
            })
            &&& instruction matches Instruction::Deposit { account_id, amount } ==> m2[account_id@].balance
                == m[account_id@].balance + amount
            &&& m.contains_key(id) && !names(instruction, id) ==> m2[id] == m[id]
        }),
{
}

/// A transfer only moves money: the accounts other than the two involved are
/// unchanged, the sender loses what the recipient gains, the sum of the two
/// balances stays the same, and a transfer to oneself changes nothing.
pub proof fn lemma_transfer_conserves_funds(
    m: Accounts,
    from: Seq<char>,
    to: Seq<char>,
    amount: u64,
    id: Seq<char>,
)
    requires
        transfer_spec(m, from, to, amount) is Ok,
    ensures
        ({
            let m2 = transfer_spec(m, from, to, amount)->Ok_0;
            &&& m2.dom() == m.dom()
            &&& m2[from].balance + m2[to].balance == m[from].balance + m[to].balance
            &&& from != to ==> m2[from].balance + amount == m[from].balance
            &&& from == to ==> m2 == m
            &&& id != from && id != to && m.contains_key(id) ==> m2[id] == m[id]
        }),
{
    let m2 = transfer_spec(m, from, to, amount)->Ok_0;
    assert(m2.dom() =~= m.dom());
}

/// Unfreezing an account that was frozen from the unfrozen state gives back
/// the accounts as they were.
pub proof fn lemma_unfreeze_undoes_freeze(m: Accounts, id: Seq<char>)
    requires
        m.contains_key(id),
        !m[id].is_frozen,
    ensures
        set_frozen_spec(m, id, true) is Ok,
        set_frozen_spec(set_frozen_spec(m, id, true)->Ok_0, id, false) == Ok::<Accounts, LedgerError>(m),
{
    let m1 = set_frozen_spec(m, id, true)->Ok_0;
    assert(m1.insert(id, with_frozen(m1[id], false)) =~= m);
}

/// The ledger: a table of accounts, changed only by instructions.
pub struct Ledger {
    accounts: AccountTable,
}

impl View for Ledger {
    type V = Accounts;

    closed spec fn view(&self) -> Accounts {
        self.accounts@
    }
}

impl Ledger {
    /// The ledger's account table is well formed.
    pub closed spec fn wf(&self) -> bool {
        self.accounts.wf()
    }

    /// An empty ledger.
    pub fn new() -> (l: Self)
        ensures
            l.wf(),
            l@ == Map::<Seq<char>, AccountView>::empty(),
    {
        Ledger { accounts: AccountTable::new() }
    }

    /// Applies one instruction. On success the accounts become those of
    /// `apply`; on refusal the ledger is left exactly as it was.
    ///
    /// A balance that would exceed `u64::MAX` is outside the ledger's domain.
    pub fn process_instruction(&mut self, instruction: Instruction) -> (r: Result<(), LedgerError>)
        requires
            old(self).wf(),
            fits_after(apply(old(self)@, instruction)),
        ensures
            final(self).wf(),
            match apply(old(self)@, instruction) {
                Ok(m) => r == Ok::<(), LedgerError>(()) && final(self)@ == m,
                Err(e) => r == Err::<(), LedgerError>(e) && final(self)@ == old(self)@,
            },
    {
        match instruction {
            Instruction::CreateAccount { account_id, owner_name } => {
                if self.accounts.contains(&account_id) {
                    return Err(LedgerError::AccountAlreadyExists);
                }
                let account = Account { owner_name, balance: 0, is_frozen: false };
                self.accounts.insert(account_id, account);
                Ok(())
            },
            Instruction::Deposit { account_id, amount } => {
                if amount == 0 {
                    return Err(LedgerError::InvalidAmount);
                }
                let balance = match self.accounts.get(&account_id) {
                    Some(acc) => {
                        if acc.is_frozen {
                            return Err(LedgerError::AccountFrozen);
                        }
                        acc.balance
                    },
                    None => {
                        return Err(LedgerError::AccountNotFound);
                    },
                };
                proof {
                    lemma_fits_at(deposit_spec(self@, account_id@, amount)->Ok_0, account_id@);
                }
                self.accounts.set_balance(&account_id, balance + amount);
                Ok(())
            },
            Instruction::Transfer { from, to, amount } => {
                if amount == 0 {
                    return Err(LedgerError::InvalidAmount);
                }
                if from == to {
                    return match self.accounts.get(&from) {
                        Some(acc) => {
                            if acc.is_frozen {
                                Err(LedgerError::AccountFrozen)
                            } else {
                                Ok(())
                            }
                        },
                        None => Err(LedgerError::AccountNotFound),
                    };
                }
                let (from_balance, from_frozen) = match self.accounts.get(&from) {
                    Some(acc) => (acc.balance, acc.is_frozen),
                    None => {
                        return Err(LedgerError::AccountNotFound);
                    },
                };
                if from_frozen {
                    return Err(LedgerError::AccountFrozen);
                }
                if from_balance < amount {
                    return Err(LedgerError::InsufficientFunds);
                }
                let to_balance = match self.accounts.get(&to) {
                    Some(acc) => {
                        if acc.is_frozen {
                            return Err(LedgerError::AccountFrozen);
                        }
                        acc.balance
                    },
                    None => {
                        return Err(LedgerError::AccountNotFound);
                    },
                };
                self.accounts.set_balance(&from, from_balance - amount);
                proof {
                    lemma_fits_at(transfer_spec(old(self)@, from@, to@, amount)->Ok_0, to@);
                }
                self.accounts.set_balance(&to, to_balance + amount);
                Ok(())
            },
            Instruction::Freeze { account_id } => {
                if !self.accounts.contains(&account_id) {
                    return Err(LedgerError::AccountNotFound);
                }
                self.accounts.set_frozen(&account_id, true);
                Ok(())
            },
            Instruction::Unfreeze { account_id } => {
                if !self.accounts.contains(&account_id) {
                    return Err(LedgerError::AccountNotFound);
                }
                self.accounts.set_frozen(&account_id, false);
                Ok(())
            },
        }
    }

    /// The account stored under `account_id`, if any.
    pub fn get_account(&self, account_id: &str) -> (r: Option<&Account>)
        requires
            self.wf(),
        ensures
            match r {
                Some(a) => self@.contains_key(account_id@) && a@ == self@[account_id@],
                None => !self@.contains_key(account_id@),
            },
    {
        let key = account_id.to_owned();
        self.accounts.get(&key)
    }
}

} // verus!
