//! The audited ledger: accounts are created with an initial balance, credits
//! are deposited, withdrawn and transferred, every successful instruction is
//! recorded under a sequential transaction identifier, and batches of
//! instructions are applied atomically.
use vstd::prelude::*;
use crate::accounts::{
    AccountTable, AccountView, Accounts, fits, fits_after, lemma_fits_at, with_balance,
    with_frozen,
};

pub use crate::accounts::Account;

verus! {

/// The identifier of an account.
pub type AccountId = String;

/// The identifier of a recorded transaction.
pub type TransactionId = u64;

/// A request to perform one action on the ledger.
#[derive(Debug, Clone, PartialEq, Eq)]
pub enum Instruction {
    CreateAccount { account_id: AccountId, owner_name: String, initial_balance: u64 },
    Deposit { account_id: AccountId, amount: u64 },
    Withdraw { account_id: AccountId, amount: u64 },
    Transfer { from: AccountId, to: AccountId, amount: u64 },
    Freeze { account_id: AccountId },
    Unfreeze { account_id: AccountId },
}

/// A successful instruction together with the identifier it was recorded under.
#[derive(Debug, Clone, PartialEq, Eq)]
pub struct Transaction {
    pub id: TransactionId,
    pub instruction: Instruction,
}

/// Why an instruction or a batch was refused.
#[derive(Debug, Clone, PartialEq, Eq, Structural)]
pub enum LedgerError {
    AccountAlreadyExists,
    AccountNotFound,
    AccountFrozen,
    InsufficientFunds,
    InvalidAmount,
    EmptyBatch,
}

/// The accounts after creating `id`, owned by `owner` and holding `initial`,
/// or the refusal.
pub open spec fn create_spec(m: Accounts, id: Seq<char>, owner: Seq<char>, initial: u64) -> Result<
    Accounts,
    LedgerError,
> {
    if m.contains_key(id) {
        Err(LedgerError::AccountAlreadyExists)
    } else {
        Ok(m.insert(id, AccountView { owner_name: owner, balance: initial as nat, is_frozen: false }))
    }
}

/// The accounts after depositing `amount` into `id`, or the refusal.
pub open spec fn deposit_spec(m: Accounts, id: Seq<char>, amount: u64) -> Result<Accounts, LedgerError> {
    if amount == 0 {
        Err(LedgerError::InvalidAmount)
    } else if !m.contains_key(id) {
        Err(LedgerError::AccountNotFound)
    } else if m[id].is_frozen {
        Err(LedgerError::AccountFrozen)
    } else {
        Ok(m.insert(id, with_balance(m[id], (m[id].balance + amount) as nat)))
    }
}

/// The accounts after withdrawing `amount` from `id`, or the refusal.
pub open spec fn withdraw_spec(m: Accounts, id: Seq<char>, amount: u64) -> Result<Accounts, LedgerError> {
    if amount == 0 {
        Err(LedgerError::InvalidAmount)
    } else if !m.contains_key(id) {
        Err(LedgerError::AccountNotFound)
    } else if m[id].is_frozen {
        Err(LedgerError::AccountFrozen)
    } else if m[id].balance < amount {
        Err(LedgerError::InsufficientFunds)
    } else {
        Ok(m.insert(id, with_balance(m[id], (m[id].balance - amount) as nat)))
    }
}

/// The accounts after moving `amount` from `from` to `to`, or the refusal.
/// A transfer from an account to itself that passes every check changes nothing.
pub open spec fn transfer_spec(m: Accounts, from: Seq<char>, to: Seq<char>, amount: u64) -> Result<
    Accounts,
    LedgerError,
> {
    if amount == 0 {
        Err(LedgerError::InvalidAmount)
    } else if !m.contains_key(from) || !m.contains_key(to) {
        Err(LedgerError::AccountNotFound)
    } else if m[from].is_frozen || m[to].is_frozen {
        Err(LedgerError::AccountFrozen)
    } else if m[from].balance < amount {
        Err(LedgerError::InsufficientFunds)
    } else if from == to {
        Ok(m)
    } else {
        Ok(
            m.insert(from, with_balance(m[from], (m[from].balance - amount) as nat)).insert(
                to,
                with_balance(m[to], (m[to].balance + amount) as nat),
            ),
        )
    }
}

/// The accounts after setting the frozen flag of `id`, or the refusal.
pub open spec fn set_frozen_spec(m: Accounts, id: Seq<char>, frozen: bool) -> Result<Accounts, LedgerError> {
    if !m.contains_key(id) {
        Err(LedgerError::AccountNotFound)
    } else {
        Ok(m.insert(id, with_frozen(m[id], frozen)))
    }
}

/// The accounts after one instruction, or the refusal.
pub open spec fn apply(m: Accounts, instruction: Instruction) -> Result<Accounts, LedgerError> {
    match instruction {
        Instruction::CreateAccount { account_id, owner_name, initial_balance } => create_spec(
            m,
            account_id@,
            owner_name@,
            initial_balance,
        ),
        Instruction::Deposit { account_id, amount } => deposit_spec(m, account_id@, amount),
        Instruction::Withdraw { account_id, amount } => withdraw_spec(m, account_id@, amount),
        Instruction::Transfer { from, to, amount } => transfer_spec(m, from@, to@, amount),
        Instruction::Freeze { account_id } => set_frozen_spec(m, account_id@, true),
        Instruction::Unfreeze { account_id } => set_frozen_spec(m, account_id@, false),
    }
}

/// The accounts after the instructions one after another, or the first refusal.
pub open spec fn apply_all(m: Accounts, instructions: Seq<Instruction>) -> Result<Accounts, LedgerError>
    decreases instructions.len(),
{
    if instructions.len() == 0 {
        Ok(m)
    } else {
        match apply(m, instructions[0]) {
            Ok(m2) => apply_all(m2, instructions.drop_first()),
            Err(e) => Err(e),
        }
    }
}

/// Every balance reached while applying the instructions one after another
/// fits in a `u64`.
pub open spec fn all_fit(m: Accounts, instructions: Seq<Instruction>) -> bool
    decreases instructions.len(),
{
    if instructions.len() == 0 {
        true
    } else {
        match apply(m, instructions[0]) {
            Ok(m2) => fits(m2) && all_fit(m2, instructions.drop_first()),
            Err(_) => true,
        }
    }
}

/// The transactions that record `instructions` under consecutive identifiers
/// starting at `first`.
pub open spec fn records(first: nat, instructions: Seq<Instruction>) -> Seq<Transaction> {
    Seq::new(
        instructions.len(),
        |i: int| Transaction { id: (first + i) as u64, instruction: instructions[i] },
    )
}

/// The amount that a deposit, withdrawal or transfer moves; none for the
/// other instructions.
pub open spec fn moved_amount(instruction: Instruction) -> Option<u64> {
    match instruction {
        Instruction::Deposit { amount, .. } => Some(amount),
        Instruction::Withdraw { amount, .. } => Some(amount),
        Instruction::Transfer { amount, .. } => Some(amount),
        _ => None,
    }
}

/// Whether the instruction would move money into or out of the account `id`.
pub open spec fn moves_money_of(instruction: Instruction, id: Seq<char>) -> bool {
    match instruction {
        Instruction::Deposit { account_id, .. } => account_id@ == id,
        Instruction::Withdraw { account_id, .. } => account_id@ == id,
        Instruction::Transfer { from, to, .. } => from@ == id || to@ == id,
        _ => false,
    }
}

/// `after` holds the same identifiers as `before`, and every account other
/// than `a` and `b` is the same in both.
pub open spec fn others_unchanged(before: Accounts, after: Accounts, a: Seq<char>, b: Seq<char>) -> bool {
    &&& after.dom() == before.dom()
    &&& forall|k: Seq<char>| #[trigger] before.contains_key(k) && k != a && k != b ==> after[k] == before[k]
}

/// Freezing an existing account always succeeds and leaves it frozen with its
/// owner and balance unchanged; unfreezing leaves it unfrozen in the same way;
/// no other account changes. Only a missing account is refused, with
/// `AccountNotFound`. Freezing twice keeps the account frozen.
pub proof fn lemma_freeze_outcome(m: Accounts, account_id: AccountId, frozen: bool)
    ensures
        ({
            let instruction = if frozen {
                Instruction::Freeze { account_id }
            } else {
                Instruction::Unfreeze { account_id }
            };
            let r = apply(m, instruction);
            let id = account_id@;
            &&& r is Ok <==> m.contains_key(id)
            &&& !m.contains_key(id) ==> r == Err::<Accounts, LedgerError>(LedgerError::AccountNotFound)
            &&& r is Ok ==> {
                let m2 = r->Ok_0;
                &&& m2[id].is_frozen == frozen
                &&& m2[id].balance == m[id].balance
                &&& m2[id].owner_name == m[id].owner_name
                &&& others_unchanged(m, m2, id, id)
                &&& apply(m2, instruction) is Ok
                &&& apply(m2, instruction)->Ok_0[id].is_frozen == frozen
            }
        }),
{
    let id = account_id@;
    if m.contains_key(id) {
        let m2 = m.insert(id, with_frozen(m[id], frozen));
        assert(m2.dom() =~= m.dom());
        assert(m2.insert(id, with_frozen(m2[id], frozen)).dom() =~= m2.dom());
    }
}

/// A deposit succeeds exactly when the amount is positive and the account
/// exists and is not frozen, whatever the amount; it then adds the amount to
/// that account's balance and changes nothing else. Otherwise the refusal is
/// `InvalidAmount` for a zero amount, then `AccountNotFound`, then
/// `AccountFrozen`.
pub proof fn lemma_deposit_outcome(m: Accounts, account_id: AccountId, amount: u64)
    ensures
        ({
            let r = apply(m, Instruction::Deposit { account_id, amount });
            let id = account_id@;
            &&& r is Ok <==> (amount > 0 && m.contains_key(id) && !m[id].is_frozen)
            &&& amount == 0 ==> r == Err::<Accounts, LedgerError>(LedgerError::InvalidAmount)
            &&& amount > 0 && !m.contains_key(id) ==> r == Err::<Accounts, LedgerError>(
                LedgerError::AccountNotFound,
            )
            &&& amount > 0 && m.contains_key(id) && m[id].is_frozen ==> r == Err::<Accounts, LedgerError>(
                LedgerError::AccountFrozen,
            )
            &&& r is Ok ==> {
                let m2 = r->Ok_0;
                &&& m2[id].balance == m[id].balance + amount
                &&& m2[id].owner_name == m[id].owner_name
                &&& m2[id].is_frozen == m[id].is_frozen
                &&& others_unchanged(m, m2, id, id)
            }
        }),
{
    let id = account_id@;
    if amount > 0 && m.contains_key(id) && !m[id].is_frozen {
        let m2 = apply(m, Instruction::Deposit { account_id, amount })->Ok_0;
        assert(m2.dom() =~= m.dom());
    }
}

/// Creating an account under an identifier not yet in use always succeeds,
/// whatever the owner and the initial balance: the new account holds exactly
/// that owner and balance, unfrozen, and every other account is unchanged. An
/// identifier in use is refused with `AccountAlreadyExists`.
pub proof fn lemma_create_outcome(m: Accounts, account_id: AccountId, owner_name: String, initial_balance: u64)
    ensures
        ({
            let r = apply(m, Instruction::CreateAccount { account_id, owner_name, initial_balance });
            let id = account_id@;
            &&& r is Ok <==> !m.contains_key(id)
            &&& m.contains_key(id) ==> r == Err::<Accounts, LedgerError>(LedgerError::AccountAlreadyExists)
            &&& r is Ok ==> {
                let m2 = r->Ok_0;
                &&& m2.dom() == m.dom().insert(id)
                &&& m2[id].owner_name == owner_name@
                &&& m2[id].balance == initial_balance
                &&& !m2[id].is_frozen
                &&& forall|k: Seq<char>| #[trigger] m.contains_key(k) ==> m2[k] == m[k]
            }
        }),
{
    let id = account_id@;
    if !m.contains_key(id) {
        let m2 = apply(m, Instruction::CreateAccount { account_id, owner_name, initial_balance })->Ok_0;
        assert(m2.dom() =~= m.dom().insert(id));
    }
}

/// A withdrawal succeeds exactly when the amount is positive and the account
/// exists, is not frozen and holds at least the amount; it then takes the
/// amount off that account's balance and changes nothing else. Otherwise the
/// refusal is `InvalidAmount`, then `AccountNotFound`, then `AccountFrozen`,
/// then `InsufficientFunds`.
pub proof fn lemma_withdraw_outcome(m: Accounts, account_id: AccountId, amount: u64)
    ensures
        ({
            let r = apply(m, Instruction::Withdraw { account_id, amount });
            let id = account_id@;
            &&& r is Ok <==> (amount > 0 && m.contains_key(id) && !m[id].is_frozen && m[id].balance
                >= amount)
            &&& amount == 0 ==> r == Err::<Accounts, LedgerError>(LedgerError::InvalidAmount)
            &&& amount > 0 && !m.contains_key(id) ==> r == Err::<Accounts, LedgerError>(
                LedgerError::AccountNotFound,
            )
            &&& amount > 0 && m.contains_key(id) && m[id].is_frozen ==> r == Err::<Accounts, LedgerError>(
                LedgerError::AccountFrozen,
            )
            &&& amount > 0 && m.contains_key(id) && !m[id].is_frozen && m[id].balance < amount ==> r
                == Err::<Accounts, LedgerError>(LedgerError::InsufficientFunds)
            &&& r is Ok ==> {
                let m2 = r->Ok_0;
                &&& m2[id].balance + amount == m[id].balance
                &&& m2[id].owner_name == m[id].owner_name
                &&& m2[id].is_frozen == m[id].is_frozen
                &&& others_unchanged(m, m2, id, id)
            }
        }),
{
    let id = account_id@;
    if amount > 0 && m.contains_key(id) && !m[id].is_frozen && m[id].balance >= amount {
        let m2 = apply(m, Instruction::Withdraw { account_id, amount })->Ok_0;
        assert(m2.dom() =~= m.dom());
    }
}

/// A transfer succeeds exactly when the amount is positive, both accounts
/// exist, neither is frozen and the sender holds at least the amount, whoever
/// owns the two accounts. Between two distinct accounts it then takes the
/// amount off the sender and adds it to the recipient, leaving owners, freezes
/// and all other accounts unchanged; a transfer to the same account changes
/// nothing. Otherwise the refusal is `InvalidAmount`, then `AccountNotFound`,
/// then `AccountFrozen`, then `InsufficientFunds`.
pub proof fn lemma_transfer_outcome(m: Accounts, from: AccountId, to: AccountId, amount: u64)
    ensures
        ({
            let r = apply(m, Instruction::Transfer { from, to, amount });
            let (f, t) = (from@, to@);
            &&& r is Ok <==> (amount > 0 && m.contains_key(f) && m.contains_key(t) && !m[f].is_frozen
                && !m[t].is_frozen && m[f].balance >= amount)
            &&& amount == 0 ==> r == Err::<Accounts, LedgerError>(LedgerError::InvalidAmount)
            &&& amount > 0 && (!m.contains_key(f) || !m.contains_key(t)) ==> r == Err::<
                Accounts,
                LedgerError,
            >(LedgerError::AccountNotFound)
            &&& amount > 0 && m.contains_key(f) && m.contains_key(t) && (m[f].is_frozen
                || m[t].is_frozen) ==> r == Err::<Accounts, LedgerError>(LedgerError::AccountFrozen)
            &&& amount > 0 && m.contains_key(f) && m.contains_key(t) && !m[f].is_frozen
                && !m[t].is_frozen && m[f].balance < amount ==> r == Err::<Accounts, LedgerError>(
                LedgerError::InsufficientFunds,
            )
            &&& r is Ok && f == t ==> r->Ok_0 == m
            &&& r is Ok && f != t ==> {
                let m2 = r->Ok_0;
                &&& m2[f].balance + amount == m[f].balance
                &&& m2[t].balance == m[t].balance + amount
                &&& m2[f].owner_name == m[f].owner_name && m2[f].is_frozen == m[f].is_frozen
                &&& m2[t].owner_name == m[t].owner_name && m2[t].is_frozen == m[t].is_frozen
                &&& others_unchanged(m, m2, f, t)
            }
        }),
{
    let (f, t) = (from@, to@);
    if amount > 0 && m.contains_key(f) && m.contains_key(t) && !m[f].is_frozen && !m[t].is_frozen
        && m[f].balance >= amount && f != t {
        let m2 = apply(m, Instruction::Transfer { from, to, amount })->Ok_0;
        assert(m2.dom() =~= m.dom());
    }
}

/// A deposit, withdrawal or transfer of zero credits is refused with
/// `InvalidAmount`, whatever the accounts hold.
pub proof fn lemma_zero_amount_refused(m: Accounts, instruction: Instruction)
    requires
        moved_amount(instruction) == Some(0u64),
    ensures
        apply(m, instruction) == Err::<Accounts, LedgerError>(LedgerError::InvalidAmount),
{
}

/// A frozen account can neither deposit, withdraw nor transfer: every such
/// instruction that involves it is refused.
pub proof fn lemma_frozen_account_cannot_move_money(m: Accounts, instruction: Instruction, id: Seq<char>)
    requires
        m.contains_key(id),
        m[id].is_frozen,
        moves_money_of(instruction, id),
    ensures
        apply(m, instruction) is Err,
{
}

/// No instruction changes the balance of a frozen account.
pub proof fn lemma_frozen_balance_unchanged(m: Accounts, instruction: Instruction, id: Seq<char>)
    requires
        m.contains_key(id),
        m[id].is_frozen,
        apply(m, instruction) is Ok,
    ensures
        apply(m, instruction)->Ok_0.contains_key(id),
        apply(m, instruction)->Ok_0[id].balance == m[id].balance,
{
}

/// Accounts are never removed, and an account keeps its owner's name: every
/// account before a successful instruction is still there afterwards, under
/// the same owner.
pub proof fn lemma_accounts_persist(m: Accounts, instruction: Instruction, id: Seq<char>)
    requires
        m.contains_key(id),
        apply(m, instruction) is Ok,
    ensures
        apply(m, instruction)->Ok_0.contains_key(id),
        apply(m, instruction)->Ok_0[id].owner_name == m[id].owner_name,
{
}

/// Whether the instruction names the account `id`.
pub open spec fn names(instruction: Instruction, id: Seq<char>) -> bool {
    match instruction {
        Instruction::CreateAccount { account_id, .. } => account_id@ == id,
        Instruction::Freeze { account_id } => account_id@ == id,
        Instruction::Unfreeze { account_id } => account_id@ == id,
        _ => moves_money_of(instruction, id),
    }
}

/// Reading an account after creating it gives the owner's name and initial
/// balance it was created with, unfrozen; a deposit adds its amount to the
/// balance read afterwards and a withdrawal takes it off; an account that the
/// instruction does not name reads as before.
pub proof fn lemma_read_after_write(m: Accounts, instruction: Instruction, id: Seq<char>)
    requires
        apply(m, instruction) is Ok,
    ensures
        ({
            let m2 = apply(m, instruction)->Ok_0;
            &&& instruction matches Instruction::CreateAccount { account_id, owner_name, initial_balance }
                ==> m2.contains_key(account_id@) && m2[account_id@] == (AccountView {
                owner_name: owner_name@,
                balance: initial_balance as nat,
                is_frozen: false,
            })
            &&& instruction matches Instruction::Deposit { account_id, amount } ==> m2[account_id@].balance
                == m[account_id@].balance + amount
            &&& instruction matches Instruction::Withdraw { account_id, amount } ==> m2[account_id@].balance
                + amount == m[account_id@].balance
            &&& m.contains_key(id) && !names(instruction, id) ==> m2[id] == m[id]
        }),
{
}

/// A transfer only moves money: the accounts other than the two involved are
/// unchanged, the sender loses what the recipient gains, and the sum of the
/// two balances stays the same.
pub proof fn lemma_transfer_conserves_funds(
    m: Accounts,
    from: Seq<char>,
    to: Seq<char>,
    amount: u64,
    id: Seq<char>,
)
    requires
        transfer_spec(m, from, to, amount) is Ok,
    ensures
        ({
            let m2 = transfer_spec(m, from, to, amount)->Ok_0;
            &&& m2.dom() == m.dom()
            &&& m2[from].balance + m2[to].balance == m[from].balance + m[to].balance
            &&& from != to ==> m2[from].balance + amount == m[from].balance
            &&& from == to ==> m2 == m
            &&& id != from && id != to && m.contains_key(id) ==> m2[id] == m[id]
        }),
{
    let m2 = transfer_spec(m, from, to, amount)->Ok_0;
    assert(m2.dom() =~= m.dom());
}

/// Unfreezing an account that was frozen from the unfrozen state gives back
/// the accounts as they were.
pub proof fn lemma_unfreeze_undoes_freeze(m: Accounts, id: Seq<char>)
    requires
        m.contains_key(id),
        !m[id].is_frozen,
    ensures
        set_frozen_spec(m, id, true) is Ok,
        set_frozen_spec(set_frozen_spec(m, id, true)->Ok_0, id, false) == Ok::<Accounts, LedgerError>(m),
{
    let m1 = set_frozen_spec(m, id, true)->Ok_0;
    assert(m1.insert(id, with_frozen(m1[id], false)) =~= m);
}

/// Withdrawing what was just deposited succeeds and gives back the accounts
/// as they were.
pub proof fn lemma_withdraw_undoes_deposit(m: Accounts, id: Seq<char>, amount: u64)
    requires
        deposit_spec(m, id, amount) is Ok,
    ensures
        withdraw_spec(deposit_spec(m, id, amount)->Ok_0, id, amount) == Ok::<Accounts, LedgerError>(m),
{
    let m1 = deposit_spec(m, id, amount)->Ok_0;
    assert(m1.insert(id, with_balance(m1[id], (m1[id].balance - amount) as nat)) =~= m);
}

/// No instructions leave the accounts as they are, and a batch of one
/// instruction does what the instruction alone does.
pub proof fn lemma_batch_of_one(m: Accounts, instruction: Instruction)
    ensures
        apply_all(m, Seq::<Instruction>::empty()) == Ok::<Accounts, LedgerError>(m),
        apply_all(m, seq![instruction]) == apply(m, instruction),
{
    let one = seq![instruction];
    assert(one.len() == 1 && one[0] == instruction);
    assert(one.drop_first() =~= Seq::<Instruction>::empty());
    reveal_with_fuel(apply_all, 2);
}

/// A batch is its instructions applied one after another: appending an
/// instruction to a batch applies it to the outcome of the batch, and a
/// refusal inside the batch is the refusal of the longer batch.
pub proof fn lemma_batch_is_sequential(m: Accounts, instructions: Seq<Instruction>, last: Instruction)
    ensures
        apply_all(m, instructions.push(last)) == match apply_all(m, instructions) {
            Ok(m2) => apply(m2, last),
            Err(e) => Err(e),
        },
    decreases instructions.len(),
{
    if instructions.len() == 0 {
        lemma_batch_of_one(m, last);
        assert(instructions.push(last) =~= seq![last]);
    } else {
        assert(instructions.push(last)[0] == instructions[0]);
        assert(instructions.push(last).drop_first() =~= instructions.drop_first().push(last));
        match apply(m, instructions[0]) {
            Ok(m1) => {
                lemma_batch_is_sequential(m1, instructions.drop_first(), last);
            },
            Err(_) => {},
        }
    }
}

/// The records of a batch hold, in order, each of its instructions under the
/// identifier `first` plus its position.
pub proof fn lemma_records_numbering(first: nat, instructions: Seq<Instruction>, i: int)
    requires
        0 <= i < instructions.len(),
        first + instructions.len() <= u64::MAX,
    ensures
        records(first, instructions).len() == instructions.len(),
        records(first, instructions)[i].id == first + i,
        records(first, instructions)[i].instruction == instructions[i],
{
}

/// The records of a batch with one more instruction are the records of the
/// batch followed by the record of that instruction under the next identifier,
/// as if the instructions had been processed one at a time.
pub proof fn lemma_records_are_sequential(first: nat, instructions: Seq<Instruction>, last: Instruction)
    ensures
        records(first, instructions.push(last)) == records(first, instructions).push(
            Transaction { id: (first + instructions.len()) as u64, instruction: last },
        ),
{
    assert(records(first, instructions.push(last)) =~= records(first, instructions).push(
        Transaction { id: (first + instructions.len()) as u64, instruction: last },
    ));
}

/// The mathematical value of a ledger.
pub struct LedgerState {
    pub accounts: Accounts,
    pub transactions: Seq<Transaction>,
    pub next_transaction_id: nat,
}

/// The ledger: accounts, the history of successful instructions, and the
/// identifier that the next successful instruction gets.
#[derive(Clone)]
pub struct Ledger {
    accounts: AccountTable,
    transactions: Vec<Transaction>,
    next_transaction_id: TransactionId,
}

impl View for Ledger {
    type V = LedgerState;

    closed spec fn view(&self) -> LedgerState {
        LedgerState {
            accounts: self.accounts@,
            transactions: self.transactions@,
            next_transaction_id: self.next_transaction_id as nat,
        }
    }
}

/// The ledger went from `before` to `after` by an account operation whose
/// outcome was to be `expected` and which returned `r`.
spec fn settled(
    before: LedgerState,
    after: LedgerState,
    r: Result<(), LedgerError>,
    expected: Result<Accounts, LedgerError>,
) -> bool {
    &&& after.transactions == before.transactions
    &&& after.next_transaction_id == before.next_transaction_id
    &&& match expected {
        Ok(m) => r == Ok::<(), LedgerError>(()) && after.accounts == m,
        Err(e) => r == Err::<(), LedgerError>(e) && after.accounts == before.accounts,
    }
}

impl Ledger {
    /// The account table is well formed, and the history holds the
    /// transactions numbered 1, 2, ... in order, the next identifier
    /// following the last.
    pub closed spec fn wf(&self) -> bool {
        &&& self.accounts.wf()
        &&& self.next_transaction_id == self.transactions@.len() + 1
        &&& forall|i: int|
            0 <= i < self.transactions@.len() ==> #[trigger] self.transactions@[i].id == i + 1
    }

    /// Every state of a ledger numbers its history 1, 2, ... in order, and the
    /// next identifier follows the last one recorded.
    pub proof fn lemma_history_is_numbered(&self)
        requires
            self.wf(),
        ensures
            self@.next_transaction_id == self@.transactions.len() + 1,
            forall|i: int|
                0 <= i < self@.transactions.len() ==> #[trigger] self@.transactions[i].id == i + 1,
    {
    }

    /// An empty ledger whose first transaction gets the identifier 1.
    pub fn new() -> (l: Self)
        ensures
            l.wf(),
            l@ == (LedgerState {
                accounts: Map::empty(),
                transactions: Seq::empty(),
                next_transaction_id: 1,
            }),
    {
        Self { accounts: AccountTable::new(), transactions: Vec::new(), next_transaction_id: 1 }
    }

    fn create_account(&mut self, account_id: AccountId, owner_name: String, initial_balance: u64) -> (r:
        Result<(), LedgerError>)
        requires
            old(self).wf(),
        ensures
            final(self).wf(),
            settled(
                old(self)@,
                final(self)@,
                r,
                create_spec(old(self)@.accounts, account_id@, owner_name@, initial_balance),
            ),
    {
        if self.accounts.contains(&account_id) {
            return Err(LedgerError::AccountAlreadyExists);
        }
        let account = Account { owner_name, balance: initial_balance, is_frozen: false };
        self.accounts.insert(account_id, account);
        Ok(())
    }

    fn deposit(&mut self, account_id: &AccountId, amount: u64) -> (r: Result<(), LedgerError>)
        requires
            old(self).wf(),
            fits_after(deposit_spec(old(self)@.accounts, account_id@, amount)),
        ensures
            final(self).wf(),
            settled(old(self)@, final(self)@, r, deposit_spec(old(self)@.accounts, account_id@, amount)),
    {
        if amount == 0 {
            return Err(LedgerError::InvalidAmount);
        }
        let balance = match self.accounts.get(account_id) {
            Some(account) => {
                if account.is_frozen {
                    return Err(LedgerError::AccountFrozen);
                }
                account.balance
            },
            None => {
                return Err(LedgerError::AccountNotFound);
            },
        };
        proof {
            lemma_fits_at(deposit_spec(self@.accounts, account_id@, amount)->Ok_0, account_id@);
        }
        self.accounts.set_balance(account_id, balance + amount);
        Ok(())
    }

    fn withdraw(&mut self, account_id: &AccountId, amount: u64) -> (r: Result<(), LedgerError>)
        requires
            old(self).wf(),
        ensures
            final(self).wf(),
            settled(old(self)@, final(self)@, r, withdraw_spec(old(self)@.accounts, account_id@, amount)),
    {
        if amount == 0 {
            return Err(LedgerError::InvalidAmount);
        }
        let balance = match self.accounts.get(account_id) {
            Some(account) => {
                if account.is_frozen {
                    return Err(LedgerError::AccountFrozen);
                }
                account.balance
            },
            None => {
                return Err(LedgerError::AccountNotFound);
            },
        };
        if balance < amount {
            return Err(LedgerError::InsufficientFunds);
        }
        self.accounts.set_balance(account_id, balance - amount);
        Ok(())
    }

    fn transfer(&mut self, from: &AccountId, to: &AccountId, amount: u64) -> (r: Result<
        (),
        LedgerError,
    >)
        requires
            old(self).wf(),
            fits_after(transfer_spec(old(self)@.accounts, from@, to@, amount)),
        ensures
            final(self).wf(),
            settled(old(self)@, final(self)@, r, transfer_spec(old(self)@.accounts, from@, to@, amount)),
    {
        if amount == 0 {
            return Err(LedgerError::InvalidAmount);
        }
        let (from_balance, from_frozen) = match self.accounts.get(from) {
            Some(account) => (account.balance, account.is_frozen),
            None => {
                return Err(LedgerError::AccountNotFound);
            },
        };
        let (to_balance, to_frozen) = match self.accounts.get(to) {
            Some(account) => (account.balance, account.is_frozen),
            None => {
                return Err(LedgerError::AccountNotFound);
            },
        };
        if from_frozen || to_frozen {
            return Err(LedgerError::AccountFrozen);
        }
        if from_balance < amount {
            return Err(LedgerError::InsufficientFunds);
        }
        if *from == *to {
            return Ok(());
        }
        proof {
            lemma_fits_at(transfer_spec(old(self)@.accounts, from@, to@, amount)->Ok_0, to@);
        }
        self.accounts.set_balance(from, from_balance - amount);
        self.accounts.set_balance(to, to_balance + amount);
        Ok(())
    }

    fn freeze(&mut self, account_id: &AccountId) -> (r: Result<(), LedgerError>)
        requires
            old(self).wf(),
        ensures
            final(self).wf(),
            settled(old(self)@, final(self)@, r, set_frozen_spec(old(self)@.accounts, account_id@, true)),
    {
        if !self.accounts.contains(account_id) {
            return Err(LedgerError::AccountNotFound);
        }
        self.accounts.set_frozen(account_id, true);
        Ok(())
    }

    fn unfreeze(&mut self, account_id: &AccountId) -> (r: Result<(), LedgerError>)
        requires
            old(self).wf(),
        ensures
            final(self).wf(),
            settled(old(self)@, final(self)@, r, set_frozen_spec(old(self)@.accounts, account_id@, false)),
    {
        if !self.accounts.contains(account_id) {
            return Err(LedgerError::AccountNotFound);
        }
        self.accounts.set_frozen(account_id, false);
        Ok(())
    }

    /// Applies one instruction to the accounts, recording nothing.
    fn execute(&mut self, instruction: &Instruction) -> (r: Result<(), LedgerError>)
        requires
            old(self).wf(),
            fits_after(apply(old(self)@.accounts, *instruction)),
        ensures
            final(self).wf(),
            settled(old(self)@, final(self)@, r, apply(old(self)@.accounts, *instruction)),
    {
        match instruction {
            Instruction::CreateAccount { account_id, owner_name, initial_balance } => {
                self.create_account(account_id.clone(), owner_name.clone(), *initial_balance)
            },
            Instruction::Deposit { account_id, amount } => self.deposit(account_id, *amount),
            Instruction::Withdraw { account_id, amount } => self.withdraw(account_id, *amount),
            Instruction::Transfer { from, to, amount } => self.transfer(from, to, *amount),
            Instruction::Freeze { account_id } => self.freeze(account_id),
            Instruction::Unfreeze { account_id } => self.unfreeze(account_id),
        }
    }

    fn record_transaction(&mut self, instruction: Instruction) -> (id: TransactionId)
        requires
            old(self).wf(),
            old(self).next_transaction_id < u64::MAX,
        ensures
            final(self).wf(),
            id == old(self).next_transaction_id,
            final(self)@ == (LedgerState {
                accounts: old(self)@.accounts,
                transactions: old(self)@.transactions.push(Transaction { id, instruction }),
                next_transaction_id: old(self)@.next_transaction_id + 1,
            }),
    {
        let id = self.next_transaction_id;
        self.transactions.push(Transaction { id, instruction });
        self.next_transaction_id = self.next_transaction_id + 1;
        id
    }

    /// Applies one instruction and records it. On success the accounts become
    /// those of `apply` and the instruction is appended to the history under
    /// the next identifier, which is returned; on refusal the ledger is left
    /// exactly as it was.
    ///
    /// A balance or a transaction identifier that would exceed `u64::MAX` is
    /// outside the ledger's domain.
    pub fn process_instruction(&mut self, instruction: Instruction) -> (r: Result<
        TransactionId,
        LedgerError,
    >)
        requires
            old(self).wf(),
            fits_after(apply(old(self)@.accounts, instruction)),
            apply(old(self)@.accounts, instruction) is Ok ==> old(self)@.next_transaction_id
                < u64::MAX,
        ensures
            final(self).wf(),
            match apply(old(self)@.accounts, instruction) {
                Ok(m) => {
                    &&& r == Ok::<TransactionId, LedgerError>(old(self)@.next_transaction_id as u64)
                    &&& final(self)@ == (LedgerState {
                        accounts: m,
                        transactions: old(self)@.transactions.push(
                            Transaction { id: old(self)@.next_transaction_id as u64, instruction },
                        ),
                        next_transaction_id: old(self)@.next_transaction_id + 1,
                    })
                },
                Err(e) => r == Err::<TransactionId, LedgerError>(e) && final(self)@ == old(self)@,
            },
    {
        match self.execute(&instruction) {
            Ok(()) => {},
            Err(e) => {
                return Err(e);
            },
        }
        Ok(self.record_transaction(instruction))
    }

    /// Applies a batch of instructions atomically. An empty batch is refused
    /// with `EmptyBatch`. If every instruction succeeds in turn, the accounts
    /// become those of `apply_all`, every instruction is recorded in order
    /// under consecutive identifiers, and those identifiers are returned; at
    /// the first refusal the ledger is left exactly as it was before the
    /// batch, and that refusal is returned.
    ///
    /// A balance or a transaction identifier that would exceed `u64::MAX` is
    /// outside the ledger's domain.
    pub fn process_batch(&mut self, instructions: Vec<Instruction>) -> (r: Result<
        Vec<TransactionId>,
        LedgerError,
    >)
        requires
            old(self).wf(),
            all_fit(old(self)@.accounts, instructions@),
            apply_all(old(self)@.accounts, instructions@) is Ok ==> old(self)@.next_transaction_id
                + instructions@.len() <= u64::MAX,
        ensures
            final(self).wf(),
            instructions@.len() == 0 ==> r == Err::<Vec<TransactionId>, LedgerError>(
                LedgerError::EmptyBatch,
            ) && final(self)@ == old(self)@,
            instructions@.len() != 0 ==> match apply_all(old(self)@.accounts, instructions@) {
                Ok(m) => {
                    &&& r matches Ok(ids) && ids@ == Seq::new(
                        instructions@.len(),
                        |i: int| (old(self)@.next_transaction_id + i) as u64,
                    )
                    &&& final(self)@ == (LedgerState {
                        accounts: m,
                        transactions: old(self)@.transactions + records(
                            old(self)@.next_transaction_id,
                            instructions@,
                        ),
                        next_transaction_id: old(self)@.next_transaction_id + instructions@.len(),
                    })
                },
                Err(e) => r == Err::<Vec<TransactionId>, LedgerError>(e) && final(self)@ == old(
                    self,
                )@,
            },
    {
        if instructions.len() == 0 {
            return Err(LedgerError::EmptyBatch);
        }
        let backup_accounts = self.accounts.duplicate();
        let n = instructions.len();
        let mut i: usize = 0;
        assert(instructions@.skip(0) =~= instructions@);
        while i < n
            invariant
                self.wf(),
                n == instructions@.len(),
                0 <= i <= n,
                backup_accounts.wf(),
                backup_accounts@ == old(self)@.accounts,
                self@.transactions == old(self)@.transactions,
                self@.next_transaction_id == old(self)@.next_transaction_id,
                apply_all(old(self)@.accounts, instructions@) == apply_all(
                    self@.accounts,
                    instructions@.skip(i as int),
                ),
                all_fit(self@.accounts, instructions@.skip(i as int)),
            decreases n - i,
        {
            let ghost rest = instructions@.skip(i as int);
            assert(rest[0] == instructions@[i as int]);
            assert(rest.drop_first() =~= instructions@.skip(i + 1));
            let result = self.execute(&instructions[i]);
            if let Err(e) = result {
                self.accounts = backup_accounts;
                return Err(e);
            }
            i = i + 1;
        }
        assert(instructions@.skip(n as int) =~= Seq::<Instruction>::empty());
        let ghost first = old(self)@.next_transaction_id;
        let ghost all = instructions@;
        let mut ids: Vec<TransactionId> = Vec::with_capacity(n);
        for instruction in it: instructions
            invariant
                self.wf(),
                it.seq() == all,
                n == all.len(),
                first + n <= u64::MAX,
                ids@.len() == it.index(),
                forall|j: int| 0 <= j < it.index() ==> #[trigger] ids@[j] == (first + j) as u64,
                self@.accounts == apply_all(old(self)@.accounts, all)->Ok_0,
                self@.transactions == old(self)@.transactions + records(first, all.take(it.index() as int)),
                self@.next_transaction_id == first + it.index(),
        {
            let ghost k = it.index();
            let id = self.record_transaction(instruction);
            ids.push(id);
            assert(records(first, all.take(k + 1)) =~= records(first, all.take(k as int)).push(
                Transaction { id, instruction: all[k as int] },
            ));
        }
        assert(all.take(n as int) =~= all);
        assert(ids@ =~= Seq::new(n as nat, |i: int| (first + i) as u64));
        Ok(ids)
    }

    /// The account stored under `account_id`, if any.
    pub fn get_account(&self, account_id: &str) -> (r: Option<&Account>)
        requires
            self.wf(),
        ensures
            match r {
                Some(a) => self@.accounts.contains_key(account_id@) && a@ == self@.accounts[account_id@],
                None => !self@.accounts.contains_key(account_id@),
            },
    {
        let key = account_id.to_owned();
        self.accounts.get(&key)
    }

    /// The successful instructions in the order they were recorded.
    pub fn transaction_history(&self) -> (h: &[Transaction])
        ensures
            h@ == self@.transactions,
    {
        self.transactions.as_slice()
    }
}

} // verus!
