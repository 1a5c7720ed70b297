use payments_ledger::easy::{Account, Instruction, Ledger, LedgerError};

fn create(id: &str, owner_name: &str) -> Instruction {
    Instruction::CreateAccount { account_id: id.to_string(), owner_name: owner_name.to_string() }
}

fn deposit_into(id: &str, amount: u64) -> Instruction {
    Instruction::Deposit { account_id: id.to_string(), amount }
}

fn move_funds(from: &str, to: &str, amount: u64) -> Instruction {
    Instruction::Transfer { from: from.to_string(), to: to.to_string(), amount }
}

fn freeze_account(id: &str) -> Instruction {
    Instruction::Freeze { account_id: id.to_string() }
}

fn unfreeze_account(id: &str) -> Instruction {
    Instruction::Unfreeze { account_id: id.to_string() }
}

fn balance(ledger: &Ledger, id: &str) -> u64 {
    ledger.get_account(id).unwrap().balance
}

fn two_accounts(alice: u64) -> Ledger {
    let mut ledger = Ledger::new();
    assert_eq!(ledger.process_instruction(create("alice", "Alice")), Ok(()));
    assert_eq!(ledger.process_instruction(create("bob", "Bob")), Ok(()));
    if alice > 0 {
        assert_eq!(ledger.process_instruction(deposit_into("alice", alice)), Ok(()));
    }
    ledger
}

#[test]
fn easy_new_ledger_has_no_accounts() {
    let ledger = Ledger::new();
    assert!(ledger.get_account("alice").is_none());
    assert!(ledger.get_account("").is_none());
}

#[test]
fn easy_read_after_create_gives_the_account() {
    let mut ledger = Ledger::new();
    assert_eq!(ledger.process_instruction(create("carol", "Carol")), Ok(()));
    let expected = Account { owner_name: "Carol".to_string(), balance: 0, is_frozen: false };
    assert_eq!(ledger.get_account("carol"), Some(&expected));
    assert!(ledger.get_account("Carol").is_none());
}

#[test]
fn easy_duplicate_create_keeps_first_owner() {
    let mut ledger = two_accounts(10);
    assert_eq!(ledger.process_instruction(create("alice", "Other")), Err(LedgerError::AccountAlreadyExists));
    assert_eq!(ledger.get_account("alice").unwrap().owner_name, "Alice");
    assert_eq!(balance(&ledger, "alice"), 10);
}

#[test]
fn easy_deposit_into_missing_account_is_refused() {
    let mut ledger = Ledger::new();
    assert_eq!(ledger.process_instruction(deposit_into("nobody", 5)), Err(LedgerError::AccountNotFound));
    assert!(ledger.get_account("nobody").is_none());
}

#[test]
fn easy_zero_deposit_is_checked_before_existence() {
    let mut ledger = Ledger::new();
    assert_eq!(ledger.process_instruction(deposit_into("nobody", 0)), Err(LedgerError::InvalidAmount));
    assert_eq!(ledger.process_instruction(move_funds("x", "y", 0)), Err(LedgerError::InvalidAmount));
}

#[test]
fn easy_deposits_accumulate() {
    let mut ledger = two_accounts(0);
    assert_eq!(ledger.process_instruction(deposit_into("alice", 7)), Ok(()));
    assert_eq!(ledger.process_instruction(deposit_into("alice", 8)), Ok(()));
    assert_eq!(balance(&ledger, "alice"), 15);
    assert_eq!(balance(&ledger, "bob"), 0);
}

#[test]
fn easy_deposit_into_frozen_account_is_refused() {
    let mut ledger = two_accounts(10);
    assert_eq!(ledger.process_instruction(freeze_account("alice")), Ok(()));
    assert_eq!(ledger.process_instruction(deposit_into("alice", 5)), Err(LedgerError::AccountFrozen));
    assert_eq!(balance(&ledger, "alice"), 10);
}

#[test]
fn easy_transfer_from_frozen_account_is_refused() {
    let mut ledger = two_accounts(10);
    assert_eq!(ledger.process_instruction(freeze_account("alice")), Ok(()));
    assert_eq!(ledger.process_instruction(move_funds("alice", "bob", 5)), Err(LedgerError::AccountFrozen));
    assert_eq!(balance(&ledger, "alice"), 10);
    assert_eq!(balance(&ledger, "bob"), 0);
}

#[test]
fn easy_transfer_checks_sender_before_recipient() {
    let mut ledger = two_accounts(10);
    assert_eq!(ledger.process_instruction(move_funds("nobody", "bob", 5)), Err(LedgerError::AccountNotFound));
    assert_eq!(ledger.process_instruction(move_funds("alice", "nobody", 5)), Err(LedgerError::AccountNotFound));
    assert_eq!(ledger.process_instruction(freeze_account("bob")), Ok(()));
    assert_eq!(ledger.process_instruction(move_funds("alice", "bob", 50)), Err(LedgerError::InsufficientFunds));
    assert_eq!(balance(&ledger, "alice"), 10);
}

#[test]
fn easy_transfer_to_self_changes_nothing() {
    let mut ledger = two_accounts(10);
    assert_eq!(ledger.process_instruction(move_funds("alice", "alice", 500)), Ok(()));
    assert_eq!(balance(&ledger, "alice"), 10);
    assert_eq!(ledger.process_instruction(move_funds("nobody", "nobody", 1)), Err(LedgerError::AccountNotFound));
    assert_eq!(ledger.process_instruction(freeze_account("alice")), Ok(()));
    assert_eq!(ledger.process_instruction(move_funds("alice", "alice", 1)), Err(LedgerError::AccountFrozen));
}

#[test]
fn easy_transfer_conserves_the_sum_of_balances() {
    let mut ledger = two_accounts(100);
    assert_eq!(ledger.process_instruction(deposit_into("bob", 11)), Ok(()));
    assert_eq!(ledger.process_instruction(move_funds("alice", "bob", 37)), Ok(()));
    assert_eq!(balance(&ledger, "alice"), 63);
    assert_eq!(balance(&ledger, "bob"), 48);
    assert_eq!(balance(&ledger, "alice") + balance(&ledger, "bob"), 111);
    assert_eq!(ledger.process_instruction(move_funds("alice", "bob", 63)), Ok(()));
    assert_eq!(balance(&ledger, "alice"), 0);
}

#[test]
fn easy_freeze_and_unfreeze_missing_account_is_refused() {
    let mut ledger = Ledger::new();
    assert_eq!(ledger.process_instruction(freeze_account("ghost")), Err(LedgerError::AccountNotFound));
    assert_eq!(ledger.process_instruction(unfreeze_account("ghost")), Err(LedgerError::AccountNotFound));
}

#[test]
fn easy_unfreeze_undoes_freeze() {
    let mut ledger = two_accounts(10);
    let before = ledger.get_account("alice").unwrap().clone();
    assert_eq!(ledger.process_instruction(freeze_account("alice")), Ok(()));
    assert_eq!(ledger.process_instruction(freeze_account("alice")), Ok(()));
    assert_eq!(ledger.process_instruction(unfreeze_account("alice")), Ok(()));
    assert_eq!(ledger.get_account("alice"), Some(&before));
    assert_eq!(ledger.process_instruction(move_funds("alice", "bob", 4)), Ok(()));
    assert_eq!(balance(&ledger, "bob"), 4);
}

#[test]
fn easy_large_balances_are_kept_exactly() {
    let mut ledger = two_accounts(u64::MAX - 1);
    assert_eq!(ledger.process_instruction(deposit_into("alice", 1)), Ok(()));
    assert_eq!(balance(&ledger, "alice"), u64::MAX);
    assert_eq!(ledger.process_instruction(move_funds("alice", "bob", u64::MAX)), Ok(()));
    assert_eq!(balance(&ledger, "bob"), u64::MAX);
}
