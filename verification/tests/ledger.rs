use bank_ledger::bank::{Bank, BankError, TransferError};
use bank_ledger::currency::{Currency, Rat};

fn canonical() -> Currency {
    Currency::itc()
}

#[test]
fn insufficient_funds_leaves_balance() {
    let mut bank = Bank::new();
    let cur = canonical();
    bank.add_account("A", &Rat::from_units(100), &cur, "1111").unwrap();
    let r = bank.withdraw("A", &Rat::from_units(150), &cur, "1111");
    assert_eq!(r, Err(BankError::InsufficientFunds));
    let account = bank.get_account("A", "1111").unwrap();
    assert!(account.balance().same_value(&Rat::from_units(100)));
}

#[test]
fn transfer_moves_funds() {
    let mut bank = Bank::new();
    let cur = canonical();
    bank.add_account("A", &Rat::from_units(100), &cur, "1111").unwrap();
    bank.add_account("B", &Rat::from_units(0), &cur, "2222").unwrap();
    bank.transfer("A", "B", &Rat::from_units(40), &cur, "1111").unwrap();
    assert!(bank.get_account("A", "1111").unwrap().balance().same_value(&Rat::from_units(60)));
    assert!(bank.get_account("B", "2222").unwrap().balance().same_value(&Rat::from_units(40)));
}

#[test]
fn deposit_needs_no_pin() {
    let mut bank = Bank::new();
    let cur = canonical();
    bank.add_account("A", &Rat::from_units(50), &cur, "1111").unwrap();
    bank.deposit("A", &Rat::from_units(25), &cur).unwrap();
    assert!(bank.get_account("A", "1111").unwrap().balance().same_value(&Rat::from_units(75)));
}

#[test]
fn wrong_pin_on_get_changes_nothing() {
    let mut bank = Bank::new();
    let cur = canonical();
    bank.add_account("A", &Rat::from_units(100), &cur, "1111").unwrap();
    let r = bank.get_account("A", "9999");
    assert!(matches!(r, Err(BankError::WrongPin)));
    assert!(bank.get_account("A", "1111").unwrap().balance().same_value(&Rat::from_units(100)));
}

#[test]
fn removal_returns_exact_balance() {
    let mut bank = Bank::new();
    let cur = canonical();
    bank.add_account("X", &Rat::from_units(100), &cur, "pin").unwrap();
    let taken = bank.remove_account("X", "pin").unwrap();
    assert!(taken.same_value(&Rat::from_units(100)));
    assert!(matches!(bank.get_account("X", "pin"), Err(BankError::AccountNotFound)));
}

#[test]
fn duplicate_name_is_rejected() {
    let mut bank = Bank::new();
    let cur = canonical();
    bank.add_account("A", &Rat::from_units(10), &cur, "1111").unwrap();
    let r = bank.add_account("A", &Rat::from_units(5), &cur, "2222");
    assert_eq!(r, Err(BankError::DuplicateName));
    assert!(bank.get_account("A", "1111").unwrap().balance().same_value(&Rat::from_units(10)));
}

#[test]
fn wrong_pin_on_withdraw_changes_nothing() {
    let mut bank = Bank::new();
    let cur = canonical();
    bank.add_account("A", &Rat::from_units(100), &cur, "1111").unwrap();
    let r = bank.withdraw("A", &Rat::from_units(10), &cur, "0000");
    assert_eq!(r, Err(BankError::WrongPin));
    assert!(bank.get_account("A", "1111").unwrap().balance().same_value(&Rat::from_units(100)));
}

#[test]
fn wrong_pin_on_remove_changes_nothing() {
    let mut bank = Bank::new();
    let cur = canonical();
    bank.add_account("A", &Rat::from_units(100), &cur, "1111").unwrap();
    let r = bank.remove_account("A", "0000");
    assert_eq!(r, Err(BankError::WrongPin));
    assert!(bank.is_same_name("A"));
}

#[test]
fn wrong_pin_on_transfer_changes_nothing() {
    let mut bank = Bank::new();
    let cur = canonical();
    bank.add_account("A", &Rat::from_units(100), &cur, "1111").unwrap();
    bank.add_account("B", &Rat::from_units(0), &cur, "2222").unwrap();
    let r = bank.transfer("A", "B", &Rat::from_units(40), &cur, "9999");
    assert_eq!(r, Err(TransferError::WrongPin));
    assert!(bank.get_account("A", "1111").unwrap().balance().same_value(&Rat::from_units(100)));
    assert!(bank.get_account("B", "2222").unwrap().balance().same_value(&Rat::from_units(0)));
}

#[test]
fn missing_destination_leaves_source_untouched() {
    let mut bank = Bank::new();
    let cur = canonical();
    bank.add_account("A", &Rat::from_units(100), &cur, "1111").unwrap();
    let r = bank.transfer("A", "nobody", &Rat::from_units(40), &cur, "1111");
    assert_eq!(r, Err(TransferError::DestinationNotFound));
    assert!(bank.get_account("A", "1111").unwrap().balance().same_value(&Rat::from_units(100)));
}

#[test]
fn missing_source_is_reported() {
    let mut bank = Bank::new();
    let cur = canonical();
    bank.add_account("B", &Rat::from_units(10), &cur, "2222").unwrap();
    let r = bank.transfer("nobody", "B", &Rat::from_units(1), &cur, "1111");
    assert_eq!(r, Err(TransferError::SourceNotFound));
    assert!(bank.get_account("B", "2222").unwrap().balance().same_value(&Rat::from_units(10)));
}

#[test]
fn missing_account_fails_every_operation_repeatedly() {
    let mut bank = Bank::new();
    let cur = canonical();
    bank.add_account("A", &Rat::from_units(7), &cur, "1111").unwrap();
    for _ in 0..3 {
        assert!(matches!(bank.get_account("ghost", "1"), Err(BankError::AccountNotFound)));
        assert_eq!(bank.deposit("ghost", &Rat::from_units(1), &cur), Err(BankError::AccountNotFound));
        assert_eq!(
            bank.withdraw("ghost", &Rat::from_units(1), &cur, "1"),
            Err(BankError::AccountNotFound)
        );
        assert!(matches!(bank.remove_account("ghost", "1"), Err(BankError::AccountNotFound)));
        assert!(bank.get_account("A", "1111").unwrap().balance().same_value(&Rat::from_units(7)));
    }
}

#[test]
fn zero_withdrawal_succeeds() {
    let mut bank = Bank::new();
    let cur = canonical();
    bank.add_account("A", &Rat::from_units(5), &cur, "1111").unwrap();
    let taken = bank.withdraw("A", &Rat::from_units(0), &cur, "1111").unwrap();
    assert!(taken.same_value(&Rat::from_units(0)));
    assert!(bank.get_account("A", "1111").unwrap().balance().same_value(&Rat::from_units(5)));
}

#[test]
fn deposit_in_a_foreign_currency_is_normalized() {
    let mut bank = Bank::new();
    let usd = Currency::new(String::from("$"), Rat::new(1, 1));
    let inr = Currency::new(String::from("Rs"), Rat::new(13, 1000));
    bank.add_account("John", &Rat::from_units(100), &usd, "1010").unwrap();
    bank.deposit("John", &Rat::from_units(50), &inr).unwrap();
    // 100 + 50 * 13/1000 = 100.65 canonical units
    let expected = Rat::new(10065, 100);
    assert!(bank.get_account("John", "1010").unwrap().balance().same_value(&expected));
}

#[test]
fn withdrawal_returns_the_canonical_amount() {
    let mut bank = Bank::new();
    let inr = Currency::new(String::from("Rs"), Rat::new(13, 1000));
    bank.add_account("A", &Rat::from_units(1000), &inr, "1111").unwrap();
    // 1000 INR = 13 canonical units
    let taken = bank.withdraw("A", &Rat::from_units(500), &inr, "1111").unwrap();
    assert!(taken.same_value(&Rat::new(65, 10)));
    assert!(bank.get_account("A", "1111").unwrap().balance().same_value(&Rat::new(65, 10)));
}

#[test]
fn transfer_to_self_keeps_the_value() {
    let mut bank = Bank::new();
    let cur = canonical();
    bank.add_account("A", &Rat::from_units(30), &cur, "1111").unwrap();
    bank.transfer("A", "A", &Rat::from_units(10), &cur, "1111").unwrap();
    assert!(bank.get_account("A", "1111").unwrap().balance().same_value(&Rat::from_units(30)));
}
