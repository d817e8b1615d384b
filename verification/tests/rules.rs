use liquid_zero_dog_token::steps::{balance_or_zero, credit, debit};
use liquid_zero_dog_token::{AccountId, Balance, Error};

#[test]
fn a_missing_entry_reads_as_zero() {
    assert_eq!(balance_or_zero(None), 0);
    assert_eq!(balance_or_zero(Some(0)), 0);
    assert_eq!(balance_or_zero(Some(42)), 42);
    assert_eq!(balance_or_zero(Some(Balance::MAX)), Balance::MAX);
}

#[test]
fn debit_leaves_the_difference() {
    assert_eq!(debit(100, 10), Ok(90));
    assert_eq!(debit(100, 100), Ok(0));
    assert_eq!(debit(100, 0), Ok(100));
    assert_eq!(debit(0, 0), Ok(0));
    assert_eq!(debit(Balance::MAX, 1), Ok(Balance::MAX - 1));
}

#[test]
fn debit_beyond_the_balance_is_refused() {
    assert_eq!(debit(10, 50), Err(Error::InsufficientBalance));
    assert_eq!(debit(0, 1), Err(Error::InsufficientBalance));
    assert_eq!(debit(Balance::MAX - 1, Balance::MAX), Err(Error::InsufficientBalance));
}

#[test]
fn credit_adds_the_value() {
    assert_eq!(credit(0, 10), 10);
    assert_eq!(credit(90, 10), 100);
    assert_eq!(credit(7, 0), 7);
    assert_eq!(credit(Balance::MAX - 1, 1), Balance::MAX);
}

#[test]
fn accounts_are_equal_when_their_bytes_are() {
    let mut bytes = [0x05; 32];
    assert_eq!(AccountId::new(bytes), AccountId::new([0x05; 32]));
    assert_eq!(AccountId::new(bytes).bytes, [0x05; 32]);
    bytes[31] = 0x06;
    assert_ne!(AccountId::new(bytes), AccountId::new([0x05; 32]));
    bytes[31] = 0x05;
    bytes[0] = 0x04;
    assert_ne!(AccountId::new(bytes), AccountId::new([0x05; 32]));
}
