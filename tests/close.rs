use playground::address::system_program_id;
use playground::{
    close_accounts, program_data_address, program_id, AccountInfo, Address, CloseAccounts, ErrorCode,
    ProgramData, ProgramError,
};

fn addr(tag: u8) -> Address {
    let mut b = [0u8; 32];
    b[0] = tag;
    b[31] = 7;
    Address::new(b)
}

fn wallet(tag: u8, lamports: u64) -> AccountInfo {
    AccountInfo { key: addr(tag), owner: system_program_id(), lamports, data: Vec::new() }
}

fn store(balances: &[u64]) -> Vec<AccountInfo> {
    balances.iter().enumerate().map(|(i, b)| wallet(i as u8 + 1, *b)).collect()
}

fn lamports(accounts: &[AccountInfo]) -> Vec<u64> {
    accounts.iter().map(|a| a.lamports).collect()
}

fn ctx(recipient: usize, authority: Option<Address>) -> CloseAccounts {
    CloseAccounts {
        upgrade_authority: recipient,
        program_data_key: program_data_address(&program_id()).unwrap(),
        program_data: ProgramData { slot: 42, upgrade_authority_address: authority },
    }
}

#[test]
fn close_sweeps_every_listed_balance() {
    let mut accounts = store(&[100, 10, 20, 30, 5]);
    let c = ctx(0, None);
    let r = close_accounts(&mut accounts, &c, &vec![1, 2, 3], false);
    assert_eq!(r, Ok(()));
    assert_eq!(lamports(&accounts), vec![160, 0, 0, 0, 5]);
}

#[test]
fn close_empty_list_changes_nothing() {
    let mut accounts = store(&[100, 10]);
    let r = close_accounts(&mut accounts, &ctx(0, None), &Vec::new(), false);
    assert_eq!(r, Ok(()));
    assert_eq!(lamports(&accounts), vec![100, 10]);
}

#[test]
fn close_zero_balance_account_adds_nothing() {
    let mut with_zero = store(&[100, 10, 0]);
    let mut without = store(&[100, 10, 0]);
    assert_eq!(close_accounts(&mut with_zero, &ctx(0, None), &vec![1, 2], false), Ok(()));
    assert_eq!(close_accounts(&mut without, &ctx(0, None), &vec![1], false), Ok(()));
    assert_eq!(lamports(&with_zero), vec![110, 0, 0]);
    assert_eq!(lamports(&with_zero), lamports(&without));
}

#[test]
fn close_order_does_not_matter() {
    let mut a = store(&[1, 2, 3, 4]);
    let mut b = store(&[1, 2, 3, 4]);
    assert_eq!(close_accounts(&mut a, &ctx(0, None), &vec![1, 2, 3], false), Ok(()));
    assert_eq!(close_accounts(&mut b, &ctx(0, None), &vec![3, 1, 2], false), Ok(()));
    assert_eq!(lamports(&a), vec![10, 0, 0, 0]);
    assert_eq!(lamports(&a), lamports(&b));
}

#[test]
fn close_repeated_account_counts_once() {
    let mut accounts = store(&[1, 50]);
    assert_eq!(close_accounts(&mut accounts, &ctx(0, None), &vec![1, 1, 1], false), Ok(()));
    assert_eq!(lamports(&accounts), vec![51, 0]);
}

#[test]
fn close_recipient_in_list_keeps_its_own_balance() {
    let mut accounts = store(&[7, 50]);
    assert_eq!(close_accounts(&mut accounts, &ctx(0, None), &vec![0, 1], false), Ok(()));
    assert_eq!(lamports(&accounts), vec![57, 0]);
}

#[test]
fn close_enforced_authority_mismatch_fails_without_change() {
    let mut accounts = store(&[100, 10, 20]);
    let c = ctx(0, Some(addr(9)));
    let r = close_accounts(&mut accounts, &c, &vec![1, 2], true);
    assert_eq!(r, Err(ProgramError::Custom(ErrorCode::UpgradeAuthorityMismatch)));
    assert_eq!(lamports(&accounts), vec![100, 10, 20]);
}

#[test]
fn close_enforced_authority_missing_fails() {
    let mut accounts = store(&[100, 10]);
    let r = close_accounts(&mut accounts, &ctx(0, None), &vec![1], true);
    assert_eq!(r, Err(ProgramError::Custom(ErrorCode::UpgradeAuthorityMismatch)));
    assert_eq!(lamports(&accounts), vec![100, 10]);
}

#[test]
fn close_enforced_authority_match_succeeds() {
    let mut accounts = store(&[100, 10]);
    let c = ctx(0, Some(addr(1)));
    assert_eq!(close_accounts(&mut accounts, &c, &vec![1], true), Ok(()));
    assert_eq!(lamports(&accounts), vec![110, 0]);
}

#[test]
fn close_unenforced_authority_mismatch_succeeds() {
    let mut accounts = store(&[100, 10]);
    let c = ctx(0, Some(addr(9)));
    assert_eq!(close_accounts(&mut accounts, &c, &vec![1], false), Ok(()));
    assert_eq!(lamports(&accounts), vec![110, 0]);
}

#[test]
fn close_wrong_program_data_address_fails() {
    let mut accounts = store(&[100, 10]);
    let mut c = ctx(0, None);
    c.program_data_key = addr(3);
    assert_eq!(close_accounts(&mut accounts, &c, &vec![1], false), Err(ProgramError::ConstraintSeeds));
    assert_eq!(lamports(&accounts), vec![100, 10]);
}

#[test]
fn close_program_id_as_program_data_address_fails() {
    let mut accounts = store(&[100, 10]);
    let mut c = ctx(0, None);
    c.program_data_key = program_id();
    assert_eq!(close_accounts(&mut accounts, &c, &vec![1], false), Err(ProgramError::ConstraintSeeds));
}

#[test]
fn close_overflowing_sum_fails_without_change() {
    let mut accounts = store(&[1, u64::MAX, 0]);
    let r = close_accounts(&mut accounts, &ctx(0, None), &vec![1, 2], false);
    assert_eq!(r, Err(ProgramError::ArithmeticOverflow));
    assert_eq!(lamports(&accounts), vec![1, u64::MAX, 0]);
}

#[test]
fn close_overflowing_accumulator_fails_without_change() {
    let mut accounts = store(&[0, u64::MAX, 1]);
    let r = close_accounts(&mut accounts, &ctx(0, None), &vec![1, 2], false);
    assert_eq!(r, Err(ProgramError::ArithmeticOverflow));
    assert_eq!(lamports(&accounts), vec![0, u64::MAX, 1]);
}

#[test]
fn close_largest_sum_that_fits() {
    let mut accounts = store(&[1, u64::MAX - 3, 2]);
    assert_eq!(close_accounts(&mut accounts, &ctx(0, None), &vec![1, 2], false), Ok(()));
    assert_eq!(lamports(&accounts), vec![u64::MAX, 0, 0]);
}

#[test]
fn close_keeps_keys_and_data() {
    let mut accounts = store(&[5, 6]);
    accounts[1].data = vec![1, 2, 3];
    assert_eq!(close_accounts(&mut accounts, &ctx(0, None), &vec![1], false), Ok(()));
    assert_eq!(accounts[1].data, vec![1, 2, 3]);
    assert_eq!(accounts[1].key, addr(2));
    assert_eq!(accounts[0].lamports, 11);
}
