use anchor_lang::solana_program::hash::hash;
use playground::address::system_program_id;
use playground::{
    counter_address, create_account1, create_account2, program_id, AccountInfo, Address, Counter,
    CreateAccount1, CreateAccount2, ProgramError,
};

const RENT: u64 = 1_000;

fn payer(lamports: u64) -> AccountInfo {
    AccountInfo { key: Address::new([5u8; 32]), owner: system_program_id(), lamports, data: Vec::new() }
}

fn blank(key: Address) -> AccountInfo {
    AccountInfo { key, owner: system_program_id(), lamports: 0, data: Vec::new() }
}

fn setup(key: u64, funds: u64) -> Vec<AccountInfo> {
    vec![payer(funds), blank(counter_address(&program_id(), key).unwrap())]
}

#[test]
fn discriminator_is_hash_prefix() {
    let digest = hash(b"account:Counter").to_bytes();
    let bytes = Counter { counter: 0 }.to_bytes();
    assert_eq!(&bytes[..8], &digest[..8]);
}

#[test]
fn counter_bytes_layout() {
    let bytes = Counter { counter: 0x0102030405060708 }.to_bytes();
    assert_eq!(bytes, vec![255, 176, 4, 245, 188, 253, 124, 25, 8, 7, 6, 5, 4, 3, 2, 1]);
}

#[test]
fn counter_round_trip() {
    for v in [0u64, 1, 2, 255, 256, u64::MAX] {
        let c = Counter { counter: v };
        assert_eq!(Counter::try_deserialize(&c.to_bytes()), Ok(c));
    }
}

#[test]
fn counter_read_errors() {
    assert_eq!(Counter::try_deserialize(&vec![255, 176, 4]), Err(ProgramError::AccountDiscriminatorNotFound));
    let mut bad = Counter { counter: 1 }.to_bytes();
    bad[0] = 0;
    assert_eq!(Counter::try_deserialize(&bad), Err(ProgramError::AccountDiscriminatorMismatch));
    let short = Counter { counter: 1 }.to_bytes()[..12].to_vec();
    assert_eq!(Counter::try_deserialize(&short), Err(ProgramError::AccountDidNotDeserialize));
}

#[test]
fn create_account1_stores_one() {
    let mut accounts = setup(1, 5_000);
    let r = create_account1(&mut accounts, &CreateAccount1 { payer: 0, counter: 1 }, RENT);
    assert_eq!(r, Ok(()));
    assert_eq!(Counter::try_deserialize(&accounts[1].data), Ok(Counter { counter: 1 }));
    assert_eq!(accounts[1].data.len(), 16);
    assert_eq!(accounts[1].owner, program_id());
    assert_eq!(accounts[1].lamports, RENT);
    assert_eq!(accounts[0].lamports, 4_000);
}

#[test]
fn create_account2_stores_two() {
    let mut accounts = setup(2, 5_000);
    let r = create_account2(&mut accounts, &CreateAccount2 { payer: 0, counter: 1 }, RENT);
    assert_eq!(r, Ok(()));
    assert_eq!(Counter::try_deserialize(&accounts[1].data), Ok(Counter { counter: 2 }));
}

#[test]
fn create_account1_twice_fails() {
    let mut accounts = setup(1, 5_000);
    let ctx = CreateAccount1 { payer: 0, counter: 1 };
    assert_eq!(create_account1(&mut accounts, &ctx, RENT), Ok(()));
    let data = accounts[1].data.clone();
    let r = create_account1(&mut accounts, &ctx, RENT);
    assert_eq!(r, Err(ProgramError::AccountAlreadyInUse));
    assert_eq!(accounts[1].data, data);
    assert_eq!(accounts[0].lamports, 4_000);
    assert_eq!(Counter::try_deserialize(&accounts[1].data), Ok(Counter { counter: 1 }));
}

#[test]
fn create_account2_at_key_one_address_fails() {
    let mut accounts = setup(1, 5_000);
    let r = create_account2(&mut accounts, &CreateAccount2 { payer: 0, counter: 1 }, RENT);
    assert_eq!(r, Err(ProgramError::ConstraintSeeds));
    assert!(accounts[1].data.is_empty());
}

#[test]
fn create_account1_insufficient_funds() {
    let mut accounts = setup(1, 999);
    let r = create_account1(&mut accounts, &CreateAccount1 { payer: 0, counter: 1 }, RENT);
    assert_eq!(r, Err(ProgramError::InsufficientFunds));
    assert_eq!(accounts[0].lamports, 999);
    assert!(accounts[1].data.is_empty());
}

#[test]
fn create_account1_tops_up_prefunded_account() {
    let mut accounts = setup(1, 5_000);
    accounts[1].lamports = 400;
    let r = create_account1(&mut accounts, &CreateAccount1 { payer: 0, counter: 1 }, RENT);
    assert_eq!(r, Ok(()));
    assert_eq!(accounts[1].lamports, RENT);
    assert_eq!(accounts[0].lamports, 4_400);
}

#[test]
fn create_account1_owned_elsewhere_is_in_use() {
    let mut accounts = setup(1, 5_000);
    accounts[1].owner = Address::new([8u8; 32]);
    let r = create_account1(&mut accounts, &CreateAccount1 { payer: 0, counter: 1 }, RENT);
    assert_eq!(r, Err(ProgramError::AccountAlreadyInUse));
}

#[test]
fn create_account1_payer_as_record_fails() {
    let mut accounts = setup(1, 5_000);
    let r = create_account1(&mut accounts, &CreateAccount1 { payer: 1, counter: 1 }, RENT);
    assert_eq!(r, Err(ProgramError::PayerIsNewAccount));
}
