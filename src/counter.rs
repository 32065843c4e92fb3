//! Counter records: their byte layout, their derived addresses, and the two
//! instructions that create them.
use crate::account::AccountInfo;
use crate::address::{
    derived_address, find_address, program_id, program_id_bytes, system_program_id, Address,
};
use crate::error::ProgramError;
use vstd::prelude::*;

verus! {

/// A counter record's contents.
#[derive(Clone, Copy, Debug, PartialEq, Eq, Structural)]
pub struct Counter {
    pub counter: u64,
}

/// The tag that opens every counter record: the first 8 bytes of the SHA-256
/// digest of `account:Counter`.
pub open spec fn counter_discriminator() -> Seq<u8> {
    seq![255u8, 176, 4, 245, 188, 253, 124, 25]
}

/// The little-endian bytes of `v`.
pub open spec fn le_bytes(v: u64) -> Seq<u8> {
    Seq::new(8, |i: int| ((v >> (8 * i) as u64) & 0xff) as u8)
}

/// The big-endian bytes of `v`.
pub open spec fn be_bytes(v: u64) -> Seq<u8> {
    Seq::new(8, |i: int| ((v >> (56 - 8 * i) as u64) & 0xff) as u8)
}

/// The value whose little-endian bytes are `b[0..8]`.
pub open spec fn le_value(b: Seq<u8>) -> u64 {
    (b[0] as u64) | ((b[1] as u64) << 8u64) | ((b[2] as u64) << 16u64) | ((b[3] as u64) << 24u64) | ((
    b[4] as u64) << 32u64) | ((b[5] as u64) << 40u64) | ((b[6] as u64) << 48u64) | ((b[7] as u64)
        << 56u64)
}

/// The stored bytes of a counter record holding `value`.
pub open spec fn counter_record(value: u64) -> Seq<u8> {
    counter_discriminator() + le_bytes(value)
}

/// What reading a counter record out of `data` gives.
pub open spec fn decode_counter(data: Seq<u8>) -> Result<u64, ProgramError> {
    if data.len() < 8 {
        Err(ProgramError::AccountDiscriminatorNotFound)
    } else if data.subrange(0, 8) != counter_discriminator() {
        Err(ProgramError::AccountDiscriminatorMismatch)
    } else if data.len() < 16 {
        Err(ProgramError::AccountDidNotDeserialize)
    } else {
        Ok(le_value(data.subrange(8, 16)))
    }
}

fn discriminator() -> (r: Vec<u8>)
    ensures
        r@ == counter_discriminator(),
{
    let r: Vec<u8> = vec![255u8, 176, 4, 245, 188, 253, 124, 25];
    assert(r@ =~= counter_discriminator());
    r
}

fn byte_at(v: u64, shift: u64) -> (r: u8)
    requires
        shift < 64,
    ensures
        r == ((v >> shift) & 0xff) as u8,
{
    ((v >> shift) & 0xff) as u8
}

impl Counter {
    /// The record bytes that hold this counter.
    pub fn to_bytes(&self) -> (r: Vec<u8>)
        ensures
            r@ == counter_record(self.counter),
    {
        let mut r = discriminator();
        let mut i: u64 = 0;
        while i < 8
            invariant
                0 <= i <= 8,
                r@ == counter_discriminator() + le_bytes(self.counter).subrange(0, i as int),
            decreases 8 - i,
        {
            r.push(byte_at(self.counter, 8 * i));
            i = i + 1;
            assert(r@ =~= counter_discriminator() + le_bytes(self.counter).subrange(0, i as int));
        }
        assert(le_bytes(self.counter).subrange(0, 8) =~= le_bytes(self.counter));
        r
    }

    /// Reads a counter record: its discriminator must be the counter's, and
    /// the value follows it.
    pub fn try_deserialize(data: &Vec<u8>) -> (r: Result<Counter, ProgramError>)
        ensures
            match r {
                Ok(c) => decode_counter(data@) == Ok::<u64, ProgramError>(c.counter),
                Err(e) => decode_counter(data@) == Err::<u64, ProgramError>(e),
            },
    {
        if data.len() < 8 {
            return Err(ProgramError::AccountDiscriminatorNotFound);
        }
        let disc = discriminator();
        let mut i: usize = 0;
        while i < 8
            invariant
                0 <= i <= 8,
                data@.len() >= 8,
                disc@ == counter_discriminator(),
                forall|j: int| 0 <= j < i ==> data@[j] == disc@[j],
            decreases 8 - i,
        {
            if data[i] != disc[i] {
                assert(data@.subrange(0, 8)[i as int] != counter_discriminator()[i as int]);
                return Err(ProgramError::AccountDiscriminatorMismatch);
            }
            i = i + 1;
        }
        assert(data@.subrange(0, 8) =~= counter_discriminator());
        if data.len() < 16 {
            return Err(ProgramError::AccountDidNotDeserialize);
        }
        let v: u64 = (data[8] as u64) | ((data[9] as u64) << 8u64) | ((data[10] as u64) << 16u64) | ((
        data[11] as u64) << 24u64) | ((data[12] as u64) << 32u64) | ((data[13] as u64) << 40u64) | ((
        data[14] as u64) << 48u64) | ((data[15] as u64) << 56u64);
        assert(v == le_value(data@.subrange(8, 16)));
        Ok(Counter { counter: v })
    }
}

/// The seeds of the counter record for `key`: the bytes of `counter`, then
/// the big-endian bytes of `key`.
pub open spec fn counter_seeds(key: u64) -> Seq<Seq<u8>> {
    seq![seq![99u8, 111, 117, 110, 116, 101, 114], be_bytes(key)]
}

fn seeds_for(key: u64) -> (r: Vec<Vec<u8>>)
    ensures
        crate::address::seeds_view(r@) == counter_seeds(key),
{
    let tag: Vec<u8> = vec![99u8, 111, 117, 110, 116, 101, 114];
    let mut be: Vec<u8> = Vec::new();
    let mut i: u64 = 0;
    while i < 8
        invariant
            0 <= i <= 8,
            be@ == be_bytes(key).subrange(0, i as int),
        decreases 8 - i,
    {
        be.push(byte_at(key, 56 - 8 * i));
        i = i + 1;
        assert(be@ =~= be_bytes(key).subrange(0, i as int));
    }
    assert(be@ =~= be_bytes(key));
    let r: Vec<Vec<u8>> = vec![tag, be];
    assert(crate::address::seeds_view(r@) =~= counter_seeds(key));
    r
}

/// The address of the counter record for `key` under `program`, if one exists.
pub fn counter_address(program: &Address, key: u64) -> (r: Option<Address>)
    ensures
        match r {
            Some(a) => derived_address(counter_seeds(key), program@) == Some(a@),
            None => derived_address(counter_seeds(key), program@) is None,
        },
{
    find_address(&seeds_for(key), program)
}

} // verus!

verus! {

proof fn lemma_le_value_of_bytes(v: u64)
    ensures
        le_value(le_bytes(v)) == v,
{
    let b = le_bytes(v);
    assert forall|i: int| 0 <= i < 8 implies #[trigger] (b[i] as u64) == (v >> (8 * i) as u64) & 0xff by {
        let s = (8 * i) as u64;
        assert(((v >> s) & 0xff) < 256) by (bit_vector);
    }
    assert(b[0] as u64 == (v >> 0u64) & 0xff);
    assert(b[1] as u64 == (v >> 8u64) & 0xff);
    assert(b[2] as u64 == (v >> 16u64) & 0xff);
    assert(b[3] as u64 == (v >> 24u64) & 0xff);
    assert(b[4] as u64 == (v >> 32u64) & 0xff);
    assert(b[5] as u64 == (v >> 40u64) & 0xff);
    assert(b[6] as u64 == (v >> 48u64) & 0xff);
    assert(b[7] as u64 == (v >> 56u64) & 0xff);
    assert(v == ((v >> 0u64) & 0xff) | (((v >> 8u64) & 0xff) << 8u64) | (((v >> 16u64) & 0xff) << 16u64)
        | (((v >> 24u64) & 0xff) << 24u64) | (((v >> 32u64) & 0xff) << 32u64) | (((v >> 40u64) & 0xff)
        << 40u64) | (((v >> 48u64) & 0xff) << 48u64) | (((v >> 56u64) & 0xff) << 56u64)) by (bit_vector);
}

/// Reading back the record of a counter gives the value it was written with.
pub proof fn lemma_counter_round_trip(value: u64)
    ensures
        decode_counter(counter_record(value)) == Ok::<u64, ProgramError>(value),
{
    let d = counter_record(value);
    assert(d.subrange(0, 8) =~= counter_discriminator());
    assert(d.subrange(8, 16) =~= le_bytes(value));
    lemma_le_value_of_bytes(value);
}

} // verus!

verus! {

/// The fixed accounts of the instruction that creates the record for key 1,
/// as positions among the instruction's accounts.
#[derive(Clone, Copy, Debug)]
pub struct CreateAccount1 {
    /// The account that funds the new record.
    pub payer: usize,
    /// The account that becomes the record for key 1.
    pub counter: usize,
}

/// The fixed accounts of the instruction that creates the record for key 2.
#[derive(Clone, Copy, Debug)]
pub struct CreateAccount2 {
    /// The account that funds the new record.
    pub payer: usize,
    /// The account that becomes the record for key 2.
    pub counter: usize,
}

/// Whether `a` already holds data or belongs to a program other than the system program.
pub open spec fn in_use(a: AccountInfo) -> bool {
    a.data@.len() != 0 || a.owner@ != crate::address::system_program_id_bytes()
}

/// Lamports the payer must add so that `a` holds at least `rent`.
pub open spec fn rent_due(a: AccountInfo, rent: u64) -> nat {
    if a.lamports >= rent {
        0
    } else {
        (rent - a.lamports) as nat
    }
}

/// The error, if any, of creating the counter record for `key` at position
/// `target`, funded by the account at position `payer`.
pub open spec fn create_error(
    accounts: Seq<AccountInfo>,
    payer: usize,
    target: usize,
    key: u64,
    rent: u64,
) -> Option<ProgramError> {
    if derived_address(counter_seeds(key), program_id_bytes()) != Some(accounts[target as int].key@) {
        Some(ProgramError::ConstraintSeeds)
    } else if in_use(accounts[target as int]) {
        Some(ProgramError::AccountAlreadyInUse)
    } else if payer == target {
        Some(ProgramError::PayerIsNewAccount)
    } else if accounts[payer as int].lamports < rent_due(accounts[target as int], rent) {
        Some(ProgramError::InsufficientFunds)
    } else {
        None
    }
}

/// Whether `after` is `before` with a counter record holding `value` created
/// at position `target`, funded to `rent` by the account at position `payer`.
pub open spec fn counter_created(
    before: Seq<AccountInfo>,
    after: Seq<AccountInfo>,
    payer: usize,
    target: usize,
    value: u64,
    rent: u64,
) -> bool {
    let due = rent_due(before[target as int], rent);
    &&& after.len() == before.len()
    &&& forall|k: int| 0 <= k < before.len() && k != payer && k != target ==> #[trigger] after[k] == before[k]
    &&& after[payer as int].key == before[payer as int].key
    &&& after[payer as int].owner == before[payer as int].owner
    &&& after[payer as int].data@ == before[payer as int].data@
    &&& after[payer as int].lamports == before[payer as int].lamports - due
    &&& after[target as int].key == before[target as int].key
    &&& after[target as int].owner@ == program_id_bytes()
    &&& after[target as int].data@ == counter_record(value)
    &&& after[target as int].lamports == before[target as int].lamports + due
}

/// Creates, at position `target`, the counter record for `key` holding
/// `value`: the account must sit at the address derived from the key, be
/// unused, and be funded to `rent` by the payer.
fn init_counter(
    accounts: &mut Vec<AccountInfo>,
    payer: usize,
    target: usize,
    key: u64,
    value: u64,
    rent: u64,
) -> (r: Result<(), ProgramError>)
    requires
        payer < old(accounts).len(),
        target < old(accounts).len(),
    ensures
        match r {
            Ok(()) => create_error(old(accounts)@, payer, target, key, rent) is None && counter_created(
                old(accounts)@,
                final(accounts)@,
                payer,
                target,
                value,
                rent,
            ),
            Err(e) => create_error(old(accounts)@, payer, target, key, rent) == Some(e)
                && *final(accounts) == *old(accounts),
        },
{
    match counter_address(&program_id(), key) {
        Some(a) => {
            if !a.same_as(&accounts[target].key) {
                return Err(ProgramError::ConstraintSeeds);
            }
        },
        None => {
            return Err(ProgramError::ConstraintSeeds);
        },
    }
    if accounts[target].data.len() != 0 || !accounts[target].owner.same_as(&system_program_id()) {
        return Err(ProgramError::AccountAlreadyInUse);
    }
    if payer == target {
        return Err(ProgramError::PayerIsNewAccount);
    }
    let held = accounts[target].lamports;
    let due: u64 = if held >= rent {
        0
    } else {
        rent - held
    };
    if accounts[payer].lamports < due {
        return Err(ProgramError::InsufficientFunds);
    }
    let record = Counter { counter: value }.to_bytes();
    accounts[payer].lamports = accounts[payer].lamports - due;
    accounts[target].lamports = held + due;
    accounts[target].owner = program_id();
    accounts[target].data = record;
    Ok(())
}

/// Creates the counter record for key 1 and stores 1 in it.
pub fn create_account1(accounts: &mut Vec<AccountInfo>, ctx: &CreateAccount1, rent: u64) -> (r: Result<
    (),
    ProgramError,
>)
    requires
        ctx.payer < old(accounts).len(),
        ctx.counter < old(accounts).len(),
    ensures
        match r {
            Ok(()) => create_error(old(accounts)@, ctx.payer, ctx.counter, 1, rent) is None
                && counter_created(old(accounts)@, final(accounts)@, ctx.payer, ctx.counter, 1, rent),
            Err(e) => create_error(old(accounts)@, ctx.payer, ctx.counter, 1, rent) == Some(e)
                && *final(accounts) == *old(accounts),
        },
{
    init_counter(accounts, ctx.payer, ctx.counter, 1, 1, rent)
}

/// Creates the counter record for key 2 and stores 2 in it.
pub fn create_account2(accounts: &mut Vec<AccountInfo>, ctx: &CreateAccount2, rent: u64) -> (r: Result<
    (),
    ProgramError,
>)
    requires
        ctx.payer < old(accounts).len(),
        ctx.counter < old(accounts).len(),
    ensures
        match r {
            Ok(()) => create_error(old(accounts)@, ctx.payer, ctx.counter, 2, rent) is None
                && counter_created(old(accounts)@, final(accounts)@, ctx.payer, ctx.counter, 2, rent),
            Err(e) => create_error(old(accounts)@, ctx.payer, ctx.counter, 2, rent) == Some(e)
                && *final(accounts) == *old(accounts),
        },
{
    init_counter(accounts, ctx.payer, ctx.counter, 2, 2, rent)
}

/// Once a counter record has been created, creating it again at the same
/// derived address fails because the account is in use, whoever pays; the
/// failed attempt changes nothing, so the first record stays as it was.
pub proof fn lemma_create_twice_fails(
    before: Seq<AccountInfo>,
    after: Seq<AccountInfo>,
    payer: usize,
    target: usize,
    key: u64,
    value: u64,
    rent: u64,
    payer2: usize,
    rent2: u64,
)
    requires
        payer < before.len(),
        target < before.len(),
        create_error(before, payer, target, key, rent) is None,
        counter_created(before, after, payer, target, value, rent),
    ensures
        create_error(after, payer2, target, key, rent2) == Some(ProgramError::AccountAlreadyInUse),
{
    assert(counter_record(value).len() == 16);
}

/// A created counter record reads back as the value it was created with.
pub proof fn lemma_created_counter_value(
    before: Seq<AccountInfo>,
    after: Seq<AccountInfo>,
    payer: usize,
    target: usize,
    value: u64,
    rent: u64,
)
    requires
        counter_created(before, after, payer, target, value, rent),
    ensures
        decode_counter(after[target as int].data@) == Ok::<u64, ProgramError>(value),
{
    lemma_counter_round_trip(value);
}

} // verus!
