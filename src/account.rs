//! The accounts an instruction sees.
use crate::address::Address;
use vstd::prelude::*;

verus! {

/// One account handed to an instruction: its address, owning program,
/// balance in lamports and stored bytes.
#[derive(Debug)]
pub struct AccountInfo {
    pub key: Address,
    pub owner: Address,
    pub lamports: u64,
    pub data: Vec<u8>,
}

/// The balances of a list of accounts.
pub open spec fn lamports_of(accounts: Seq<AccountInfo>) -> Seq<u64> {
    accounts.map_values(|a: AccountInfo| a.lamports)
}

/// Whether `after` differs from `before` in balances only.
pub open spec fn same_but_lamports(before: Seq<AccountInfo>, after: Seq<AccountInfo>) -> bool {
    &&& after.len() == before.len()
    &&& forall|k: int|
        0 <= k < before.len() ==> {
            &&& #[trigger] after[k].key == before[k].key
            &&& after[k].owner == before[k].owner
            &&& after[k].data@ == before[k].data@
        }
}

/// Reads every balance of `accounts`, in order.
pub fn read_lamports(accounts: &Vec<AccountInfo>) -> (r: Vec<u64>)
    ensures
        r@ == lamports_of(accounts@),
{
    let mut r: Vec<u64> = Vec::new();
    let mut k: usize = 0;
    while k < accounts.len()
        invariant
            0 <= k <= accounts.len(),
            r@ == lamports_of(accounts@).subrange(0, k as int),
        decreases accounts.len() - k,
    {
        r.push(accounts[k].lamports);
        k = k + 1;
        assert(r@ =~= lamports_of(accounts@).subrange(0, k as int));
    }
    assert(r@ =~= lamports_of(accounts@));
    r
}

/// Overwrites every balance of `accounts` with the one at the same position of `balances`.
pub fn write_lamports(accounts: &mut Vec<AccountInfo>, balances: &Vec<u64>)
    requires
        balances.len() == old(accounts).len(),
    ensures
        same_but_lamports(old(accounts)@, final(accounts)@),
        lamports_of(final(accounts)@) == balances@,
{
    let mut k: usize = 0;
    while k < accounts.len()
        invariant
            0 <= k <= accounts.len(),
            balances.len() == accounts.len(),
            same_but_lamports(old(accounts)@, accounts@),
            forall|j: int| 0 <= j < k ==> #[trigger] accounts@[j].lamports == balances@[j],
            forall|j: int| k <= j < accounts.len() ==> #[trigger] accounts@[j].lamports == old(accounts)@[j].lamports,
        decreases accounts.len() - k,
    {
        accounts[k].lamports = balances[k];
        k = k + 1;
    }
    assert(lamports_of(accounts@) =~= balances@);
}

} // verus!
