//! The account-closer instruction: sweep the balances of a list of accounts
//! into the upgrade authority's account.
use crate::account::{lamports_of, read_lamports, same_but_lamports, write_lamports, AccountInfo};
use crate::address::{
    derived_address, program_data_address, program_data_seeds, program_id, program_id_bytes,
    upgradeable_loader_id_bytes, Address,
};
use crate::error::{ErrorCode, ProgramError};
use vstd::prelude::*;

verus! {

/// The decoded contents of a program's program-data record.
#[derive(Clone, Copy, Debug)]
pub struct ProgramData {
    /// Slot in which the program was last deployed.
    pub slot: u64,
    /// The program's registered upgrade authority, if it can still be upgraded.
    pub upgrade_authority_address: Option<Address>,
}

/// The fixed accounts of the account-closer instruction.
#[derive(Clone, Copy, Debug)]
pub struct CloseAccounts {
    /// Position, among the instruction's accounts, of the recipient of the recovered lamports.
    pub upgrade_authority: usize,
    /// Address of the program-data record handed in.
    pub program_data_key: Address,
    /// Contents of that record.
    pub program_data: ProgramData,
}

/// Sum of `bal[k]` over the positions `k < n` that `list` names, each counted once.
pub open spec fn collected(bal: Seq<u64>, list: Seq<usize>, n: nat) -> nat
    decreases n,
{
    if n == 0 {
        0
    } else {
        let k = (n - 1) as nat;
        collected(bal, list, k) + if list.contains(k as usize) {
            bal[k as int] as nat
        } else {
            0
        }
    }
}

/// The lamports recovered from the accounts that `list` names.
pub open spec fn recovered(bal: Seq<u64>, list: Seq<usize>) -> nat {
    collected(bal, list, bal.len())
}

/// The recipient's balance before it is credited: zero when it is itself among the closed accounts.
pub open spec fn credit_base(bal: Seq<u64>, list: Seq<usize>, r: usize) -> nat {
    if list.contains(r) {
        0
    } else {
        bal[r as int] as nat
    }
}

/// Whether the recipient's new balance fits in 64 bits.
pub open spec fn sweep_fits(bal: Seq<u64>, list: Seq<usize>, r: usize) -> bool {
    credit_base(bal, list, r) + recovered(bal, list) <= u64::MAX
}

/// Balance of account `k` after the accounts `list` names are swept into account `r`.
pub open spec fn swept(bal: Seq<u64>, list: Seq<usize>, r: usize, k: int) -> int {
    if k == r {
        (credit_base(bal, list, r) + recovered(bal, list)) as int
    } else if list.contains(k as usize) {
        0
    } else {
        bal[k] as int
    }
}

/// Whether every position in `list` and `r` name one of `n` accounts.
pub open spec fn positions_valid(list: Seq<usize>, r: usize, n: int) -> bool {
    &&& r < n
    &&& forall|j: int| 0 <= j < list.len() ==> #[trigger] list[j] < n
}

/// Whether `key` is the registered upgrade authority in `data`.
pub open spec fn is_authority(data: ProgramData, key: Seq<u8>) -> bool {
    match data.upgrade_authority_address {
        Some(a) => a@ == key,
        None => false,
    }
}

/// Whether `key` is the address of this program's program-data record.
pub open spec fn is_program_data_key(key: Seq<u8>) -> bool {
    derived_address(program_data_seeds(program_id_bytes()), upgradeable_loader_id_bytes()) == Some(
        key,
    )
}

/// Whether the account at position `r` fails the upgrade-authority check.
pub open spec fn authority_rejected(
    accounts: Seq<AccountInfo>,
    ctx: CloseAccounts,
    enforce_authority: bool,
) -> bool {
    enforce_authority && !is_authority(ctx.program_data, accounts[ctx.upgrade_authority as int].key@)
}

proof fn lemma_collected_same_members(bal: Seq<u64>, l1: Seq<usize>, l2: Seq<usize>, n: nat)
    requires
        n <= bal.len(),
        forall|k: usize| (k as int) < n ==> (l1.contains(k) <==> l2.contains(k)),
    ensures
        collected(bal, l1, n) == collected(bal, l2, n),
    decreases n,
{
    if n > 0 {
        lemma_collected_same_members(bal, l1, l2, (n - 1) as nat);
    }
}

proof fn lemma_collected_push(bal: Seq<u64>, list: Seq<usize>, x: usize, n: nat)
    requires
        n <= bal.len(),
        n <= usize::MAX,
    ensures
        collected(bal, list.push(x), n) == collected(bal, list, n) + if !list.contains(x) && x < n {
            bal[x as int] as nat
        } else {
            0
        },
    decreases n,
{
    if n > 0 {
        lemma_collected_push(bal, list, x, (n - 1) as nat);
        let k = (n - 1) as usize;
        assert(list.push(x).contains(k) <==> (list.contains(k) || k == x)) by {
            if list.contains(k) {
                let i = choose|i: int| 0 <= i < list.len() && list[i] == k;
                assert(list.push(x)[i] == k);
            }
            if k == x {
                assert(list.push(x)[list.len() as int] == k);
            }
            if list.push(x).contains(k) {
                let i = choose|i: int| 0 <= i < list.push(x).len() && list.push(x)[i] == k;
                if i < list.len() {
                    assert(list[i] == k);
                }
            }
        }
    }
}

proof fn lemma_collected_none(bal: Seq<u64>, list: Seq<usize>, n: nat)
    requires
        n <= bal.len(),
        list.len() == 0,
    ensures
        collected(bal, list, n) == 0,
    decreases n,
{
    if n > 0 {
        lemma_collected_none(bal, list, (n - 1) as nat);
    }
}

proof fn lemma_collected_monotone(bal: Seq<u64>, l1: Seq<usize>, l2: Seq<usize>, n: nat)
    requires
        n <= bal.len(),
        forall|k: usize| l1.contains(k) ==> l2.contains(k),
    ensures
        collected(bal, l1, n) <= collected(bal, l2, n),
    decreases n,
{
    if n > 0 {
        lemma_collected_monotone(bal, l1, l2, (n - 1) as nat);
    }
}

/// Closes the accounts at the positions `remaining`: each one's balance goes
/// to zero and their sum is credited to the upgrade authority's account.
/// With `enforce_authority` the recipient must be the upgrade authority that
/// the program-data record registers; the record's own address is always
/// checked. Every error leaves all balances as they were.
pub fn close_accounts(
    accounts: &mut Vec<AccountInfo>,
    ctx: &CloseAccounts,
    remaining: &Vec<usize>,
    enforce_authority: bool,
) -> (r: Result<(), ProgramError>)
    requires
        positions_valid(remaining@, ctx.upgrade_authority, old(accounts).len() as int),
    ensures
        r == Err::<(), ProgramError>(ProgramError::Custom(ErrorCode::UpgradeAuthorityMismatch))
            <==> authority_rejected(old(accounts)@, *ctx, enforce_authority),
        r == Err::<(), ProgramError>(ProgramError::ConstraintSeeds) <==> !authority_rejected(
            old(accounts)@,
            *ctx,
            enforce_authority,
        ) && !is_program_data_key(ctx.program_data_key@),
        r == Err::<(), ProgramError>(ProgramError::ArithmeticOverflow) <==> !authority_rejected(
            old(accounts)@,
            *ctx,
            enforce_authority,
        ) && is_program_data_key(ctx.program_data_key@) && !sweep_fits(
            lamports_of(old(accounts)@),
            remaining@,
            ctx.upgrade_authority,
        ),
        r is Ok <==> !authority_rejected(old(accounts)@, *ctx, enforce_authority)
            && is_program_data_key(ctx.program_data_key@) && sweep_fits(
            lamports_of(old(accounts)@),
            remaining@,
            ctx.upgrade_authority,
        ),
        r is Err ==> *final(accounts) == *old(accounts),
        r is Ok ==> same_but_lamports(old(accounts)@, final(accounts)@),
        r is Ok ==> forall|k: int|
            0 <= k < old(accounts).len() ==> #[trigger] final(accounts)@[k].lamports == swept(
                lamports_of(old(accounts)@),
                remaining@,
                ctx.upgrade_authority,
                k,
            ),
{
    let ua = ctx.upgrade_authority;
    if enforce_authority {
        let ok = match &ctx.program_data.upgrade_authority_address {
            Some(a) => a.same_as(&accounts[ua].key),
            None => false,
        };
        if !ok {
            return Err(ProgramError::Custom(ErrorCode::UpgradeAuthorityMismatch));
        }
    }
    match program_data_address(&program_id()) {
        Some(a) => {
            if !a.same_as(&ctx.program_data_key) {
                return Err(ProgramError::ConstraintSeeds);
            }
        },
        None => {
            return Err(ProgramError::ConstraintSeeds);
        },
    }
    let ghost old_bal = lamports_of(accounts@);
    let ghost list = remaining@;
    let mut bal = read_lamports(accounts);
    let mut total: u64 = 0;
    let mut j: usize = 0;
    proof {
        lemma_collected_none(old_bal, list.subrange(0, 0), old_bal.len());
    }
    while j < remaining.len()
        invariant
            0 <= j <= remaining.len(),
            *accounts == *old(accounts),
            !authority_rejected(old(accounts)@, *ctx, enforce_authority),
            is_program_data_key(ctx.program_data_key@),
            list == remaining@,
            old_bal == lamports_of(accounts@),
            positions_valid(list, ua, old_bal.len() as int),
            bal.len() == old_bal.len(),
            forall|k: int|
                0 <= k < old_bal.len() ==> #[trigger] bal@[k] == if list.subrange(
                    0,
                    j as int,
                ).contains(k as usize) {
                    0
                } else {
                    old_bal[k]
                },
            total as nat == recovered(old_bal, list.subrange(0, j as int)),
        decreases remaining.len() - j,
    {
        let idx = remaining[j];
        let v = bal[idx];
        let ghost prefix = list.subrange(0, j as int);
        proof {
            lemma_collected_push(old_bal, prefix, idx, old_bal.len());
            assert(list.subrange(0, j + 1) =~= prefix.push(idx));
        }
        if v > u64::MAX - total {
            proof {
                assert forall|k: usize| prefix.push(idx).contains(k) implies list.contains(k) by {
                    let i = choose|i: int| 0 <= i < prefix.push(idx).len() && prefix.push(idx)[i] == k;
                    assert(list[i] == k);
                }
                lemma_collected_monotone(old_bal, prefix.push(idx), list, old_bal.len());
            }
            return Err(ProgramError::ArithmeticOverflow);
        }
        total = total + v;
        bal.set(idx, 0);
        j = j + 1;
        proof {
            assert forall|k: int| 0 <= k < old_bal.len() implies #[trigger] bal@[k] == if list.subrange(
                0,
                j as int,
            ).contains(k as usize) {
                0
            } else {
                old_bal[k]
            } by {
                let nl = list.subrange(0, j as int);
                if nl.contains(k as usize) && k != idx {
                    let i = choose|i: int| 0 <= i < nl.len() && nl[i] == k as usize;
                    assert(prefix[i] == k as usize);
                }
                if prefix.contains(k as usize) {
                    let i = choose|i: int| 0 <= i < prefix.len() && prefix[i] == k as usize;
                    assert(nl[i] == k as usize);
                }
                if k == idx {
                    assert(nl[j - 1] == idx);
                }
            }
        }
    }
    assert(list.subrange(0, j as int) =~= list);
    let base = bal[ua];
    if total > u64::MAX - base {
        return Err(ProgramError::ArithmeticOverflow);
    }
    bal.set(ua, base + total);
    write_lamports(accounts, &bal);
    assert forall|k: int| 0 <= k < old(accounts).len() implies #[trigger] accounts@[k].lamports == swept(
        old_bal,
        list,
        ua,
        k,
    ) by {
        assert(lamports_of(accounts@)[k] == bal@[k]);
    }
    Ok(())
}

} // verus!

verus! {

/// Sum of the balances at the positions in `list`, in list order, repeats counted again.
pub open spec fn listed_sum(bal: Seq<u64>, list: Seq<usize>) -> nat
    decreases list.len(),
{
    if list.len() == 0 {
        0
    } else {
        listed_sum(bal, list.drop_last()) + bal[list.last() as int] as nat
    }
}

proof fn lemma_push_contains(list: Seq<usize>, x: usize)
    ensures
        forall|k: usize| #[trigger] list.push(x).contains(k) <==> (list.contains(k) || k == x),
{
    assert forall|k: usize| #[trigger] list.push(x).contains(k) <==> (list.contains(k) || k == x) by {
        if list.contains(k) {
            let i = choose|i: int| 0 <= i < list.len() && list[i] == k;
            assert(list.push(x)[i] == k);
        }
        if k == x {
            assert(list.push(x)[list.len() as int] == k);
        }
        if list.push(x).contains(k) {
            let i = choose|i: int| 0 <= i < list.push(x).len() && list.push(x)[i] == k;
            if i < list.len() {
                assert(list[i] == k);
            }
        }
    }
}

proof fn lemma_recovered_distinct(bal: Seq<u64>, list: Seq<usize>)
    requires
        bal.len() <= usize::MAX,
        list.no_duplicates(),
        forall|j: int| 0 <= j < list.len() ==> #[trigger] list[j] < bal.len(),
    ensures
        recovered(bal, list) == listed_sum(bal, list),
    decreases list.len(),
{
    if list.len() == 0 {
        lemma_collected_none(bal, list, bal.len());
    } else {
        let init = list.drop_last();
        let x = list.last();
        assert(init.push(x) =~= list);
        assert forall|j: int| 0 <= j < init.len() implies #[trigger] init[j] < bal.len() by {
            assert(init[j] == list[j]);
        }
        assert(init.no_duplicates()) by {
            assert forall|i: int, j: int| 0 <= i < init.len() && 0 <= j < init.len() && i != j implies init[i]
                != init[j] by {
                assert(init[i] == list[i] && init[j] == list[j]);
            }
        }
        assert(!init.contains(x)) by {
            if init.contains(x) {
                let i = choose|i: int| 0 <= i < init.len() && init[i] == x;
                assert(list[i] == list[list.len() - 1]);
            }
        }
        lemma_recovered_distinct(bal, init);
        lemma_collected_push(bal, init, x, bal.len());
    }
}

/// Closing distinct accounts, none of them the recipient, leaves each of them
/// at zero, credits the recipient with exactly the sum of their balances and
/// leaves every other account as it was.
pub proof fn lemma_close_credits_sum(bal: Seq<u64>, list: Seq<usize>, r: usize)
    requires
        bal.len() <= usize::MAX,
        positions_valid(list, r, bal.len() as int),
        list.no_duplicates(),
        !list.contains(r),
    ensures
        swept(bal, list, r, r as int) == bal[r as int] + listed_sum(bal, list),
        forall|j: int| 0 <= j < list.len() ==> swept(bal, list, r, #[trigger] list[j] as int) == 0,
        forall|k: int|
            0 <= k < bal.len() && k != r && !list.contains(k as usize) ==> #[trigger] swept(
                bal,
                list,
                r,
                k,
            ) == bal[k],
{
    lemma_recovered_distinct(bal, list);
    assert forall|j: int| 0 <= j < list.len() implies swept(bal, list, r, #[trigger] list[j] as int) == 0 by {
        assert(list.contains(list[j]));
    }
}

/// Closing an empty list of accounts changes no balance.
pub proof fn lemma_close_empty_list(bal: Seq<u64>, r: usize)
    requires
        r < bal.len(),
    ensures
        sweep_fits(bal, Seq::<usize>::empty(), r),
        forall|k: int| 0 <= k < bal.len() ==> #[trigger] swept(bal, Seq::<usize>::empty(), r, k) == bal[k],
{
    lemma_collected_none(bal, Seq::<usize>::empty(), bal.len());
}

/// Adding an account whose balance is zero to the list adds nothing to the
/// recovered sum, leaves that account at zero and changes no final balance.
pub proof fn lemma_close_zero_balance(bal: Seq<u64>, list: Seq<usize>, r: usize, z: usize)
    requires
        bal.len() <= usize::MAX,
        positions_valid(list, r, bal.len() as int),
        z < bal.len(),
        bal[z as int] == 0,
    ensures
        recovered(bal, list.push(z)) == recovered(bal, list),
        swept(bal, list.push(z), r, z as int) == 0 || z == r,
        sweep_fits(bal, list.push(z), r) == sweep_fits(bal, list, r),
        forall|k: int| 0 <= k < bal.len() ==> #[trigger] swept(bal, list.push(z), r, k) == swept(bal, list, r, k),
{
    lemma_collected_push(bal, list, z, bal.len());
    lemma_push_contains(list, z);
}

/// The order of the closed accounts does not matter: any permutation of the
/// list gives the same final balances, the same recipient balance, and fails
/// on overflow exactly when the original order does.
pub proof fn lemma_close_order_independent(bal: Seq<u64>, l1: Seq<usize>, l2: Seq<usize>, r: usize)
    requires
        r < bal.len(),
        l1.to_multiset() == l2.to_multiset(),
    ensures
        recovered(bal, l1) == recovered(bal, l2),
        sweep_fits(bal, l1, r) == sweep_fits(bal, l2, r),
        forall|k: int| 0 <= k < bal.len() ==> #[trigger] swept(bal, l1, r, k) == swept(bal, l2, r, k),
{
    assert forall|k: usize| l1.contains(k) <==> l2.contains(k) by {
        l1.to_multiset_ensures();
        l2.to_multiset_ensures();
        assert(l1.contains(k) <==> l1.to_multiset().count(k) > 0);
        assert(l2.contains(k) <==> l2.to_multiset().count(k) > 0);
    }
    lemma_collected_same_members(bal, l1, l2, bal.len());
}

} // verus!
