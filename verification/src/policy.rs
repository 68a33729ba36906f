//! The two rules of the ledger: how a contribution merges into the record of
//! its contributor, and how the pool total is kept or derived.

use crate::error::ContractError;
use vstd::prelude::*;

verus! {

/// What happens to a contributor's record when they contribute again.
#[derive(Clone, Copy, Debug, PartialEq, Eq, Structural)]
pub enum RecordPolicy {
    /// The last contribution replaces the record.
    Overwrite,
    /// The contribution is added to the record.
    Accumulate,
}

/// The amount a record stands for: zero where there is none yet.
pub open spec fn prior_amount(prior: Option<u128>) -> nat {
    match prior {
        Some(amount) => amount as nat,
        None => 0,
    }
}

/// The sum of a sequence of amounts.
pub open spec fn sum_of(amounts: Seq<u128>) -> nat
    decreases amounts.len(),
{
    if amounts.len() == 0 {
        0
    } else {
        sum_of(amounts.drop_last()) + amounts.last() as nat
    }
}

/// The sum of a prefix never exceeds the sum of the whole.
pub proof fn lemma_sum_of_prefix(amounts: Seq<u128>, n: int)
    requires
        0 <= n <= amounts.len(),
    ensures
        sum_of(amounts.subrange(0, n)) <= sum_of(amounts),
    decreases amounts.len(),
{
    if n == amounts.len() {
        assert(amounts.subrange(0, n) =~= amounts);
    } else {
        assert(amounts.drop_last().subrange(0, n) =~= amounts.subrange(0, n));
        lemma_sum_of_prefix(amounts.drop_last(), n);
    }
}

impl RecordPolicy {
    /// The record after a contribution, as a number without a bound.
    pub open spec fn merged(self, prior: Option<u128>, submitted: u128) -> nat {
        match self {
            RecordPolicy::Overwrite => submitted as nat,
            RecordPolicy::Accumulate => prior_amount(prior) + submitted as nat,
        }
    }

    /// The new record of a contributor whose record was `prior` and who
    /// submits `submitted`. Fails where the new record is no amount.
    pub fn apply(self, prior: Option<u128>, submitted: u128) -> (r: Result<u128, ContractError>)
        ensures
            self.merged(prior, submitted) <= u128::MAX ==> r == Ok::<u128, ContractError>(
                self.merged(prior, submitted) as u128,
            ),
            self.merged(prior, submitted) > u128::MAX ==> r == Err::<u128, ContractError>(
                ContractError::ArithmeticOverflow,
            ),
            self == RecordPolicy::Accumulate && r is Ok ==> r.unwrap() >= submitted
                && r.unwrap() >= prior_amount(prior),
    {
        match self {
            RecordPolicy::Overwrite => Ok(submitted),
            RecordPolicy::Accumulate => {
                let before: u128 = match prior {
                    Some(amount) => amount,
                    None => 0,
                };
                match before.checked_add(submitted) {
                    Some(record) => Ok(record),
                    None => Err(ContractError::ArithmeticOverflow),
                }
            },
        }
    }
}

/// The running total after a contribution of `submitted`: the delta is the
/// submitted amount itself, whatever the contributor's record becomes.
pub fn on_contribute(current_total: u128, submitted: u128) -> (r: Result<u128, ContractError>)
    ensures
        current_total + submitted <= u128::MAX ==> r == Ok::<u128, ContractError>(
            (current_total + submitted) as u128,
        ),
        current_total + submitted > u128::MAX ==> r == Err::<u128, ContractError>(
            ContractError::ArithmeticOverflow,
        ),
{
    match current_total.checked_add(submitted) {
        Some(total) => Ok(total),
        None => Err(ContractError::ArithmeticOverflow),
    }
}

/// The aggregate total: the sum of every record, computed afresh.
pub fn recompute(all_records: &Vec<u128>) -> (r: Result<u128, ContractError>)
    ensures
        sum_of(all_records@) <= u128::MAX ==> r == Ok::<u128, ContractError>(
            sum_of(all_records@) as u128,
        ),
        sum_of(all_records@) > u128::MAX ==> r == Err::<u128, ContractError>(
            ContractError::ArithmeticOverflow,
        ),
{
    let mut total: u128 = 0;
    let mut i: usize = 0;
    while i < all_records.len()
        invariant
            i <= all_records.len(),
            total == sum_of(all_records@.subrange(0, i as int)),
        decreases all_records.len() - i,
    {
        proof {
            assert(all_records@.subrange(0, i + 1).drop_last() =~= all_records@.subrange(
                0,
                i as int,
            ));
            lemma_sum_of_prefix(all_records@, i + 1);
        }
        match total.checked_add(all_records[i]) {
            Some(next) => {
                total = next;
            },
            None => {
                return Err(ContractError::ArithmeticOverflow);
            },
        }
        i += 1;
    }
    proof {
        assert(all_records@.subrange(0, i as int) =~= all_records@);
    }
    Ok(total)
}

} // verus!
