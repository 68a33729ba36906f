//! What holds of the ledger over any run of calls.
//!
//! The laws speak of what a store holds before and after a call, as the
//! contracts of the calls do. A call that is turned down leaves the store as
//! it was, so a run below lists the accepted contributions only.

use crate::contract::contributed;
use crate::contract::contribution;
use crate::contract::instantiated;
use crate::contract::total_reading;
use crate::error::ErrorKind;
use crate::policy::prior_amount;
use crate::state::aggregate;
use crate::state::consistent;
use crate::state::lemma_layout;
use crate::state::lemma_record_key_injective;
use crate::state::lemma_rest_of_key;
use crate::state::no_records;
use crate::state::record_amounts;
use crate::state::record_key;
use crate::state::record_prefix;
use crate::state::record_slot;
use crate::state::total_slot;
use crate::state::Transaction;
use crate::store::slot;
use crate::store::Slot;
use crate::sums::lemma_map_sum_insert;
use vstd::prelude::*;
use vstd::utf8::encode_utf8;

verus! {

/// A run of accepted contributions: each store is what the contribution
/// before it left of the store before it.
pub open spec fn run(states: Seq<Map<Seq<u8>, Seq<u8>>>, calls: Seq<Transaction>) -> bool {
    &&& states.len() == calls.len() + 1
    &&& forall|i: int|
        0 <= i < calls.len() ==> contributed(
            #[trigger] states[i],
            states[i + 1],
            calls[i].sender@,
            calls[i].amount,
        )
}

/// The sum of the amounts of a run.
pub open spec fn submitted(calls: Seq<Transaction>) -> nat
    decreases calls.len(),
{
    if calls.len() == 0 {
        0
    } else {
        submitted(calls.drop_last()) + calls.last().amount as nat
    }
}

/// The sum of the amounts that `identity` submitted in a run.
pub open spec fn submitted_by(calls: Seq<Transaction>, identity: Seq<char>) -> nat
    decreases calls.len(),
{
    if calls.len() == 0 {
        0
    } else if calls.last().sender@ == identity {
        submitted_by(calls.drop_last(), identity) + calls.last().amount as nat
    } else {
        submitted_by(calls.drop_last(), identity)
    }
}

/// The amount that the record of `identity` stands for: zero where there is
/// none.
pub open spec fn record_amount(held: Map<Seq<u8>, Seq<u8>>, identity: Seq<char>) -> nat {
    prior_amount(record_slot(held, identity).amount())
}

/// Right after the ledger is set up, its total is zero.
pub proof fn law_total_of_fresh_ledger(before: Map<Seq<u8>, Seq<u8>>, after: Map<Seq<u8>, Seq<u8>>)
    requires
        instantiated(before, after),
    ensures
        total_reading(after) == Ok::<u128, ErrorKind>(0),
{
}

/// A contribution touches no record but the contributor's.
pub proof fn law_other_records_untouched(
    before: Map<Seq<u8>, Seq<u8>>,
    after: Map<Seq<u8>, Seq<u8>>,
    identity: Seq<char>,
    amount: u128,
    other: Seq<char>,
)
    requires
        contributed(before, after, identity, amount),
        other != identity,
    ensures
        record_slot(after, other) == record_slot(before, other),
{
    lemma_layout();
    if record_key(other) == record_key(identity) {
        lemma_record_key_injective(other, identity);
    }
}

/// Over any run of accepted contributions the total grows by the sum of the
/// submitted amounts, however they are spread over the identities. On a ledger
/// that was just set up the total is that sum.
pub proof fn law_total_accumulates(states: Seq<Map<Seq<u8>, Seq<u8>>>, calls: Seq<Transaction>)
    requires
        run(states, calls),
        total_slot(states[0]) is Amount,
    ensures
        total_reading(states.last()) == Ok::<u128, ErrorKind>(
            (total_slot(states[0]).amount().unwrap() + submitted(calls)) as u128,
        ),
        total_slot(states[0]).amount().unwrap() + submitted(calls) <= u128::MAX,
        total_slot(states[0]) == Slot::Amount(0) ==> total_reading(states.last()) == Ok::<
            u128,
            ErrorKind,
        >(submitted(calls) as u128),
    decreases calls.len(),
{
    if calls.len() > 0 {
        let n = calls.len() as int;
        assert(run(states.drop_last(), calls.drop_last())) by {
            assert forall|i: int| 0 <= i < calls.drop_last().len() implies contributed(
                #[trigger] states.drop_last()[i],
                states.drop_last()[i + 1],
                calls.drop_last()[i].sender@,
                calls.drop_last()[i].amount,
            ) by {
                assert(contributed(states[i], states[i + 1], calls[i].sender@, calls[i].amount));
            }
        }
        law_total_accumulates(states.drop_last(), calls.drop_last());
        assert(states.drop_last().last() == states[n - 1]);
        assert(contributed(
            states[n - 1],
            states[n - 1 + 1],
            calls[n - 1].sender@,
            calls[n - 1].amount,
        ));
    }
}

/// Over any run of accepted contributions the record of an identity grows by
/// the sum of the amounts submitted under that identity, and by nothing that
/// others submitted.
pub proof fn law_record_accumulates(
    states: Seq<Map<Seq<u8>, Seq<u8>>>,
    calls: Seq<Transaction>,
    identity: Seq<char>,
)
    requires
        run(states, calls),
    ensures
        record_amount(states.last(), identity) == record_amount(states[0], identity)
            + submitted_by(calls, identity),
        record_slot(states[0], identity) == Slot::Vacant ==> record_amount(
            states.last(),
            identity,
        ) == submitted_by(calls, identity),
        (exists|i: int| 0 <= i < calls.len() && (#[trigger] calls[i]).sender@ == identity)
            ==> record_slot(states.last(), identity) is Amount,
        (forall|i: int| 0 <= i < calls.len() ==> (#[trigger] calls[i]).sender@ != identity)
            ==> record_slot(states.last(), identity) == record_slot(states[0], identity),
    decreases calls.len(),
{
    if calls.len() > 0 {
        let n = calls.len() as int;
        assert(run(states.drop_last(), calls.drop_last())) by {
            assert forall|i: int| 0 <= i < calls.drop_last().len() implies contributed(
                #[trigger] states.drop_last()[i],
                states.drop_last()[i + 1],
                calls.drop_last()[i].sender@,
                calls.drop_last()[i].amount,
            ) by {
                assert(contributed(states[i], states[i + 1], calls[i].sender@, calls[i].amount));
            }
        }
        law_record_accumulates(states.drop_last(), calls.drop_last(), identity);
        assert(states.drop_last().last() == states[n - 1]);
        assert(contributed(
            states[n - 1],
            states[n - 1 + 1],
            calls[n - 1].sender@,
            calls[n - 1].amount,
        ));
        if calls[n - 1].sender@ != identity {
            law_other_records_untouched(
                states[n - 1],
                states[n],
                calls[n - 1].sender@,
                calls[n - 1].amount,
                identity,
            );
            if exists|i: int| 0 <= i < calls.len() && (#[trigger] calls[i]).sender@ == identity {
                let i = choose|i: int|
                    0 <= i < calls.len() && (#[trigger] calls[i]).sender@ == identity;
                assert(calls.drop_last()[i] == calls[i]);
            }
        }
        if forall|i: int| 0 <= i < calls.len() ==> (#[trigger] calls[i]).sender@ != identity {
            assert forall|i: int| 0 <= i < calls.drop_last().len() implies (
            #[trigger] calls.drop_last()[i]).sender@ != identity by {
                assert(calls.drop_last()[i] == calls[i]);
            }
        }
    }
}

/// An accepted contribution keeps the running total equal to the aggregate
/// total, the sum of all records.
pub proof fn law_contribution_keeps_consistency(
    before: Map<Seq<u8>, Seq<u8>>,
    after: Map<Seq<u8>, Seq<u8>>,
    identity: Seq<char>,
    amount: u128,
)
    requires
        contributed(before, after, identity, amount),
        consistent(before),
    ensures
        consistent(after),
        aggregate(after) == aggregate(before) + amount,
{
    lemma_layout();
    let prefix = record_prefix();
    let rest = encode_utf8(identity);
    let record = contribution(before, identity, amount).unwrap().0;
    assert(record_key(identity) == prefix + rest);
    assert forall|other: Seq<u8>| other != rest implies prefix + other != prefix + rest by {
        if prefix + other == prefix + rest {
            lemma_rest_of_key(other, rest);
        }
    }
    assert(record_amounts(after) =~= record_amounts(before).insert(rest, record as nat)) by {
        assert forall|other: Seq<u8>|
            record_amounts(after).contains_key(other) <==> record_amounts(before).insert(
                rest,
                record as nat,
            ).contains_key(other) by {
            assert(after.contains_key(prefix + other) <==> (other == rest || before.contains_key(
                prefix + other,
            )));
        }
        assert forall|other: Seq<u8>| record_amounts(after).contains_key(other) implies (
        #[trigger] record_amounts(after)[other]) == record_amounts(before).insert(
            rest,
            record as nat,
        )[other] by {
            if other != rest {
                assert(after[prefix + other] == before[prefix + other]);
            }
        }
    }
    lemma_map_sum_insert(record_amounts(before), rest, record as nat);
    assert forall|other: Seq<u8>| after.contains_key(#[trigger] (prefix + other)) implies slot(
        after,
        prefix + other,
    ) != Slot::Unreadable by {
        if other != rest {
            assert(before.contains_key(prefix + other));
            assert(after[prefix + other] == before[prefix + other]);
        }
    }
}

/// Setting up a ledger that holds no record yet makes the running total
/// equal to the aggregate total: both are zero.
pub proof fn law_fresh_ledger_is_consistent(
    before: Map<Seq<u8>, Seq<u8>>,
    after: Map<Seq<u8>, Seq<u8>>,
)
    requires
        instantiated(before, after),
        no_records(before),
    ensures
        consistent(after),
        aggregate(after) == 0,
{
    lemma_layout();
    assert(record_amounts(after).dom() =~= Set::<Seq<u8>>::empty()) by {
        assert forall|rest: Seq<u8>| !record_amounts(after).dom().contains(rest) by {
            assert(!before.contains_key(record_prefix() + rest));
        }
    }
}

} // verus!
