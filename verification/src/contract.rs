//! The ledger service: set the ledger up, contribute to it, ask for its total.
//!
//! Every call takes the store it works on. A call that fails leaves the store
//! as it found it.

use crate::amount::decimal;
use crate::amount::to_decimal;
use crate::error::ContractError;
use crate::error::ErrorKind;
use crate::laws::law_contribution_keeps_consistency;
use crate::msg::ExecuteMsg;
use crate::msg::InstantiateMsg;
use crate::msg::MessageInfo;
use crate::msg::QueryMsg;
use crate::policy::on_contribute;
use crate::policy::prior_amount;
use crate::policy::recompute;
use crate::policy::RecordPolicy;
use crate::response::Response;
use crate::state::aggregate;
use crate::state::consistent;
use crate::state::lemma_bytes_before_irreflexive;
use crate::state::lemma_layout;
use crate::state::no_records;
use crate::state::readable;
use crate::state::record_amounts;
use crate::state::record_key;
use crate::state::record_prefix;
use crate::state::record_slot;
use crate::state::TOTAL;
use crate::state::total_key;
use crate::state::total_slot;
use crate::state::TRANSACTIONS;
use crate::store::amount_json;
use crate::store::bytes_before;
use crate::store::contents;
use crate::store::encode_amount;
use crate::store::item_may_load;
use crate::store::item_save;
use crate::store::map_may_load;
use crate::store::map_range;
use crate::store::map_update;
use crate::store::Slot;
use crate::store::slot;
use crate::sums::amounts_of;
use crate::sums::lemma_listed_sum;
use cosmwasm_std::MemoryStorage;
use vstd::prelude::*;

verus! {

/// The record policy of the ledger: contributions of one identity add up.
pub const RECORD_POLICY: RecordPolicy = RecordPolicy::Accumulate;

/// Whether a store that holds `held` can be set up, and if not, why.
pub open spec fn instantiation(held: Map<Seq<u8>, Seq<u8>>) -> Result<(), ErrorKind> {
    match total_slot(held) {
        Slot::Vacant => Ok(()),
        Slot::Amount(_) => Err(ErrorKind::Reinitialization),
        Slot::Unreadable => Err(ErrorKind::Store),
    }
}

/// What a contribution of `amount` by `identity` comes to in a store that
/// holds `held`: the contributor's new record and the new total, or the
/// reason why it is turned down.
pub open spec fn contribution(held: Map<Seq<u8>, Seq<u8>>, identity: Seq<char>, amount: u128)
    -> Result<(u128, u128), ErrorKind> {
    match total_slot(held) {
        Slot::Vacant => Err(ErrorKind::NotInitialized),
        Slot::Unreadable => Err(ErrorKind::Store),
        Slot::Amount(total) => if total + amount > u128::MAX {
            Err(ErrorKind::ArithmeticOverflow)
        } else if record_slot(held, identity) == Slot::Unreadable {
            Err(ErrorKind::Store)
        } else if prior_amount(record_slot(held, identity).amount()) + amount > u128::MAX {
            Err(ErrorKind::ArithmeticOverflow)
        } else {
            Ok(
                (
                    (prior_amount(record_slot(held, identity).amount()) + amount) as u128,
                    (total + amount) as u128,
                ),
            )
        },
    }
}

/// `after` is what setting the ledger up leaves of a store that held
/// `before`: only the total cell is written, and it holds zero.
pub open spec fn instantiated(before: Map<Seq<u8>, Seq<u8>>, after: Map<Seq<u8>, Seq<u8>>) -> bool {
    &&& instantiation(before) is Ok
    &&& after == before.insert(total_key(), after[total_key()])
    &&& total_slot(after) == Slot::Amount(0)
}

/// `after` is what an accepted contribution of `amount` by `identity` leaves
/// of a store that held `before`: only the contributor's record and the total
/// cell are written, and they hold the new record and the new total.
pub open spec fn contributed(
    before: Map<Seq<u8>, Seq<u8>>,
    after: Map<Seq<u8>, Seq<u8>>,
    identity: Seq<char>,
    amount: u128,
) -> bool {
    &&& contribution(before, identity, amount) is Ok
    &&& after == before.insert(record_key(identity), after[record_key(identity)]).insert(
        total_key(),
        after[total_key()],
    )
    &&& record_slot(after, identity) == Slot::Amount(
        contribution(before, identity, amount).unwrap().0,
    )
    &&& total_slot(after) == Slot::Amount(contribution(before, identity, amount).unwrap().1)
}

/// What a call to contribute leaves of a store that held `before`: where the
/// contribution is accepted, the bytes of the new record under the
/// contributor's key and those of the new total under the total's key, and
/// all else as it was; where it is turned down, everything as it was.
pub open spec fn left_by_contribution(
    before: Map<Seq<u8>, Seq<u8>>,
    after: Map<Seq<u8>, Seq<u8>>,
    identity: Seq<char>,
    amount: u128,
) -> bool {
    match contribution(before, identity, amount) {
        Ok((record, total)) => {
            &&& after == before.insert(record_key(identity), amount_json(record)).insert(
                total_key(),
                amount_json(total),
            )
            &&& contributed(before, after, identity, amount)
        },
        Err(_) => after == before,
    }
}

/// What asking for the total comes to in a store that holds `held`.
pub open spec fn total_reading(held: Map<Seq<u8>, Seq<u8>>) -> Result<u128, ErrorKind> {
    match total_slot(held) {
        Slot::Vacant => Err(ErrorKind::NotInitialized),
        Slot::Unreadable => Err(ErrorKind::Store),
        Slot::Amount(total) => Ok(total),
    }
}

/// The attributes that an accepted contribution reports.
pub open spec fn added(total: u128) -> Seq<(Seq<char>, Seq<char>)> {
    seq![("action"@, "add"@), ("total"@, decimal(total as nat))]
}

/// Sets the ledger up: the total cell is created and holds zero. A ledger
/// that is set up already is not set up again.
pub fn instantiate(store: &mut MemoryStorage, _info: MessageInfo, _msg: InstantiateMsg) -> (r:
    Result<Response, ContractError>)
    ensures
        match instantiation(contents(*old(store))) {
            Ok(_) => {
                &&& r is Ok
                &&& r.unwrap()@ == Seq::<(Seq<char>, Seq<char>)>::empty()
                &&& contents(*final(store)) == contents(*old(store)).insert(
                    total_key(),
                    amount_json(0),
                )
                &&& instantiated(contents(*old(store)), contents(*final(store)))
            },
            Err(kind) => {
                &&& r is Err
                &&& r.unwrap_err().kind_of() == kind
                &&& contents(*final(store)) == contents(*old(store))
            },
        },
        r is Ok && no_records(contents(*old(store))) ==> consistent(contents(*final(store))),
{
    proof {
        if instantiation(contents(*old(store))) is Ok && no_records(contents(*old(store))) {
            lemma_layout();
            assert(record_amounts(contents(*old(store)).insert(total_key(), amount_json(0))).dom()
                =~= Set::<Seq<u8>>::empty());
        }
    }
    match item_may_load(store, TOTAL) {
        Ok(Some(_)) => {
            return Err(ContractError::Reinitialization);
        },
        Ok(None) => {},
        Err(cause) => {
            return Err(ContractError::Store(cause));
        },
    }
    let total_starter: u128 = 0;
    match item_save(store, TOTAL, total_starter) {
        Ok(_) => Ok(Response::new()),
        Err(cause) => Err(ContractError::Store(cause)),
    }
}

/// Carries out a request that changes the ledger.
pub fn execute(store: &mut MemoryStorage, info: MessageInfo, msg: ExecuteMsg) -> (r: Result<
    Response,
    ContractError,
>)
    ensures
        match contribution(contents(*old(store)), info.sender@, msg->amount) {
            Ok((_, total)) => r is Ok && r.unwrap()@ == added(total),
            Err(kind) => r is Err && r.unwrap_err().kind_of() == kind,
        },
        left_by_contribution(
            contents(*old(store)),
            contents(*final(store)),
            info.sender@,
            msg->amount,
        ),
        consistent(contents(*old(store))) ==> consistent(contents(*final(store))),
{
    match msg {
        ExecuteMsg::Add { amount } => self::add(store, info, amount),
    }
}

/// Contributes `amount` under the sender's identity, and reports the new
/// total.
pub fn add(store: &mut MemoryStorage, info: MessageInfo, amount: u128) -> (r: Result<
    Response,
    ContractError,
>)
    ensures
        match contribution(contents(*old(store)), info.sender@, amount) {
            Ok((_, total)) => r is Ok && r.unwrap()@ == added(total),
            Err(kind) => r is Err && r.unwrap_err().kind_of() == kind,
        },
        left_by_contribution(contents(*old(store)), contents(*final(store)), info.sender@, amount),
        consistent(contents(*old(store))) ==> consistent(contents(*final(store))),
{
    let running_total = match contribute(store, info.sender.as_str(), amount) {
        Ok(total) => total,
        Err(refused) => {
            return Err(refused);
        },
    };
    let total_text = to_decimal(running_total);
    Ok(Response::new().add_attribute("action", "add").add_attribute("total", total_text.as_str()))
}

/// Contributes `amount` under `identity` and gives the new total. The
/// contributor's record and the total both grow by the amount; the record is
/// written first, through the store's update of one entry, then the total.
/// Where either sum would leave the range of an amount, or the store cannot be
/// read, nothing is written.
pub fn contribute(store: &mut MemoryStorage, identity: &str, amount: u128) -> (r: Result<
    u128,
    ContractError,
>)
    ensures
        match contribution(contents(*old(store)), identity@, amount) {
            Ok((_, total)) => r == Ok::<u128, ContractError>(total),
            Err(kind) => r is Err && r.unwrap_err().kind_of() == kind,
        },
        left_by_contribution(contents(*old(store)), contents(*final(store)), identity@, amount),
        total_slot(contents(*old(store))) is Amount && record_slot(
            contents(*old(store)),
            identity@,
        ) != Slot::Unreadable && (total_slot(contents(*old(store))).amount().unwrap() + amount
            > u128::MAX || prior_amount(record_slot(contents(*old(store)), identity@).amount())
            + amount > u128::MAX) ==> r == Err::<u128, ContractError>(
            ContractError::ArithmeticOverflow,
        ) && contents(*final(store)) == contents(*old(store)),
        consistent(contents(*old(store))) ==> consistent(contents(*final(store))),
{
    proof {
        lemma_layout();
    }
    let current = match item_may_load(store, TOTAL) {
        Ok(Some(total)) => total,
        Ok(None) => {
            return Err(ContractError::NotInitialized);
        },
        Err(cause) => {
            return Err(ContractError::Store(cause));
        },
    };
    let running_total = match on_contribute(current, amount) {
        Ok(total) => total,
        Err(overflow) => {
            return Err(overflow);
        },
    };
    match map_update(store, TRANSACTIONS, identity, RECORD_POLICY, amount) {
        Ok(_) => {},
        Err(refused) => {
            return Err(refused);
        },
    }
    match item_save(store, TOTAL, running_total) {
        Ok(_) => {},
        Err(cause) => {
            return Err(ContractError::Store(cause));
        },
    }
    proof {
        if consistent(contents(*old(store))) {
            law_contribution_keeps_consistency(
                contents(*old(store)),
                contents(*store),
                identity@,
                amount,
            );
        }
    }
    Ok(running_total)
}

/// Answers a request that only reads the ledger: the total, as the bytes of
/// its JSON string.
pub fn query(store: &MemoryStorage, msg: QueryMsg) -> (r: Result<Vec<u8>, ContractError>)
    ensures
        match total_reading(contents(*store)) {
            Ok(total) => r is Ok && r.unwrap()@ == amount_json(total),
            Err(kind) => r is Err && r.unwrap_err().kind_of() == kind,
        },
{
    match msg {
        QueryMsg::Total {} => {
            let total = match total(store) {
                Ok(total) => total,
                Err(refused) => {
                    return Err(refused);
                },
            };
            match encode_amount(total) {
                Ok(bytes) => Ok(bytes),
                Err(cause) => Err(ContractError::Store(cause)),
            }
        },
    }
}

/// The pool total: what the total cell holds.
pub fn total(store: &MemoryStorage) -> (r: Result<u128, ContractError>)
    ensures
        match total_reading(contents(*store)) {
            Ok(total) => r == Ok::<u128, ContractError>(total),
            Err(kind) => r is Err && r.unwrap_err().kind_of() == kind,
        },
{
    match item_may_load(store, TOTAL) {
        Ok(Some(total)) => Ok(total),
        Ok(None) => Err(ContractError::NotInitialized),
        Err(cause) => Err(ContractError::Store(cause)),
    }
}

/// What a contributor's record comes to in a store that holds `held`.
pub open spec fn record_reading(held: Map<Seq<u8>, Seq<u8>>, identity: Seq<char>) -> Result<
    Option<u128>,
    ErrorKind,
> {
    match record_slot(held, identity) {
        Slot::Vacant => Ok(None),
        Slot::Amount(record) => Ok(Some(record)),
        Slot::Unreadable => Err(ErrorKind::Store),
    }
}

/// The record of `identity`: what they have contributed so far, and `None`
/// where they have not contributed yet.
pub fn record_of(store: &MemoryStorage, identity: &str) -> (r: Result<Option<u128>, ContractError>)
    ensures
        match record_reading(contents(*store), identity@) {
            Ok(record) => r == Ok::<Option<u128>, ContractError>(record),
            Err(kind) => r is Err && r.unwrap_err().kind_of() == kind,
        },
{
    proof {
        lemma_layout();
    }
    match map_may_load(store, TRANSACTIONS, identity) {
        Ok(record) => Ok(record),
        Err(cause) => Err(ContractError::Store(cause)),
    }
}

/// The aggregate total: the sum of every record, computed afresh from the
/// store. It is there to be held against the running total, with which it
/// agrees on every ledger that was only written by the calls of this file.
/// A store holds finitely many records.
pub fn aggregate_total(store: &MemoryStorage) -> (r: Result<u128, ContractError>)
    ensures
        !readable(contents(*store)) ==> r is Err && r.unwrap_err().kind_of() == ErrorKind::Store,
        readable(contents(*store)) ==> record_amounts(contents(*store)).dom().finite(),
        readable(contents(*store)) && aggregate(contents(*store)) <= u128::MAX ==> r == Ok::<
            u128,
            ContractError,
        >(aggregate(contents(*store)) as u128),
        readable(contents(*store)) && aggregate(contents(*store)) > u128::MAX ==> r == Err::<
            u128,
            ContractError,
        >(ContractError::ArithmeticOverflow),
        consistent(contents(*store)) ==> r == Ok::<u128, ContractError>(
            total_slot(contents(*store)).amount().unwrap(),
        ),
{
    proof {
        lemma_layout();
    }
    let listed = match map_range(store, TRANSACTIONS) {
        Ok(listed) => listed,
        Err(cause) => {
            return Err(ContractError::Store(cause));
        },
    };
    let mut all_records: Vec<u128> = Vec::new();
    let mut i: usize = 0;
    while i < listed.len()
        invariant
            i <= listed.len(),
            all_records@.len() == i,
            forall|j: int| 0 <= j < i ==> all_records@[j] == listed@[j].1,
        decreases listed.len() - i,
    {
        all_records.push(listed[i].1);
        i += 1;
    }
    proof {
        let held = contents(*store);
        let prefix = record_prefix();
        let pairs = Seq::new(listed@.len(), |i: int| (listed@[i].0@, listed@[i].1));
        assert forall|i: int| 0 <= i < pairs.len() implies record_amounts(held).contains_key(
            (#[trigger] pairs[i]).0,
        ) && record_amounts(held)[pairs[i].0] == pairs[i].1 by {
            assert(slot(held, prefix + listed@[i].0@) == Slot::Amount(listed@[i].1));
        }
        assert forall|key: Seq<u8>| #[trigger]
            record_amounts(held).contains_key(key) implies exists|i: int|
            0 <= i < pairs.len() && (#[trigger] pairs[i]).0 == key by {
            assert(held.contains_key(prefix + key));
            let i = choose|i: int| 0 <= i < listed@.len() && (#[trigger] listed@[i]).0@ == key;
            assert(pairs[i].0 == key);
        }
        assert forall|i: int, j: int| 0 <= i < j < pairs.len() implies (#[trigger] pairs[i]).0 != (
        #[trigger] pairs[j]).0 by {
            assert(bytes_before(listed@[i].0@, listed@[j].0@));
            lemma_bytes_before_irreflexive(listed@[i].0@);
        }
        lemma_listed_sum(record_amounts(held), pairs);
        assert(amounts_of(pairs) =~= all_records@);
        assert forall|rest: Seq<u8>| held.contains_key(#[trigger] (prefix + rest)) implies slot(
            held,
            prefix + rest,
        ) != Slot::Unreadable by {
            let i = choose|i: int| 0 <= i < listed@.len() && (#[trigger] listed@[i]).0@ == rest;
            assert(slot(held, prefix + listed@[i].0@) == Slot::Amount(listed@[i].1));
        }
    }
    recompute(&all_records)
}

} // verus!
