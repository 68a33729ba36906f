//! The store behind the ledger: a `cosmwasm_std::MemoryStorage`, read and
//! written through the typed cells and maps of `cw_storage_plus`.
//!
//! Nothing in this file is proved. Each function below makes one call into
//! those crates, and its contract says what that call does to the store.

use crate::amount::decimal;
use crate::error::ContractError;
use crate::policy::RecordPolicy;
use cosmwasm_std::MemoryStorage;
use cosmwasm_std::Order;
use cosmwasm_std::StdError;
use cosmwasm_std::Uint128;
use cw_storage_plus::Item;
use vstd::prelude::*;
use vstd::utf8::encode_utf8;

verus! {

/// `cosmwasm_std::MemoryStorage`: a map from byte keys to byte values.
#[verifier::external_type_specification]
#[verifier::external_body]
pub struct ExMemoryStorage(MemoryStorage);

/// What a store holds: every key with its value, as `MemoryStorage` keeps
/// them in its `BTreeMap`.
pub uninterp spec fn contents(store: MemoryStorage) -> Map<Seq<u8>, Seq<u8>>;

/// The amount that `cosmwasm_std::from_slice::<Uint128>` reads from `bytes`,
/// `None` where it fails.
pub uninterp spec fn amount_of(bytes: Seq<u8>) -> Option<u128>;

/// The bytes that `cosmwasm_std::to_vec` writes for `amount` as a `Uint128`:
/// the JSON string of its decimal digits.
pub open spec fn amount_json(amount: u128) -> Seq<u8> {
    encode_utf8(seq!['"'] + decimal(amount as nat) + seq!['"'])
}

/// What the ledger finds under one key.
pub enum Slot {
    /// The store has no such key.
    Vacant,
    /// The value under the key reads as this amount.
    Amount(u128),
    /// The value under the key does not read as an amount.
    Unreadable,
}

impl Slot {
    /// The amount found, if one was.
    pub open spec fn amount(self) -> Option<u128> {
        match self {
            Slot::Amount(amount) => Some(amount),
            _ => None,
        }
    }
}

/// What is found under `key` in a store that holds `held`.
pub open spec fn slot(held: Map<Seq<u8>, Seq<u8>>, key: Seq<u8>) -> Slot {
    if !held.contains_key(key) {
        Slot::Vacant
    } else {
        match amount_of(held[key]) {
            Some(amount) => Slot::Amount(amount),
            None => Slot::Unreadable,
        }
    }
}

/// The key of the cell that `Item::new(name)` addresses: the bytes of the
/// name.
pub open spec fn item_key(name: Seq<char>) -> Seq<u8> {
    encode_utf8(name)
}

/// What every key of `Map::new(namespace)` starts with: the length of the
/// namespace in two bytes, high byte first, then the namespace.
pub open spec fn namespace_prefix(namespace: Seq<char>) -> Seq<u8> {
    let name = encode_utf8(namespace);
    seq![(name.len() / 256) as u8, (name.len() % 256) as u8] + name
}

/// The key under which `Map::new(namespace)` keeps the entry of `key`.
pub open spec fn map_key(namespace: Seq<char>, key: Seq<char>) -> Seq<u8> {
    namespace_prefix(namespace) + encode_utf8(key)
}

/// The order of `Vec<u8>`: byte by byte, a proper prefix first.
pub open spec fn bytes_before(a: Seq<u8>, b: Seq<u8>) -> bool
    decreases a.len(),
{
    if b.len() == 0 {
        false
    } else if a.len() == 0 {
        true
    } else if a[0] != b[0] {
        a[0] < b[0]
    } else {
        bytes_before(a.drop_first(), b.drop_first())
    }
}

/// `cosmwasm_std::to_vec` on the amount as a `Uint128`. It cannot fail: a
/// `Uint128` is written as a string, and the writer of strings has no failing
/// path. The bytes are those of [`amount_json`], and `from_slice` reads the
/// amount back from them.
#[verifier::external_body]
pub(crate) fn encode_amount(amount: u128) -> (r: Result<Vec<u8>, StdError>)
    ensures
        r is Ok,
        r.unwrap()@ == amount_json(amount),
        amount_of(r.unwrap()@) == Some(amount),
{
    cosmwasm_std::to_vec(&Uint128::new(amount))
}

/// `Item::may_load` on the cell `name`: `None` where the store has no such
/// key, the amount where the value reads as one, an error where it does not.
#[verifier::external_body]
pub(crate) fn item_may_load(store: &MemoryStorage, name: &str) -> (r: Result<
    Option<u128>,
    StdError,
>)
    ensures
        match slot(contents(*store), item_key(name@)) {
            Slot::Vacant => r == Ok::<Option<u128>, StdError>(None),
            Slot::Amount(amount) => r == Ok::<Option<u128>, StdError>(Some(amount)),
            Slot::Unreadable => r is Err,
        },
{
    Item::<Uint128>::new(name).may_load(store).map(|found| found.map(|amount| amount.u128()))
}

/// `Item::save` on the cell `name`. It puts the bytes of the amount under
/// the cell's key, where they read back as the amount, and leaves every other
/// key as it was. It cannot fail, as [`encode_amount`] cannot.
#[verifier::external_body]
pub(crate) fn item_save(store: &mut MemoryStorage, name: &str, amount: u128) -> (r: Result<
    (),
    StdError,
>)
    ensures
        r is Ok,
        contents(*final(store)) == contents(*old(store)).insert(
            item_key(name@),
            amount_json(amount),
        ),
        slot(contents(*final(store)), item_key(name@)) == Slot::Amount(amount),
{
    Item::<Uint128>::new(name).save(store, &Uint128::new(amount))
}

/// `Map::may_load` on the entry of `key` in the map `namespace`: as
/// [`item_may_load`], under the entry's key.
#[verifier::external_body]
pub(crate) fn map_may_load(store: &MemoryStorage, namespace: &str, key: &str) -> (r: Result<
    Option<u128>,
    StdError,
>)
    requires
        encode_utf8(namespace@).len() <= 0xFFFF,
    ensures
        match slot(contents(*store), map_key(namespace@, key@)) {
            Slot::Vacant => r == Ok::<Option<u128>, StdError>(None),
            Slot::Amount(amount) => r == Ok::<Option<u128>, StdError>(Some(amount)),
            Slot::Unreadable => r is Err,
        },
{
    cw_storage_plus::Map::<&str, Uint128>::new(namespace).may_load(store, key).map(
        |found| found.map(|amount| amount.u128()),
    )
}

/// `Map::update` on the entry of `key` in the map `namespace`, with
/// [`RecordPolicy::apply`] as the action. It reads the entry, hands what it
/// found to the action with `submitted`, and saves the action's result:
/// - where the entry does not read as an amount, a store error;
/// - where the action fails, the action's error;
/// - else the new amount, whose bytes now stand under the entry's key and
///   read back as that amount.
/// Only in the last case is the store written, and only under that key.
#[verifier::external_body]
pub(crate) fn map_update(
    store: &mut MemoryStorage,
    namespace: &str,
    key: &str,
    policy: RecordPolicy,
    submitted: u128,
) -> (r: Result<u128, ContractError>)
    requires
        encode_utf8(namespace@).len() <= 0xFFFF,
    ensures
        ({
            let before = contents(*old(store));
            let after = contents(*final(store));
            let entry = map_key(namespace@, key@);
            let found = slot(before, entry);
            let merged = policy.merged(found.amount(), submitted);
            if found == Slot::Unreadable {
                r is Err && r.unwrap_err() is Store && after == before
            } else if merged > u128::MAX {
                r == Err::<u128, ContractError>(ContractError::ArithmeticOverflow) && after
                    == before
            } else {
                r == Ok::<u128, ContractError>(merged as u128) && after == before.insert(
                    entry,
                    amount_json(merged as u128),
                ) && slot(after, entry) == Slot::Amount(merged as u128)
            }
        }),
{
    cw_storage_plus::Map::<&str, Uint128>::new(namespace).update(
        store,
        key,
        |found| policy.apply(found.map(|amount| amount.u128()), submitted).map(Uint128::new),
    ).map(|amount| amount.u128())
}

/// `Map::range` over the whole map `namespace`, in ascending order. Where
/// every entry reads as an amount it lists them all, each once, as the rest of
/// its key after the namespace prefix and its amount, in the order of the
/// keys; where one does not, it fails.
#[verifier::external_body]
pub(crate) fn map_range(store: &MemoryStorage, namespace: &str) -> (r: Result<
    Vec<(Vec<u8>, u128)>,
    StdError,
>)
    requires
        encode_utf8(namespace@).len() <= 0xFFFF,
    ensures
        match r {
            Ok(listed) => {
                &&& forall|i: int|
                    0 <= i < listed@.len() ==> slot(
                        contents(*store),
                        namespace_prefix(namespace@) + (#[trigger] listed@[i]).0@,
                    ) == Slot::Amount(listed@[i].1)
                &&& forall|rest: Seq<u8>|
                    contents(*store).contains_key(#[trigger] (namespace_prefix(namespace@) + rest))
                        ==> exists|i: int|
                        0 <= i < listed@.len() && (#[trigger] listed@[i]).0@ == rest
                &&& forall|i: int, j: int|
                    0 <= i < j < listed@.len() ==> bytes_before(
                        (#[trigger] listed@[i]).0@,
                        (#[trigger] listed@[j]).0@,
                    )
            },
            Err(_) => exists|rest: Seq<u8>|
                slot(contents(*store), #[trigger] (namespace_prefix(namespace@) + rest))
                    == Slot::Unreadable,
        },
{
    cw_storage_plus::Map::<&str, Uint128>::new(namespace).range(store, None, None, Order::Ascending).map(
        |entry| entry.map(|(rest, amount)| (rest, amount.u128())),
    ).collect()
}

} // verus!
