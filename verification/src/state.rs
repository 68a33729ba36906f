//! Where the ledger keeps its state in the store, and what it reads there.

use crate::policy::prior_amount;
use crate::store::bytes_before;
use crate::store::item_key;
use crate::store::map_key;
use crate::store::namespace_prefix;
use crate::store::slot;
use crate::store::Slot;
use crate::sums::map_sum;
use vstd::prelude::*;
use vstd::utf8::encode_utf8;

verus! {

/// The name of the cell that holds the running total.
pub const TOTAL: &'static str = "total";

/// The namespace of the map that holds one record per contributor.
pub const TRANSACTIONS: &'static str = "transaction";

/// One contribution: who submitted, and how much.
#[derive(Clone, Debug, PartialEq)]
pub struct Transaction {
    pub amount: u128,
    pub sender: String,
}

/// The key of the total cell.
pub open spec fn total_key() -> Seq<u8> {
    item_key(TOTAL@)
}

/// What every record's key starts with.
pub open spec fn record_prefix() -> Seq<u8> {
    namespace_prefix(TRANSACTIONS@)
}

/// The key of the record of `identity`.
pub open spec fn record_key(identity: Seq<char>) -> Seq<u8> {
    map_key(TRANSACTIONS@, identity)
}

/// What the total cell holds in a store that holds `held`.
pub open spec fn total_slot(held: Map<Seq<u8>, Seq<u8>>) -> Slot {
    slot(held, total_key())
}

/// What the record of `identity` holds in a store that holds `held`.
pub open spec fn record_slot(held: Map<Seq<u8>, Seq<u8>>, identity: Seq<char>) -> Slot {
    slot(held, record_key(identity))
}

/// The amount of every record of a store that holds `held`, under the rest of
/// its key after the prefix.
pub open spec fn record_amounts(held: Map<Seq<u8>, Seq<u8>>) -> Map<Seq<u8>, nat> {
    Map::new(
        |rest: Seq<u8>| held.contains_key(record_prefix() + rest),
        |rest: Seq<u8>| prior_amount(slot(held, record_prefix() + rest).amount()),
    )
}

/// The store holds no record.
pub open spec fn no_records(held: Map<Seq<u8>, Seq<u8>>) -> bool {
    forall|rest: Seq<u8>| !held.contains_key(#[trigger] (record_prefix() + rest))
}

/// Every record of the store reads as an amount.
pub open spec fn readable(held: Map<Seq<u8>, Seq<u8>>) -> bool {
    forall|rest: Seq<u8>|
        held.contains_key(#[trigger] (record_prefix() + rest)) ==> slot(
            held,
            record_prefix() + rest,
        ) != Slot::Unreadable
}

/// The aggregate total: the sum of all records.
pub open spec fn aggregate(held: Map<Seq<u8>, Seq<u8>>) -> nat {
    map_sum(record_amounts(held))
}

/// The running total agrees with the records: there are finitely many, each
/// reads as an amount, and the total cell holds their sum.
pub open spec fn consistent(held: Map<Seq<u8>, Seq<u8>>) -> bool {
    &&& record_amounts(held).dom().finite()
    &&& readable(held)
    &&& total_slot(held).amount() is Some
    &&& total_slot(held).amount().unwrap() == aggregate(held)
}

/// The namespace of the records fits the two bytes of its length prefix, and
/// no record's key is the key of the total cell: a record's key starts with a
/// zero byte, the total's with a letter.
pub proof fn lemma_layout()
    ensures
        encode_utf8(TRANSACTIONS@).len() == 11,
        record_prefix().len() == 13,
        forall|identity: Seq<char>| #[trigger] record_key(identity) != total_key(),
        forall|rest: Seq<u8>| #[trigger] (record_prefix() + rest) != total_key(),
{
    reveal_strlit("total");
    reveal_strlit("transaction");
    vstd::utf8::is_ascii_chars_encode_utf8(TOTAL@);
    vstd::utf8::is_ascii_chars_encode_utf8(TRANSACTIONS@);
    assert(total_key()[0] == 't' as u8);
    assert forall|identity: Seq<char>| #[trigger] record_key(identity) != total_key() by {
        assert(record_key(identity)[0] == 0);
    }
    assert forall|rest: Seq<u8>| #[trigger] (record_prefix() + rest) != total_key() by {
        assert((record_prefix() + rest)[0] == 0);
    }
}

/// Two identities never share a record.
pub proof fn lemma_record_key_injective(a: Seq<char>, b: Seq<char>)
    requires
        record_key(a) == record_key(b),
    ensures
        a == b,
{
    let prefix = record_prefix();
    assert(encode_utf8(a) =~= record_key(a).subrange(
        prefix.len() as int,
        record_key(a).len() as int,
    ));
    assert(encode_utf8(b) =~= record_key(b).subrange(
        prefix.len() as int,
        record_key(b).len() as int,
    ));
    vstd::utf8::encode_utf8_decode_utf8(a);
    vstd::utf8::encode_utf8_decode_utf8(b);
}

/// No key comes before itself.
pub proof fn lemma_bytes_before_irreflexive(a: Seq<u8>)
    ensures
        !bytes_before(a, a),
    decreases a.len(),
{
    if a.len() > 0 {
        lemma_bytes_before_irreflexive(a.drop_first());
    }
}

/// What follows the prefix tells two keys of records apart.
pub proof fn lemma_rest_of_key(a: Seq<u8>, b: Seq<u8>)
    requires
        record_prefix() + a == record_prefix() + b,
    ensures
        a == b,
{
    let prefix = record_prefix();
    assert(a =~= (prefix + a).subrange(prefix.len() as int, (prefix + a).len() as int));
    assert(b =~= (prefix + b).subrange(prefix.len() as int, (prefix + b).len() as int));
}

} // verus!
