//! The pending overlay of an atomic batch: an insertion-ordered map from
//! logical key bytes to a scheduled write (`Some(value)`) or a scheduled
//! delete (`None`).
//!
//! The overlay is an `indexmap::IndexMap`. Verus does not look inside it; its
//! contents are named by [`overlay_entries`], and each method that the map
//! layer calls is wrapped by a function whose contract restates the method's
//! documentation over that name.

use indexmap::IndexMap;
use vstd::prelude::*;

verus! {

/// One slot of the overlay, as a mathematical value: the logical key and what
/// is scheduled for it.
pub type Slot = (Seq<u8>, Option<Seq<u8>>);

/// Makes `indexmap::IndexMap` known as an opaque type.
#[verifier::external_type_specification]
#[verifier::external_body]
#[verifier::reject_recursive_types(K)]
#[verifier::reject_recursive_types(V)]
#[verifier::reject_recursive_types(S)]
pub struct ExIndexMap<K, V, S>(IndexMap<K, V, S>);

/// The key-value pairs that an overlay holds, in their order. An `IndexMap`
/// never holds a key twice; the map layer proves this of its own overlays
/// from the contracts below, as [`keys_distinct`].
pub uninterp spec fn overlay_entries(m: IndexMap<Vec<u8>, Option<Vec<u8>>>) -> Seq<Slot>;

/// What is scheduled for a key, as a mathematical value.
pub open spec fn scheduled(value: Option<Vec<u8>>) -> Option<Seq<u8>> {
    match value {
        Some(v) => Some(v@),
        None => None,
    }
}

/// Some slot holds the key.
pub open spec fn has_key(entries: Seq<Slot>, key: Seq<u8>) -> bool {
    exists|i: int| 0 <= i < entries.len() && (#[trigger] entries[i]).0 == key
}

/// The position of a slot that holds the key, where there is one.
pub open spec fn position_of(entries: Seq<Slot>, key: Seq<u8>) -> int {
    choose|i: int| 0 <= i < entries.len() && (#[trigger] entries[i]).0 == key
}

/// What the overlay schedules for a key: `None` when the key is untouched,
/// `Some(None)` for a delete, `Some(Some(v))` for a write of `v`.
pub open spec fn lookup(entries: Seq<Slot>, key: Seq<u8>) -> Option<Option<Seq<u8>>> {
    if has_key(entries, key) {
        Some(entries[position_of(entries, key)].1)
    } else {
        None
    }
}

/// The entries after scheduling `value` for `key`: a key that is already
/// present keeps its slot, a new key takes the last slot.
pub open spec fn with_entry(entries: Seq<Slot>, key: Seq<u8>, value: Option<Seq<u8>>) -> Seq<
    Slot,
> {
    if has_key(entries, key) {
        entries.update(position_of(entries, key), (key, value))
    } else {
        entries.push((key, value))
    }
}

/// The entries after cutting the overlay back to at most `len` slots.
pub open spec fn cut_to(entries: Seq<Slot>, len: nat) -> Seq<Slot> {
    if len < entries.len() {
        entries.take(len as int)
    } else {
        entries
    }
}

/// No key occupies two slots.
pub open spec fn keys_distinct(entries: Seq<Slot>) -> bool {
    forall|i: int, j: int|
        0 <= i < entries.len() && 0 <= j < entries.len() && i != j ==> (#[trigger] entries[i]).0
            != (#[trigger] entries[j]).0
}

/// Where keys are distinct, the slot at position `i` is the one that a
/// lookup of its key finds.
pub proof fn lemma_lookup_at(entries: Seq<Slot>, i: int)
    requires
        keys_distinct(entries),
        0 <= i < entries.len(),
    ensures
        has_key(entries, entries[i].0),
        position_of(entries, entries[i].0) == i,
        lookup(entries, entries[i].0) == Some(entries[i].1),
{
}

/// Scheduling an entry keeps keys distinct, makes the key resolve to the new
/// value, leaves every other key as it was, and grows the overlay by one slot
/// exactly when the key is new.
pub proof fn lemma_with_entry(entries: Seq<Slot>, key: Seq<u8>, value: Option<Seq<u8>>)
    requires
        keys_distinct(entries),
    ensures
        keys_distinct(with_entry(entries, key, value)),
        lookup(with_entry(entries, key, value), key) == Some(value),
        forall|other: Seq<u8>|
            other != key ==> #[trigger] lookup(with_entry(entries, key, value), other) == lookup(
                entries,
                other,
            ),
        with_entry(entries, key, value).len() == if has_key(entries, key) {
            entries.len()
        } else {
            entries.len() + 1
        },
{
    let after = with_entry(entries, key, value);
    let at = if has_key(entries, key) {
        position_of(entries, key)
    } else {
        entries.len() as int
    };
    assert(after[at] == (key, value));
    assert forall|i: int| 0 <= i < after.len() && i != at implies (#[trigger] after[i])
        == entries[i] && after[i].0 != key by {
        if !has_key(entries, key) {
            assert(entries[i].0 != key);
        }
    }
    assert(keys_distinct(after));
    lemma_lookup_at(after, at);
    assert forall|other: Seq<u8>| other != key implies #[trigger] lookup(after, other) == lookup(
        entries,
        other,
    ) by {
        if has_key(entries, other) {
            let i = position_of(entries, other);
            assert(after[i] == entries[i]);
            lemma_lookup_at(after, i);
        } else if has_key(after, other) {
            let i = position_of(after, other);
            assert(after[i] == entries[i]);
        }
    }
}

/// Cutting the overlay back keeps keys distinct and never lengthens it.
pub proof fn lemma_cut_to(entries: Seq<Slot>, len: nat)
    requires
        keys_distinct(entries),
    ensures
        keys_distinct(cut_to(entries, len)),
        cut_to(entries, len).len() == if len < entries.len() {
            len
        } else {
            entries.len()
        },
{
    let after = cut_to(entries, len);
    assert forall|i: int, j: int|
        0 <= i < after.len() && 0 <= j < after.len() && i != j implies (#[trigger] after[i]).0 != (
    #[trigger] after[j]).0 by {
        assert(after[i] == entries[i]);
        assert(after[j] == entries[j]);
    }
}

/// Wraps `IndexMap::new`: the new overlay holds nothing.
#[verifier::external_body]
pub(crate) fn overlay_new() -> (m: IndexMap<Vec<u8>, Option<Vec<u8>>>)
    ensures
        overlay_entries(m) == Seq::<Slot>::empty(),
{
    IndexMap::new()
}

/// Wraps `IndexMap::len`: the number of slots.
#[verifier::external_body]
pub(crate) fn overlay_len(m: &IndexMap<Vec<u8>, Option<Vec<u8>>>) -> (n: usize)
    ensures
        n == overlay_entries(*m).len(),
{
    m.len()
}

/// Wraps `IndexMap::insert`: where the key is present it keeps its place and
/// takes the new value, else the pair is added last.
#[verifier::external_body]
pub(crate) fn overlay_insert(
    m: &mut IndexMap<Vec<u8>, Option<Vec<u8>>>,
    key: Vec<u8>,
    value: Option<Vec<u8>>,
)
    ensures
        overlay_entries(*final(m)) == with_entry(overlay_entries(*old(m)), key@, scheduled(value)),
{
    m.insert(key, value);
}

/// Wraps `IndexMap::get`: the value stored for the key, if the key is present.
#[verifier::external_body]
pub(crate) fn overlay_get<'a>(m: &'a IndexMap<Vec<u8>, Option<Vec<u8>>>, key: &Vec<u8>) -> (r:
    Option<&'a Option<Vec<u8>>>)
    ensures
        match r {
            Some(v) => lookup(overlay_entries(*m), key@) == Some(scheduled(*v)),
            None => lookup(overlay_entries(*m), key@) is None,
        },
{
    m.get(key)
}

/// Wraps `IndexMap::get_index`: the pair in the slot at `index`, or `None`
/// where the overlay has no such slot.
#[verifier::external_body]
pub(crate) fn overlay_get_index<'a>(
    m: &'a IndexMap<Vec<u8>, Option<Vec<u8>>>,
    index: usize,
) -> (r: Option<(&'a Vec<u8>, &'a Option<Vec<u8>>)>)
    ensures
        match r {
            Some((k, v)) => index < overlay_entries(*m).len() && overlay_entries(*m)[index as int]
                == (k@, scheduled(*v)),
            None => index >= overlay_entries(*m).len(),
        },
{
    m.get_index(index)
}

/// Wraps `IndexMap::truncate`: the first `len` slots stay, the rest is
/// dropped; a `len` at or past the end changes nothing.
#[verifier::external_body]
pub(crate) fn overlay_truncate(m: &mut IndexMap<Vec<u8>, Option<Vec<u8>>>, len: usize)
    ensures
        overlay_entries(*final(m)) == cut_to(overlay_entries(*old(m)), len as nat),
{
    m.truncate(len);
}

} // verus!
