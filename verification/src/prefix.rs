//! Key prefixes.
//!
//! Every map owns a prefix of the shared byte store: the network identifier,
//! the development-instance tag where the store was opened with one, and the
//! map identifier, each as two little-endian bytes. A raw key is the prefix
//! followed by the encoded logical key.

use crate::bytes::{append_bytes, lemma_u16_le, spec_u16_le, u16_le};
use crate::id::MapID;
use vstd::prelude::*;

verus! {

/// The bytes of the optional development-instance tag: two where it is
/// there, none where it is not.
pub open spec fn spec_dev_bytes(dev: Option<u16>) -> Seq<u8> {
    match dev {
        Some(d) => spec_u16_le(d),
        None => Seq::empty(),
    }
}

/// The prefix of the map `map_id` in a store of network `network_id` opened
/// with the development tag `dev`.
pub open spec fn spec_prefix(network_id: u16, dev: Option<u16>, map_id: MapID) -> Seq<u8> {
    spec_u16_le(network_id) + spec_dev_bytes(dev) + spec_u16_le(map_id.spec_id())
}

/// The raw key of a logical key under a prefix.
pub open spec fn spec_raw_key(prefix: Seq<u8>, key: Seq<u8>) -> Seq<u8> {
    prefix + key
}

/// Builds the prefix of a map.
pub fn key_prefix(network_id: u16, dev: Option<u16>, map_id: MapID) -> (r: Vec<u8>)
    ensures
        r@ == spec_prefix(network_id, dev, map_id),
{
    let mut r = u16_le(network_id);
    match dev {
        Some(d) => {
            let tag = u16_le(d);
            append_bytes(&mut r, tag.as_slice());
        },
        None => {
            assert(r@ + spec_dev_bytes(dev) =~= r@);
        },
    }
    let id = u16_le(map_id.id());
    append_bytes(&mut r, id.as_slice());
    r
}

/// Returns the length of the prefixes of a store opened with the development
/// tag `dev`: four bytes without a tag, six with one.
pub fn prefix_len(dev: Option<u16>) -> (r: usize)
    ensures
        r == if dev is Some {
            6int
        } else {
            4int
        },
        forall|network_id: u16, map_id: MapID|
            r == (#[trigger] spec_prefix(network_id, dev, map_id)).len(),
{
    match dev {
        Some(_) => 6,
        None => 4,
    }
}

/// A prefix has four bytes without a development tag and six with one.
pub proof fn lemma_prefix_len(network_id: u16, dev: Option<u16>, map_id: MapID)
    ensures
        spec_prefix(network_id, dev, map_id).len() == if dev is Some {
            6int
        } else {
            4int
        },
{
}

/// Two maps of stores opened alike (both with a development tag, or both
/// without) have the same prefix only if they agree in network, tag and
/// table.
pub proof fn lemma_prefix_injective(
    network_a: u16,
    dev_a: Option<u16>,
    map_a: MapID,
    network_b: u16,
    dev_b: Option<u16>,
    map_b: MapID,
)
    requires
        dev_a is Some <==> dev_b is Some,
        spec_prefix(network_a, dev_a, map_a) == spec_prefix(network_b, dev_b, map_b),
    ensures
        network_a == network_b,
        dev_a == dev_b,
        map_a == map_b,
{
    let pa = spec_prefix(network_a, dev_a, map_a);
    let pb = spec_prefix(network_b, dev_b, map_b);
    lemma_u16_le(network_a, network_b);
    lemma_u16_le(map_a.spec_id(), map_b.spec_id());
    assert(spec_u16_le(network_a) =~= pa.subrange(0, 2));
    assert(spec_u16_le(network_b) =~= pb.subrange(0, 2));
    if dev_a is Some {
        let da = dev_a->Some_0;
        let db = dev_b->Some_0;
        lemma_u16_le(da, db);
        assert(spec_u16_le(da) =~= pa.subrange(2, 4));
        assert(spec_u16_le(db) =~= pb.subrange(2, 4));
        assert(spec_u16_le(map_a.spec_id()) =~= pa.subrange(4, 6));
        assert(spec_u16_le(map_b.spec_id()) =~= pb.subrange(4, 6));
    } else {
        assert(spec_u16_le(map_a.spec_id()) =~= pa.subrange(2, 4));
        assert(spec_u16_le(map_b.spec_id()) =~= pb.subrange(2, 4));
    }
    MapID::lemma_id_injective(map_a, map_b);
}

/// Prefix isolation: of two different maps in stores opened alike, no raw key
/// of the one begins with the prefix of the other, so nothing stored under
/// the one shows up in a prefix scan of the other.
pub proof fn lemma_prefix_isolation(
    network_a: u16,
    dev_a: Option<u16>,
    map_a: MapID,
    network_b: u16,
    dev_b: Option<u16>,
    map_b: MapID,
    key: Seq<u8>,
)
    requires
        dev_a is Some <==> dev_b is Some,
        network_a != network_b || dev_a != dev_b || map_a != map_b,
    ensures
        !spec_prefix(network_b, dev_b, map_b).is_prefix_of(
            spec_raw_key(spec_prefix(network_a, dev_a, map_a), key),
        ),
{
    let pa = spec_prefix(network_a, dev_a, map_a);
    let pb = spec_prefix(network_b, dev_b, map_b);
    lemma_prefix_len(network_a, dev_a, map_a);
    lemma_prefix_len(network_b, dev_b, map_b);
    if pb.is_prefix_of(pa + key) {
        assert((pa + key).subrange(0, pb.len() as int) =~= pa);
        lemma_prefix_injective(network_a, dev_a, map_a, network_b, dev_b, map_b);
    }
}

/// The logical key is recovered from a raw key by dropping the prefix.
pub proof fn lemma_raw_key_split(prefix: Seq<u8>, key: Seq<u8>)
    ensures
        prefix.is_prefix_of(spec_raw_key(prefix, key)),
        spec_raw_key(prefix, key).subrange(prefix.len() as int, (prefix.len() + key.len()) as int)
            == key,
        spec_raw_key(prefix, key).len() == prefix.len() + key.len(),
{
    let raw = spec_raw_key(prefix, key);
    assert(raw.subrange(0, prefix.len() as int) =~= prefix);
    assert(raw.subrange(prefix.len() as int, (prefix.len() + key.len()) as int) =~= key);
}

/// Under one prefix, different logical keys have different raw keys.
pub proof fn lemma_raw_key_injective(prefix: Seq<u8>, a: Seq<u8>, b: Seq<u8>)
    requires
        spec_raw_key(prefix, a) == spec_raw_key(prefix, b),
    ensures
        a == b,
{
    lemma_raw_key_split(prefix, a);
    lemma_raw_key_split(prefix, b);
}

} // verus!
