//! The typed map and its atomic batch controller.
//!
//! A [`DataMap`] is a typed view over a shared byte store. It owns a key
//! prefix and the state of the atomic batch protocol: the in-progress flag,
//! the pending overlay and the checkpoint stack. It never touches the store
//! itself. A mutation outside a batch hands back the [`WriteOp`] that the
//! caller is to perform; inside a batch it is recorded in the overlay, and
//! [`DataMap::finish_atomic`] hands back the whole batch, to be written
//! atomically. A read that depends on the store takes what the store holds as
//! an argument.

use crate::bytes::{clone_bytes, concat_bytes, copy_range, starts_with};
use crate::codec::Codec;
use crate::error::StoreError;
use crate::id::MapID;
use crate::model::{
    batch_of, lengths_of, speculative, writes_of, MapState, RawWrite, WriteOp,
};
use crate::overlay::{
    lemma_cut_to, lemma_with_entry, lookup, overlay_entries, overlay_get, overlay_get_index,
    overlay_insert, overlay_len, overlay_new, overlay_truncate, scheduled, Slot,
};
use crate::prefix::{key_prefix, spec_prefix};
use core::marker::PhantomData;
use indexmap::IndexMap;
use std::collections::VecDeque;
use vstd::prelude::*;

verus! {

/// The view of an optional value.
pub open spec fn option_view<T: View>(value: Option<T>) -> Option<T::V> {
    match value {
        Some(v) => Some(v@),
        None => None,
    }
}

/// The typed reading of what is stored for a key: nothing where nothing is
/// stored, the decoded value where the bytes decode, else `Deserialize`.
pub open spec fn decoded<V: Codec>(bytes: Option<Seq<u8>>) -> Result<Option<V::V>, StoreError> {
    match bytes {
        None => Ok(None),
        Some(b) => match V::decoding(b) {
            Some(v) => Ok(Some(v)),
            None => Err(StoreError::Deserialize),
        },
    }
}

/// The typed reading of what the overlay schedules for a key.
pub open spec fn decoded_pending<V: Codec>(entry: Option<Option<Seq<u8>>>) -> Result<
    Option<Option<V::V>>,
    StoreError,
> {
    match entry {
        None => Ok(None),
        Some(s) => match decoded::<V>(s) {
            Ok(v) => Ok(Some(v)),
            Err(e) => Err(e),
        },
    }
}

/// The typed reading of an overlay slot, where its key and its value decode.
pub open spec fn typed_slot<K: Codec, V: Codec>(slot: Slot) -> Option<(K::V, Option<V::V>)> {
    match (K::decoding(slot.0), decoded::<V>(slot.1)) {
        (Some(k), Ok(v)) => Some((k, v)),
        _ => None,
    }
}

/// The entries of a scan that lie under the prefix, in scan order.
pub open spec fn under_prefix(prefix: Seq<u8>, scan: Seq<(Seq<u8>, Seq<u8>)>) -> Seq<
    (Seq<u8>, Seq<u8>),
>
    decreases scan.len(),
{
    if scan.len() == 0 {
        Seq::empty()
    } else if prefix.is_prefix_of(scan.last().0) {
        under_prefix(prefix, scan.drop_last()).push(scan.last())
    } else {
        under_prefix(prefix, scan.drop_last())
    }
}

/// The logical key bytes of a raw key under the prefix.
pub open spec fn logical_key(prefix: Seq<u8>, raw_key: Seq<u8>) -> Seq<u8> {
    raw_key.subrange(prefix.len() as int, raw_key.len() as int)
}

/// The views of the raw pairs of a scan.
pub open spec fn scan_view(scan: Seq<(Vec<u8>, Vec<u8>)>) -> Seq<(Seq<u8>, Seq<u8>)> {
    Seq::new(scan.len(), |i: int| (scan[i].0@, scan[i].1@))
}

/// A typed map over a shared byte store, with its atomic batch controller.
#[derive(Debug)]
pub struct DataMap<K: Codec, V: Codec> {
    /// The key prefix of the map.
    context: Vec<u8>,
    /// Whether an atomic batch is in progress.
    batch_in_progress: bool,
    /// The pending overlay of the batch.
    atomic_batch: IndexMap<Vec<u8>, Option<Vec<u8>>>,
    /// The checkpoint stack of the batch.
    checkpoint: VecDeque<usize>,
    /// The types of the logical keys and values.
    types: PhantomData<(K, V)>,
}

impl<K: Codec, V: Codec> View for DataMap<K, V> {
    type V = MapState;

    closed spec fn view(&self) -> MapState {
        MapState {
            prefix: self.context@,
            in_progress: self.batch_in_progress,
            pending: overlay_entries(self.atomic_batch),
            checkpoints: lengths_of(self.checkpoint@),
        }
    }
}

impl<K: Codec, V: Codec> DataMap<K, V> {
    /// The invariant of the map; see [`MapState::wf`].
    pub open spec fn wf(&self) -> bool {
        self@.wf()
    }

    /// Opens the map `map_id` of a store of network `network_id`, opened with
    /// the development tag `dev`. The map is idle.
    pub fn open(network_id: u16, dev: Option<u16>, map_id: MapID) -> (map: Self)
        ensures
            map.wf(),
            map@ == MapState::opened(spec_prefix(network_id, dev, map_id)),
    {
        let map = DataMap {
            context: key_prefix(network_id, dev, map_id),
            batch_in_progress: false,
            atomic_batch: overlay_new(),
            checkpoint: VecDeque::new(),
            types: PhantomData,
        };
        assert(map@.checkpoints =~= Seq::<nat>::empty());
        map
    }

    /// Returns the key prefix of the map.
    pub fn prefix(&self) -> (r: &Vec<u8>)
        ensures
            r@ == self@.prefix,
    {
        &self.context
    }

    /// Returns the raw key of a logical key: the prefix followed by the
    /// encoded key. Fails with `Serialize` exactly when the key has no
    /// encoding.
    pub fn create_prefixed_key(&self, key: &K) -> (r: Result<Vec<u8>, StoreError>)
        ensures
            match K::encoding(key@) {
                Some(k) => r matches Ok(raw) && raw@ == self@.raw_key(k),
                None => r == Err::<Vec<u8>, StoreError>(StoreError::Serialize),
            },
    {
        match key.encode() {
            Some(k) => Ok(concat_bytes(self.context.as_slice(), k.as_slice())),
            None => Err(StoreError::Serialize),
        }
    }

    /// Inserts the key-value pair. In a batch the pair goes into the overlay,
    /// replacing what the overlay held for the key, and nothing is to be
    /// written. Outside a batch the map is unchanged and the write to perform
    /// is returned. Fails with `Serialize`, changing nothing, exactly when the
    /// key or the value has no encoding.
    pub fn insert(&mut self, key: K, value: V) -> (r: Result<Option<WriteOp>, StoreError>)
        requires
            old(self).wf(),
        ensures
            final(self).wf(),
            match (K::encoding(key@), V::encoding(value@)) {
                (Some(k), Some(v)) => if old(self)@.in_progress {
                    &&& r matches Ok(None)
                    &&& final(self)@ == old(self)@.with_pending(k, Some(v))
                } else {
                    &&& r matches Ok(Some(op))
                    &&& op@ == RawWrite::Put(old(self)@.raw_key(k), v)
                    &&& final(self)@ == old(self)@
                },
                _ => {
                    &&& r == Err::<Option<WriteOp>, StoreError>(StoreError::Serialize)
                    &&& final(self)@ == old(self)@
                },
            },
    {
        let k = match key.encode() {
            Some(k) => k,
            None => {
                return Err(StoreError::Serialize);
            },
        };
        let v = match value.encode() {
            Some(v) => v,
            None => {
                return Err(StoreError::Serialize);
            },
        };
        if self.batch_in_progress {
            proof {
                lemma_with_entry(self@.pending, k@, Some(v@));
            }
            overlay_insert(&mut self.atomic_batch, k, Some(v));
            Ok(None)
        } else {
            let raw_key = concat_bytes(self.context.as_slice(), k.as_slice());
            Ok(Some(WriteOp::Put(raw_key, v)))
        }
    }

    /// Removes the key. In a batch a delete goes into the overlay, replacing
    /// what the overlay held for the key, whether or not the store holds the
    /// key. Outside a batch the map is unchanged and the delete to perform is
    /// returned. Fails with `Serialize`, changing nothing, exactly when the
    /// key has no encoding.
    pub fn remove(&mut self, key: &K) -> (r: Result<Option<WriteOp>, StoreError>)
        requires
            old(self).wf(),
        ensures
            final(self).wf(),
            match K::encoding(key@) {
                Some(k) => if old(self)@.in_progress {
                    &&& r matches Ok(None)
                    &&& final(self)@ == old(self)@.with_pending(k, None)
                } else {
                    &&& r matches Ok(Some(op))
                    &&& op@ == RawWrite::Delete(old(self)@.raw_key(k))
                    &&& final(self)@ == old(self)@
                },
                None => {
                    &&& r == Err::<Option<WriteOp>, StoreError>(StoreError::Serialize)
                    &&& final(self)@ == old(self)@
                },
            },
    {
        let k = match key.encode() {
            Some(k) => k,
            None => {
                return Err(StoreError::Serialize);
            },
        };
        if self.batch_in_progress {
            proof {
                lemma_with_entry(self@.pending, k@, None);
            }
            overlay_insert(&mut self.atomic_batch, k, None);
            Ok(None)
        } else {
            let raw_key = concat_bytes(self.context.as_slice(), k.as_slice());
            Ok(Some(WriteOp::Delete(raw_key)))
        }
    }

    /// Begins an atomic batch: from now on `insert` and `remove` are recorded
    /// in the overlay. The overlay must be empty.
    pub fn start_atomic(&mut self)
        requires
            old(self).wf(),
            old(self)@.pending.len() == 0,
        ensures
            final(self).wf(),
            final(self)@ == old(self)@.started(),
    {
        self.batch_in_progress = true;
    }

    /// Tells whether an atomic batch is in progress.
    pub fn is_atomic_in_progress(&self) -> (r: bool)
        ensures
            r == self@.in_progress,
    {
        self.batch_in_progress
    }

    /// Returns the number of slots in the overlay.
    pub fn pending_len(&self) -> (r: usize)
        ensures
            r == self@.pending.len(),
    {
        overlay_len(&self.atomic_batch)
    }

    /// Returns the top checkpoint, if there is one.
    pub fn last_checkpoint(&self) -> (r: Option<usize>)
        ensures
            match r {
                Some(c) => self@.checkpoints.len() > 0 && self@.checkpoints.last() == c,
                None => self@.checkpoints.len() == 0,
            },
    {
        let n: usize = self.checkpoint.len();
        if n > 0 {
            Some(self.checkpoint[n - 1])
        } else {
            None
        }
    }

    /// Saves the overlay's current length on the checkpoint stack, so that a
    /// later `atomic_rewind` cuts the overlay back to it.
    pub fn atomic_checkpoint(&mut self)
        requires
            old(self).wf(),
        ensures
            final(self).wf(),
            final(self)@ == old(self)@.checkpointed(),
    {
        let len: usize = overlay_len(&self.atomic_batch);
        self.checkpoint.push_back(len);
        assert(lengths_of(self.checkpoint@) =~= lengths_of(old(self).checkpoint@).push(len as nat));
    }

    /// Cuts the overlay back to the top checkpoint, which leaves the stack,
    /// or to nothing where the stack is empty. Where that leaves the overlay
    /// empty, the batch is no longer in progress.
    pub fn atomic_rewind(&mut self)
        requires
            old(self).wf(),
        ensures
            final(self).wf(),
            final(self)@ == old(self)@.rewound(),
    {
        let target: usize = match self.checkpoint.pop_back() {
            Some(c) => c,
            None => 0,
        };
        proof {
            lemma_cut_to(self@.pending, target as nat);
            let before = old(self)@.checkpoints;
            if before.len() > 0 {
                assert(self@.checkpoints =~= before.drop_last());
                assert(before[before.len() - 1] == target);
            } else {
                assert(self@.checkpoints =~= before);
            }
            assert(target as nat == old(self)@.rewind_target());
            assert forall|i: int| 0 <= i < self@.checkpoints.len() implies
                #[trigger] self@.checkpoints[i] <= target by {
                assert(self@.checkpoints[i] == before[i]);
            }
        }
        overlay_truncate(&mut self.atomic_batch, target);
        if overlay_len(&self.atomic_batch) == 0 {
            self.batch_in_progress = false;
        }
    }

    /// Aborts the batch: the overlay and the checkpoints are dropped and the
    /// map is idle. Nothing is to be written.
    pub fn abort_atomic(&mut self)
        requires
            old(self).wf(),
        ensures
            final(self).wf(),
            final(self)@ == old(self)@.idle(),
    {
        self.atomic_batch = overlay_new();
        self.checkpoint = VecDeque::new();
        self.batch_in_progress = false;
        assert(self@.checkpoints =~= Seq::<nat>::empty());
    }

    /// Finishes the batch: returns one write per overlay slot, a put for a
    /// scheduled value and a delete for a scheduled removal, in overlay
    /// order, to be written to the store atomically. The map is idle
    /// afterwards.
    pub fn finish_atomic(&mut self) -> (batch: Vec<WriteOp>)
        requires
            old(self).wf(),
        ensures
            final(self).wf(),
            writes_of(batch@) == old(self)@.batch(),
            final(self)@ == old(self)@.idle(),
    {
        let mut batch: Vec<WriteOp> = Vec::new();
        let len: usize = overlay_len(&self.atomic_batch);
        let mut i: usize = 0;
        while i < len
            invariant
                i <= len,
                len == overlay_entries(self.atomic_batch).len(),
                self.atomic_batch == old(self).atomic_batch,
                self.context == old(self).context,
                writes_of(batch@) == batch_of(self.context@, overlay_entries(self.atomic_batch)).take(
                    i as int,
                ),
            decreases len - i,
        {
            let ghost before = writes_of(batch@);
            match overlay_get_index(&self.atomic_batch, i) {
                Some((k, v)) => {
                    let raw_key = concat_bytes(self.context.as_slice(), k.as_slice());
                    match v {
                        Some(value) => batch.push(WriteOp::Put(raw_key, clone_bytes(value.as_slice()))),
                        None => batch.push(WriteOp::Delete(raw_key)),
                    }
                },
                None => {},
            }
            proof {
                let all = batch_of(self.context@, overlay_entries(self.atomic_batch));
                assert(writes_of(batch@) =~= before.push(all[i as int]));
                assert(all.take(i + 1) =~= all.take(i as int).push(all[i as int]));
            }
            i += 1;
        }
        proof {
            let all = batch_of(self.context@, overlay_entries(self.atomic_batch));
            assert(all.take(len as int) =~= all);
        }
        self.atomic_batch = overlay_new();
        self.checkpoint = VecDeque::new();
        self.batch_in_progress = false;
        assert(self@.checkpoints =~= Seq::<nat>::empty());
        batch
    }

    /// Tells whether the store holds the key, given what the store holds
    /// under the key's raw key.
    pub fn contains_key_confirmed(&self, confirmed: &Option<Vec<u8>>) -> (r: bool)
        ensures
            r == confirmed is Some,
    {
        confirmed.is_some()
    }

    /// Tells whether a speculative read finds the key, given what the store
    /// holds under the key's raw key: the overlay decides where it schedules
    /// something for the key, a write meaning present and a delete absent;
    /// else the store decides. Fails with `Serialize` exactly when the key
    /// has no encoding.
    pub fn contains_key_speculative(&self, key: &K, confirmed: &Option<Vec<u8>>) -> (r: Result<
        bool,
        StoreError,
    >)
        requires
            self.wf(),
        ensures
            match K::encoding(key@) {
                Some(k) => r == Ok::<bool, StoreError>(
                    speculative(self@.pending, k, scheduled(*confirmed)) is Some,
                ),
                None => r == Err::<bool, StoreError>(StoreError::Serialize),
            },
    {
        let k = match key.encode() {
            Some(k) => k,
            None => {
                return Err(StoreError::Serialize);
            },
        };
        if self.batch_in_progress {
            match overlay_get(&self.atomic_batch, &k) {
                Some(value) => {
                    return Ok(value.is_some());
                },
                None => {},
            }
        }
        Ok(self.contains_key_confirmed(confirmed))
    }

    /// Decodes optional bytes of a value: `None` where there are none;
    /// `Deserialize` where they do not decode.
    fn decode_value(bytes: &Option<Vec<u8>>) -> (r: Result<Option<V>, StoreError>)
        ensures
            match decoded::<V>(scheduled(*bytes)) {
                Ok(v) => r matches Ok(x) && option_view(x) == v,
                Err(e) => r matches Err(f) && f == e,
            },
    {
        match bytes {
            Some(bytes) => match V::decode(bytes.as_slice()) {
                Some(v) => Ok(Some(v)),
                None => Err(StoreError::Deserialize),
            },
            None => Ok(None),
        }
    }

    /// Decodes what the store holds under a key's raw key: `None` where it
    /// holds nothing; fails with `Deserialize` exactly when it holds bytes
    /// that do not decode.
    pub fn get_confirmed(&self, confirmed: &Option<Vec<u8>>) -> (r: Result<Option<V>, StoreError>)
        ensures
            match decoded::<V>(scheduled(*confirmed)) {
                Ok(v) => r matches Ok(x) && option_view(x) == v,
                Err(e) => r matches Err(f) && f == e,
            },
    {
        Self::decode_value(confirmed)
    }

    /// Returns what the overlay schedules for the key: `None` where it
    /// schedules nothing, `Some(None)` for a delete, `Some(Some(v))` for a
    /// write of `v`. Fails with `Serialize` exactly when the key has no
    /// encoding, and with `Deserialize` exactly when the scheduled bytes do
    /// not decode.
    pub fn get_pending(&self, key: &K) -> (r: Result<Option<Option<V>>, StoreError>)
        requires
            self.wf(),
        ensures
            match K::encoding(key@) {
                Some(k) => match decoded_pending::<V>(lookup(self@.pending, k)) {
                    Ok(None) => r matches Ok(None),
                    Ok(Some(v)) => r matches Ok(Some(x)) && option_view(x) == v,
                    Err(e) => r matches Err(f) && f == e,
                },
                None => r matches Err(StoreError::Serialize),
            },
    {
        let k = match key.encode() {
            Some(k) => k,
            None => {
                return Err(StoreError::Serialize);
            },
        };
        if !self.batch_in_progress {
            return Ok(None);
        }
        match overlay_get(&self.atomic_batch, &k) {
            Some(value) => match Self::decode_value(value) {
                Ok(v) => Ok(Some(v)),
                Err(e) => Err(e),
            },
            None => Ok(None),
        }
    }

    /// Reads the key speculatively, given what the store holds under the
    /// key's raw key: the overlay wins where it schedules something for the
    /// key, a delete reading as absent; else the store's value is read. Fails
    /// with `Serialize` exactly when the key has no encoding, and with
    /// `Deserialize` exactly when the bytes that the read arrives at do not
    /// decode.
    pub fn get_speculative(&self, key: &K, confirmed: &Option<Vec<u8>>) -> (r: Result<
        Option<V>,
        StoreError,
    >)
        requires
            self.wf(),
        ensures
            match K::encoding(key@) {
                Some(k) => match decoded::<V>(speculative(self@.pending, k, scheduled(*confirmed))) {
                    Ok(v) => r matches Ok(x) && option_view(x) == v,
                    Err(e) => r matches Err(f) && f == e,
                },
                None => r matches Err(StoreError::Serialize),
            },
    {
        match self.get_pending(key) {
            Ok(Some(scheduled_value)) => Ok(scheduled_value),
            Ok(None) => self.get_confirmed(confirmed),
            Err(e) => Err(e),
        }
    }

    /// Returns the overlay, typed, in insertion order. Fails with
    /// `Deserialize` exactly when the key or the value of some slot does not
    /// decode.
    pub fn iter_pending(&self) -> (r: Result<Vec<(K, Option<V>)>, StoreError>)
        ensures
            match r {
                Ok(items) => {
                    &&& items@.len() == self@.pending.len()
                    &&& forall|i: int|
                        0 <= i < items@.len() ==> typed_slot::<K, V>(#[trigger] self@.pending[i])
                            == Some((items@[i].0@, option_view(items@[i].1)))
                },
                Err(e) => {
                    &&& e == StoreError::Deserialize
                    &&& exists|i: int|
                        0 <= i < self@.pending.len() && typed_slot::<K, V>(
                            #[trigger] self@.pending[i],
                        ) is None
                },
            },
    {
        let mut items: Vec<(K, Option<V>)> = Vec::new();
        let len: usize = overlay_len(&self.atomic_batch);
        let mut i: usize = 0;
        while i < len
            invariant
                i <= len,
                len == self@.pending.len(),
                items@.len() == i,
                forall|j: int|
                    0 <= j < i ==> typed_slot::<K, V>(#[trigger] self@.pending[j]) == Some(
                        (items@[j].0@, option_view(items@[j].1)),
                    ),
            decreases len - i,
        {
            match overlay_get_index(&self.atomic_batch, i) {
                Some((k, v)) => {
                    let key = match K::decode(k.as_slice()) {
                        Some(key) => key,
                        None => {
                            assert(typed_slot::<K, V>(self@.pending[i as int]) is None);
                            return Err(StoreError::Deserialize);
                        },
                    };
                    let value = match Self::decode_value(v) {
                        Ok(value) => value,
                        Err(_) => {
                            assert(typed_slot::<K, V>(self@.pending[i as int]) is None);
                            return Err(StoreError::Deserialize);
                        },
                    };
                    items.push((key, value));
                },
                None => {},
            }
            i += 1;
        }
        Ok(items)
    }

    /// Returns the positions, in a scan, of the pairs that lie under the map's
    /// prefix, in scan order.
    fn own_positions(&self, scan: &Vec<(Vec<u8>, Vec<u8>)>) -> (r: Vec<usize>)
        ensures
            r@.len() == under_prefix(self@.prefix, scan_view(scan@)).len(),
            forall|j: int|
                0 <= j < r@.len() ==> {
                    &&& (#[trigger] r@[j]) < scan@.len()
                    &&& scan_view(scan@)[r@[j] as int] == under_prefix(
                        self@.prefix,
                        scan_view(scan@),
                    )[j]
                    &&& self@.prefix.is_prefix_of(
                        under_prefix(self@.prefix, scan_view(scan@))[j].0,
                    )
                },
    {
        let ghost all = scan_view(scan@);
        let mut positions: Vec<usize> = Vec::new();
        let mut i: usize = 0;
        assert(all.take(0) =~= Seq::<(Seq<u8>, Seq<u8>)>::empty());
        while i < scan.len()
            invariant
                i <= scan@.len(),
                all == scan_view(scan@),
                positions@.len() == under_prefix(self@.prefix, all.take(i as int)).len(),
                forall|j: int|
                    0 <= j < positions@.len() ==> {
                        &&& (#[trigger] positions@[j]) < i
                        &&& all[positions@[j] as int] == under_prefix(
                            self@.prefix,
                            all.take(i as int),
                        )[j]
                        &&& self@.prefix.is_prefix_of(
                            under_prefix(self@.prefix, all.take(i as int))[j].0,
                        )
                    },
            decreases scan@.len() - i,
        {
            proof {
                assert(all.take(i + 1).drop_last() =~= all.take(i as int));
                assert(all.take(i + 1).last() == all[i as int]);
            }
            if starts_with(scan[i].0.as_slice(), self.context.as_slice()) {
                positions.push(i);
            }
            i += 1;
        }
        proof {
            assert(all.take(i as int) =~= all);
        }
        positions
    }

    /// Types the result of a prefix scan of the store: of the raw pairs that
    /// lie under the map's prefix, in scan order, the key without the prefix
    /// and the value, both decoded. Pairs under another prefix are left out.
    /// Fails with `Deserialize` exactly when a key or a value under the
    /// prefix does not decode.
    pub fn iter_confirmed(&self, scan: &Vec<(Vec<u8>, Vec<u8>)>) -> (r: Result<Vec<(K, V)>, StoreError>)
        ensures
            ({
                let own = under_prefix(self@.prefix, scan_view(scan@));
                match r {
                    Ok(items) => {
                        &&& items@.len() == own.len()
                        &&& forall|i: int|
                            0 <= i < items@.len() ==> {
                            &&& K::decoding(logical_key(self@.prefix, (#[trigger] own[i]).0))
                                == Some(items@[i].0@)
                            &&& V::decoding(own[i].1) == Some(items@[i].1@)
                        }
                    },
                    Err(e) => {
                        &&& e == StoreError::Deserialize
                        &&& exists|i: int| 0 <= i < own.len() && (K::decoding(
                            logical_key(self@.prefix, (#[trigger] own[i]).0),
                        ) is None || V::decoding(own[i].1) is None)
                    },
                }
            }),
    {
        let positions = self.own_positions(scan);
        let ghost own = under_prefix(self@.prefix, scan_view(scan@));
        let mut items: Vec<(K, V)> = Vec::new();
        let mut i: usize = 0;
        while i < positions.len()
            invariant
                i <= positions@.len() == own.len(),
                own == under_prefix(self@.prefix, scan_view(scan@)),
                forall|j: int|
                    0 <= j < positions@.len() ==> {
                        &&& (#[trigger] positions@[j]) < scan@.len()
                        &&& scan_view(scan@)[positions@[j] as int] == own[j]
                        &&& self@.prefix.is_prefix_of(own[j].0)
                    },
                items@.len() == i,
                forall|j: int| 0 <= j < i ==> {
                            &&& K::decoding(logical_key(self@.prefix, (#[trigger] own[j]).0))
                                == Some(items@[j].0@)
                            &&& V::decoding(own[j].1) == Some(items@[j].1@)
                        },
            decreases positions@.len() - i,
        {
            let pair = &scan[positions[i]];
            proof {
                assert(scan_view(scan@)[positions@[i as int] as int] == own[i as int]);
            }
            let k = copy_range(pair.0.as_slice(), self.context.len(), pair.0.len());
            let key = match K::decode(k.as_slice()) {
                Some(key) => key,
                None => {
                    return Err(StoreError::Deserialize);
                },
            };
            let value = match V::decode(pair.1.as_slice()) {
                Some(value) => value,
                None => {
                    return Err(StoreError::Deserialize);
                },
            };
            items.push((key, value));
            i += 1;
        }
        Ok(items)
    }

    /// Types the keys of a prefix scan of the store: of the raw pairs that lie
    /// under the map's prefix, in scan order, the key without the prefix,
    /// decoded. Fails with `Deserialize` exactly when a key under the prefix
    /// does not decode.
    pub fn keys_confirmed(&self, scan: &Vec<(Vec<u8>, Vec<u8>)>) -> (r: Result<Vec<K>, StoreError>)
        ensures
            ({
                let own = under_prefix(self@.prefix, scan_view(scan@));
                match r {
                    Ok(items) => {
                        &&& items@.len() == own.len()
                        &&& forall|i: int|
                            0 <= i < items@.len() ==> K::decoding(logical_key(self@.prefix, (#[trigger] own[i]).0)) == Some(items@[i]@)
                    },
                    Err(e) => {
                        &&& e == StoreError::Deserialize
                        &&& exists|i: int| 0 <= i < own.len() && K::decoding(logical_key(self@.prefix, (#[trigger] own[i]).0)) is None
                    },
                }
            }),
    {
        let positions = self.own_positions(scan);
        let ghost own = under_prefix(self@.prefix, scan_view(scan@));
        let mut items: Vec<K> = Vec::new();
        let mut i: usize = 0;
        while i < positions.len()
            invariant
                i <= positions@.len() == own.len(),
                own == under_prefix(self@.prefix, scan_view(scan@)),
                forall|j: int|
                    0 <= j < positions@.len() ==> {
                        &&& (#[trigger] positions@[j]) < scan@.len()
                        &&& scan_view(scan@)[positions@[j] as int] == own[j]
                        &&& self@.prefix.is_prefix_of(own[j].0)
                    },
                items@.len() == i,
                forall|j: int| 0 <= j < i ==> K::decoding(logical_key(self@.prefix, (#[trigger] own[j]).0)) == Some(items@[j]@),
            decreases positions@.len() - i,
        {
            let pair = &scan[positions[i]];
            proof {
                assert(scan_view(scan@)[positions@[i as int] as int] == own[i as int]);
            }
            let k = copy_range(pair.0.as_slice(), self.context.len(), pair.0.len());
            let key = match K::decode(k.as_slice()) {
                Some(key) => key,
                None => {
                    return Err(StoreError::Deserialize);
                },
            };
            items.push(key);
            i += 1;
        }
        Ok(items)
    }

    /// Types the values of a prefix scan of the store: of the raw pairs that
    /// lie under the map's prefix, in scan order, the value, decoded. Fails
    /// with `Deserialize` exactly when a value under the prefix does not
    /// decode.
    pub fn values_confirmed(&self, scan: &Vec<(Vec<u8>, Vec<u8>)>) -> (r: Result<Vec<V>, StoreError>)
        ensures
            ({
                let own = under_prefix(self@.prefix, scan_view(scan@));
                match r {
                    Ok(items) => {
                        &&& items@.len() == own.len()
                        &&& forall|i: int|
                            0 <= i < items@.len() ==> V::decoding((#[trigger] own[i]).1) == Some(items@[i]@)
                    },
                    Err(e) => {
                        &&& e == StoreError::Deserialize
                        &&& exists|i: int| 0 <= i < own.len() && V::decoding((#[trigger] own[i]).1) is None
                    },
                }
            }),
    {
        let positions = self.own_positions(scan);
        let ghost own = under_prefix(self@.prefix, scan_view(scan@));
        let mut items: Vec<V> = Vec::new();
        let mut i: usize = 0;
        while i < positions.len()
            invariant
                i <= positions@.len() == own.len(),
                own == under_prefix(self@.prefix, scan_view(scan@)),
                forall|j: int|
                    0 <= j < positions@.len() ==> {
                        &&& (#[trigger] positions@[j]) < scan@.len()
                        &&& scan_view(scan@)[positions@[j] as int] == own[j]
                        &&& self@.prefix.is_prefix_of(own[j].0)
                    },
                items@.len() == i,
                forall|j: int| 0 <= j < i ==> V::decoding((#[trigger] own[j]).1) == Some(items@[j]@),
            decreases positions@.len() - i,
        {
            let pair = &scan[positions[i]];
            proof {
                assert(scan_view(scan@)[positions@[i as int] as int] == own[i as int]);
            }
            let value = match V::decode(pair.1.as_slice()) {
                Some(value) => value,
                None => {
                    return Err(StoreError::Deserialize);
                },
            };
            items.push(value);
            i += 1;
        }
        Ok(items)
    }
}

/// Every pair that a scan has under a prefix is a pair of the scan, and its
/// key begins with the prefix.
pub proof fn lemma_under_prefix_members(prefix: Seq<u8>, scan: Seq<(Seq<u8>, Seq<u8>)>)
    ensures
        forall|i: int|
            0 <= i < under_prefix(prefix, scan).len() ==> {
                &&& prefix.is_prefix_of((#[trigger] under_prefix(prefix, scan)[i]).0)
                &&& scan.contains(under_prefix(prefix, scan)[i])
            },
    decreases scan.len(),
{
    if scan.len() > 0 {
        let init = scan.drop_last();
        lemma_under_prefix_members(prefix, init);
        let own = under_prefix(prefix, scan);
        assert forall|i: int| 0 <= i < own.len() implies {
            &&& prefix.is_prefix_of((#[trigger] own[i]).0)
            &&& scan.contains(own[i])
        } by {
            if i < under_prefix(prefix, init).len() {
                let pair = under_prefix(prefix, init)[i];
                assert(own[i] == pair);
                assert(init.contains(pair));
                let j = choose|j: int| 0 <= j < init.len() && init[j] == pair;
                assert(scan[j] == pair);
            } else {
                assert(own[i] == scan.last());
                assert(scan[scan.len() - 1] == scan.last());
            }
        }
    }
}

} // verus!
