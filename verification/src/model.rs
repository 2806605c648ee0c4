//! The mathematical model of the map layer.
//!
//! A map is modelled by a [`MapState`]: its prefix, its in-progress flag, its
//! pending overlay and its stack of checkpoints. The byte store is modelled
//! by a [`Store`], a finite or infinite map from raw keys to raw values, and
//! what a map asks the store to do by a [`RawWrite`]. The contracts of
//! [`crate::map::DataMap`] are stated over these.

use crate::overlay::{cut_to, has_key, keys_distinct, lookup, with_entry, Slot};
use crate::prefix::spec_raw_key;
use vstd::prelude::*;

verus! {

/// A write that the store is asked to perform, as a mathematical value.
pub enum RawWrite {
    /// Store the value under the raw key.
    Put(Seq<u8>, Seq<u8>),
    /// Remove whatever is stored under the raw key.
    Delete(Seq<u8>),
}

/// A write that the store is asked to perform.
#[derive(Debug, PartialEq, Eq)]
pub enum WriteOp {
    /// Store the value under the raw key.
    Put(Vec<u8>, Vec<u8>),
    /// Remove whatever is stored under the raw key.
    Delete(Vec<u8>),
}

impl View for WriteOp {
    type V = RawWrite;

    open spec fn view(&self) -> RawWrite {
        match self {
            WriteOp::Put(k, v) => RawWrite::Put(k@, v@),
            WriteOp::Delete(k) => RawWrite::Delete(k@),
        }
    }
}

/// The writes of a vector of operations, in order.
pub open spec fn writes_of(ops: Seq<WriteOp>) -> Seq<RawWrite> {
    Seq::new(ops.len(), |i: int| ops[i]@)
}

/// The confirmed state: what the byte store holds under each raw key.
pub type Store = Map<Seq<u8>, Seq<u8>>;

/// What the store holds under a raw key, if anything.
pub open spec fn stored(store: Store, raw_key: Seq<u8>) -> Option<Seq<u8>> {
    if store.dom().contains(raw_key) {
        Some(store[raw_key])
    } else {
        None
    }
}

/// The store after one write.
pub open spec fn apply_write(store: Store, write: RawWrite) -> Store {
    match write {
        RawWrite::Put(k, v) => store.insert(k, v),
        RawWrite::Delete(k) => store.remove(k),
    }
}

/// The store after a batch of writes, performed in order.
pub open spec fn apply_batch(store: Store, writes: Seq<RawWrite>) -> Store
    decreases writes.len(),
{
    if writes.len() == 0 {
        store
    } else {
        apply_write(apply_batch(store, writes.drop_last()), writes.last())
    }
}

/// The write that commits one overlay slot of a map with the given prefix.
pub open spec fn slot_write(prefix: Seq<u8>, slot: Slot) -> RawWrite {
    match slot.1 {
        Some(v) => RawWrite::Put(spec_raw_key(prefix, slot.0), v),
        None => RawWrite::Delete(spec_raw_key(prefix, slot.0)),
    }
}

/// The batch that commits an overlay: one write per slot, in overlay order.
pub open spec fn batch_of(prefix: Seq<u8>, entries: Seq<Slot>) -> Seq<RawWrite> {
    Seq::new(entries.len(), |i: int| slot_write(prefix, entries[i]))
}

/// What a speculative read of a logical key sees: the overlay where it
/// schedules something for the key, else what the store holds.
pub open spec fn speculative(entries: Seq<Slot>, key: Seq<u8>, confirmed: Option<Seq<u8>>) -> Option<
    Seq<u8>,
> {
    match lookup(entries, key) {
        Some(scheduled) => scheduled,
        None => confirmed,
    }
}

/// Checkpoints never decrease from the bottom of the stack to its top.
pub open spec fn checkpoints_ordered(checkpoints: Seq<nat>) -> bool {
    forall|i: int, j: int| 0 <= i <= j < checkpoints.len() ==> checkpoints[i] <= checkpoints[j]
}

/// The checkpoints of a stack, as lengths.
pub open spec fn lengths_of(checkpoints: Seq<usize>) -> Seq<nat> {
    Seq::new(checkpoints.len(), |i: int| checkpoints[i] as nat)
}

/// The state of one map.
pub struct MapState {
    /// The key prefix; it never changes.
    pub prefix: Seq<u8>,
    /// Whether an atomic batch is active.
    pub in_progress: bool,
    /// The pending overlay, in insertion order.
    pub pending: Seq<Slot>,
    /// The stack of checkpoints, bottom first: each is a length that the
    /// overlay had.
    pub checkpoints: Seq<nat>,
}

impl MapState {
    /// The invariant of a map: no key occupies two overlay slots, the overlay
    /// is empty while no batch is active, and the checkpoints never decrease
    /// and never exceed the overlay's length. Checkpoints may outlive their
    /// batch: a rewind that empties the overlay ends the batch and leaves the
    /// checkpoints below the one it answered on the stack.
    pub open spec fn wf(self) -> bool {
        &&& keys_distinct(self.pending)
        &&& !self.in_progress ==> self.pending.len() == 0
        &&& checkpoints_ordered(self.checkpoints)
        &&& forall|i: int|
            0 <= i < self.checkpoints.len() ==> #[trigger] self.checkpoints[i] <= self.pending.len()
    }

    /// A freshly opened map.
    pub open spec fn opened(prefix: Seq<u8>) -> MapState {
        MapState { prefix, in_progress: false, pending: Seq::empty(), checkpoints: Seq::empty() }
    }

    /// The state after a batch begins.
    pub open spec fn started(self) -> MapState {
        MapState { in_progress: true, ..self }
    }

    /// The state after the overlay takes an entry for `key`.
    pub open spec fn with_pending(self, key: Seq<u8>, value: Option<Seq<u8>>) -> MapState {
        MapState { pending: with_entry(self.pending, key, value), ..self }
    }

    /// The state after a checkpoint: the overlay's length goes on the stack.
    pub open spec fn checkpointed(self) -> MapState {
        MapState { checkpoints: self.checkpoints.push(self.pending.len()), ..self }
    }

    /// The length that a rewind cuts the overlay back to: the top checkpoint,
    /// or zero where the stack is empty.
    pub open spec fn rewind_target(self) -> nat {
        if self.checkpoints.len() > 0 {
            self.checkpoints.last()
        } else {
            0
        }
    }

    /// The state after a rewind: the top checkpoint leaves the stack, the
    /// overlay is cut back to it, and a batch whose overlay is thereby empty
    /// is no longer active.
    pub open spec fn rewound(self) -> MapState {
        let pending = cut_to(self.pending, self.rewind_target());
        MapState {
            prefix: self.prefix,
            in_progress: self.in_progress && pending.len() > 0,
            pending,
            checkpoints: if self.checkpoints.len() > 0 {
                self.checkpoints.drop_last()
            } else {
                self.checkpoints
            },
        }
    }

    /// The state after the batch ends, by abort or by commit: idle, with
    /// nothing pending and no checkpoint.
    pub open spec fn idle(self) -> MapState {
        MapState::opened(self.prefix)
    }

    /// The writes that commit the overlay.
    pub open spec fn batch(self) -> Seq<RawWrite> {
        batch_of(self.prefix, self.pending)
    }

    /// The raw key of a logical key in this map.
    pub open spec fn raw_key(self, key: Seq<u8>) -> Seq<u8> {
        spec_raw_key(self.prefix, key)
    }

    /// What a speculative read of `key` sees over the given store.
    pub open spec fn speculative(self, store: Store, key: Seq<u8>) -> Option<Seq<u8>> {
        speculative(self.pending, key, stored(store, self.raw_key(key)))
    }

    /// The state of the controller.
    pub open spec fn controller(self) -> Controller {
        if self.in_progress {
            Controller::Batching(self.checkpoints.len() + 1)
        } else {
            Controller::Idle
        }
    }

    /// Whether the overlay schedules anything for `key`.
    pub open spec fn touches(self, key: Seq<u8>) -> bool {
        has_key(self.pending, key)
    }
}

/// The state of a map's controller: idle, or batching at a depth of one more
/// than the number of checkpoints on the stack.
pub enum Controller {
    /// No batch is in progress.
    Idle,
    /// A batch is in progress, at the given depth.
    Batching(nat),
}

/// One use of a map: a mutation with its encoded key and value, or a step
/// of the batch protocol.
pub enum Command {
    /// `insert` of the encoded key and value.
    Insert(Seq<u8>, Seq<u8>),
    /// `remove` of the encoded key.
    Remove(Seq<u8>),
    /// `start_atomic`.
    Start,
    /// `atomic_checkpoint`.
    Checkpoint,
    /// `atomic_rewind`.
    Rewind,
    /// `abort_atomic`.
    Abort,
    /// `finish_atomic`, with its batch written to the store.
    Finish,
}

impl MapState {
    /// The state after a command.
    pub open spec fn step(self, command: Command) -> MapState {
        match command {
            Command::Insert(k, v) => if self.in_progress {
                self.with_pending(k, Some(v))
            } else {
                self
            },
            Command::Remove(k) => if self.in_progress {
                self.with_pending(k, None)
            } else {
                self
            },
            Command::Start => self.started(),
            Command::Checkpoint => self.checkpointed(),
            Command::Rewind => self.rewound(),
            Command::Abort => self.idle(),
            Command::Finish => self.idle(),
        }
    }

    /// The writes that a command hands to the store.
    pub open spec fn writes(self, command: Command) -> Seq<RawWrite> {
        match command {
            Command::Insert(k, v) => if self.in_progress {
                Seq::empty()
            } else {
                seq![RawWrite::Put(self.raw_key(k), v)]
            },
            Command::Remove(k) => if self.in_progress {
                Seq::empty()
            } else {
                seq![RawWrite::Delete(self.raw_key(k))]
            },
            Command::Finish => self.batch(),
            _ => Seq::empty(),
        }
    }
}

/// The map and the store after a sequence of commands, each command's writes
/// being performed on the store as it is given.
pub open spec fn run(state: MapState, store: Store, commands: Seq<Command>) -> (MapState, Store)
    decreases commands.len(),
{
    if commands.len() == 0 {
        (state, store)
    } else {
        let (before, held) = run(state, store, commands.drop_last());
        (before.step(commands.last()), apply_batch(held, before.writes(commands.last())))
    }
}

} // verus!
