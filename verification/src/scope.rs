//! Scoped use of the atomic batch protocol.
//!
//! A batch scope is a region whose mutations commit as a unit when it ends
//! well and are undone when it fails. Scopes nest: the outermost one starts
//! and finishes the batch, an inner one sets a checkpoint and, on failure,
//! rewinds to it. A finalize is a top-level region that runs either for real
//! (commit on success) or dry (always discard).
//!
//! The body of a region is the caller's: the caller enters the region, runs
//! the body, and leaves the region saying how the body ended. Leaving hands
//! back the writes to perform on the store, if any.

use crate::codec::Codec;
use crate::error::StoreError;
use crate::map::DataMap;
use crate::model::{writes_of, MapState, RawWrite, WriteOp};
use vstd::prelude::*;

verus! {

/// The place of a batch scope in the nesting.
#[derive(Clone, Copy, Debug, PartialEq, Eq, Structural)]
pub enum ScopeKind {
    /// The scope started the batch and is the one to finish or abort it.
    Outer,
    /// The scope runs inside a batch that was already in progress.
    Inner,
}

/// How a finalize treats a body that succeeds.
#[derive(Clone, Copy, Debug, PartialEq, Eq, Structural)]
pub enum FinalizeMode {
    /// Commit the batch.
    RealRun,
    /// Discard the batch: nothing reaches the store.
    DryRun,
}

/// The state of a map after a batch scope is entered: an idle map starts a
/// batch, a map with a batch in progress takes a checkpoint.
pub open spec fn scope_entered(state: MapState) -> MapState {
    if state.in_progress {
        state.checkpointed()
    } else {
        state.started()
    }
}

/// The state of a map after a batch scope is left.
pub open spec fn scope_left(state: MapState, kind: ScopeKind, succeeded: bool) -> MapState {
    match (kind, succeeded) {
        (ScopeKind::Outer, _) => state.idle(),
        (ScopeKind::Inner, true) => state,
        (ScopeKind::Inner, false) => state.rewound(),
    }
}

/// The writes that leaving a batch scope hands to the store: the committed
/// overlay for an outer scope that succeeded, nothing otherwise.
pub open spec fn scope_writes(state: MapState, kind: ScopeKind, succeeded: bool) -> Seq<RawWrite> {
    match (kind, succeeded) {
        (ScopeKind::Outer, true) => state.batch(),
        _ => Seq::empty(),
    }
}

/// The writes that leaving a finalize hands to the store: the committed
/// overlay for a real run that succeeded, nothing otherwise.
pub open spec fn finalize_writes(state: MapState, mode: FinalizeMode, succeeded: bool) -> Seq<
    RawWrite,
> {
    match (mode, succeeded) {
        (FinalizeMode::RealRun, true) => state.batch(),
        _ => Seq::empty(),
    }
}

impl<K: Codec, V: Codec> DataMap<K, V> {
    /// Enters a batch scope. Where no batch is in progress the scope is the
    /// outer one and starts the batch; else it is an inner one and takes a
    /// checkpoint.
    pub fn enter_batch_scope(&mut self) -> (kind: ScopeKind)
        requires
            old(self).wf(),
        ensures
            final(self).wf(),
            final(self)@ == scope_entered(old(self)@),
            kind == if old(self)@.in_progress {
                ScopeKind::Inner
            } else {
                ScopeKind::Outer
            },
    {
        if self.is_atomic_in_progress() {
            self.atomic_checkpoint();
            ScopeKind::Inner
        } else {
            self.start_atomic();
            ScopeKind::Outer
        }
    }

    /// Leaves a batch scope whose body succeeded or failed. An outer scope
    /// finishes the batch on success, handing back its writes, and aborts it
    /// on failure. An inner scope leaves everything in place on success, so
    /// that its operations commit if and when the outer scope does, and
    /// rewinds to its checkpoint on failure.
    pub fn exit_batch_scope(&mut self, kind: ScopeKind, succeeded: bool) -> (batch: Vec<WriteOp>)
        requires
            old(self).wf(),
        ensures
            final(self).wf(),
            final(self)@ == scope_left(old(self)@, kind, succeeded),
            writes_of(batch@) == scope_writes(old(self)@, kind, succeeded),
    {
        match kind {
            ScopeKind::Outer => {
                if succeeded {
                    self.finish_atomic()
                } else {
                    self.abort_atomic();
                    let batch: Vec<WriteOp> = Vec::new();
                    assert(writes_of(batch@) =~= Seq::<RawWrite>::empty());
                    batch
                }
            },
            ScopeKind::Inner => {
                if !succeeded {
                    self.atomic_rewind();
                }
                let batch: Vec<WriteOp> = Vec::new();
                assert(writes_of(batch@) =~= Seq::<RawWrite>::empty());
                batch
            },
        }
    }

    /// Enters a finalize. Fails with `InvalidState`, changing nothing,
    /// exactly when a batch is already in progress; else the batch starts.
    pub fn enter_finalize(&mut self) -> (r: Result<(), StoreError>)
        requires
            old(self).wf(),
        ensures
            final(self).wf(),
            if old(self)@.in_progress {
                &&& r == Err::<(), StoreError>(StoreError::InvalidState)
                &&& final(self)@ == old(self)@
            } else {
                &&& r == Ok::<(), StoreError>(())
                &&& final(self)@ == old(self)@.started()
            },
    {
        if self.is_atomic_in_progress() {
            return Err(StoreError::InvalidState);
        }
        self.start_atomic();
        Ok(())
    }

    /// Leaves a finalize whose body succeeded or failed. A real run that
    /// succeeded finishes the batch and hands back its writes. A dry run, and
    /// any run that failed, aborts the batch: nothing is to be written.
    pub fn exit_finalize(&mut self, mode: FinalizeMode, succeeded: bool) -> (batch: Vec<WriteOp>)
        requires
            old(self).wf(),
        ensures
            final(self).wf(),
            final(self)@ == old(self)@.idle(),
            writes_of(batch@) == finalize_writes(old(self)@, mode, succeeded),
    {
        match (mode, succeeded) {
            (FinalizeMode::RealRun, true) => self.finish_atomic(),
            _ => {
                self.abort_atomic();
                let batch: Vec<WriteOp> = Vec::new();
                assert(writes_of(batch@) =~= Seq::<RawWrite>::empty());
                batch
            },
        }
    }
}

} // verus!
