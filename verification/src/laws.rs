//! What holds of the map layer as a whole.
//!
//! The laws are stated over the model of [`crate::model`], which the
//! contracts of [`crate::map::DataMap`] tie the executable code to.

use crate::id::MapID;
use crate::map::{lemma_under_prefix_members, under_prefix};
use crate::model::{
    apply_batch, batch_of, run, slot_write, speculative, stored, Command, Controller, MapState,
    RawWrite, Store,
};
use crate::overlay::{
    has_key, keys_distinct, lemma_cut_to, lemma_lookup_at, lemma_with_entry, lookup,
    position_of, with_entry, Slot,
};
use crate::prefix::{lemma_prefix_isolation, lemma_raw_key_injective, spec_prefix, spec_raw_key};
use vstd::prelude::*;

verus! {

/// The batch of an overlay without its last slot is the batch of the overlay
/// without its last write.
pub proof fn lemma_batch_of_drop_last(prefix: Seq<u8>, entries: Seq<Slot>)
    requires
        entries.len() > 0,
    ensures
        batch_of(prefix, entries).drop_last() == batch_of(prefix, entries.drop_last()),
        batch_of(prefix, entries).last() == slot_write(prefix, entries.last()),
{
    assert(batch_of(prefix, entries).drop_last() =~= batch_of(prefix, entries.drop_last()));
}

/// A key other than that of the last slot resolves as it does without the
/// last slot.
pub proof fn lemma_lookup_drop_last(entries: Seq<Slot>, key: Seq<u8>)
    requires
        keys_distinct(entries),
        entries.len() > 0,
        entries.last().0 != key,
    ensures
        keys_distinct(entries.drop_last()),
        lookup(entries, key) == lookup(entries.drop_last(), key),
{
    let init = entries.drop_last();
    assert forall|i: int, j: int|
        0 <= i < init.len() && 0 <= j < init.len() && i != j implies (#[trigger] init[i]).0 != (
    #[trigger] init[j]).0 by {
        assert(init[i] == entries[i]);
        assert(init[j] == entries[j]);
    }
    if has_key(init, key) {
        let i = position_of(init, key);
        assert(entries[i] == init[i]);
        lemma_lookup_at(entries, i);
        lemma_lookup_at(init, i);
    } else if has_key(entries, key) {
        let j = position_of(entries, key);
        assert(init[j] == entries[j]);
    }
}

/// Committing an overlay leaves alone every raw key that no slot of it
/// addresses.
pub proof fn lemma_batch_untouched(
    prefix: Seq<u8>,
    entries: Seq<Slot>,
    store: Store,
    raw_key: Seq<u8>,
)
    requires
        forall|i: int|
            0 <= i < entries.len() ==> spec_raw_key(prefix, (#[trigger] entries[i]).0) != raw_key,
    ensures
        stored(apply_batch(store, batch_of(prefix, entries)), raw_key) == stored(store, raw_key),
    decreases entries.len(),
{
    if entries.len() > 0 {
        let init = entries.drop_last();
        lemma_batch_of_drop_last(prefix, entries);
        assert forall|i: int| 0 <= i < init.len() implies spec_raw_key(
            prefix,
            (#[trigger] init[i]).0,
        ) != raw_key by {
            assert(init[i] == entries[i]);
        }
        lemma_batch_untouched(prefix, init, store, raw_key);
        assert(spec_raw_key(prefix, entries.last().0) != raw_key) by {
            assert(entries[entries.len() - 1] == entries.last());
        }
    }
}

/// Committing an overlay makes the store hold, under the raw key of each
/// logical key, what a speculative read of that key saw before.
pub proof fn lemma_batch_effect(prefix: Seq<u8>, entries: Seq<Slot>, store: Store, key: Seq<u8>)
    requires
        keys_distinct(entries),
    ensures
        stored(apply_batch(store, batch_of(prefix, entries)), spec_raw_key(prefix, key))
            == speculative(entries, key, stored(store, spec_raw_key(prefix, key))),
    decreases entries.len(),
{
    if entries.len() > 0 {
        let init = entries.drop_last();
        let last = entries.last();
        lemma_batch_of_drop_last(prefix, entries);
        if last.0 == key {
            lemma_lookup_at(entries, entries.len() - 1);
        } else {
            lemma_lookup_drop_last(entries, key);
            lemma_batch_effect(prefix, init, store, key);
            if spec_raw_key(prefix, last.0) == spec_raw_key(prefix, key) {
                lemma_raw_key_injective(prefix, last.0, key);
            }
        }
    }
}

/// Overlay semantics: for every logical key, what a speculative read sees
/// while the batch is pending is what a confirmed read sees once the batch
/// has been finished and its writes performed.
pub proof fn lemma_overlay_semantics(state: MapState, store: Store, key: Seq<u8>)
    requires
        state.wf(),
    ensures
        state.speculative(store, key) == stored(
            apply_batch(store, state.batch()),
            state.raw_key(key),
        ),
{
    lemma_batch_effect(state.prefix, state.pending, store, key);
}

/// Overlay semantics over histories: after any sequence of commands, what a
/// speculative read of a key sees is what a confirmed read of the key sees
/// once the batch has been finished.
pub proof fn lemma_history_overlay_semantics(
    state: MapState,
    store: Store,
    history: Seq<Command>,
    key: Seq<u8>,
)
    requires
        state.wf(),
    ensures
        ({
            let (now, held) = run(state, store, history);
            let (_, finished) = run(state, store, history.push(Command::Finish));
            now.speculative(held, key) == stored(finished, now.raw_key(key))
        }),
{
    lemma_run_wf(state, store, history);
    assert(history.push(Command::Finish).drop_last() =~= history);
    let (now, held) = run(state, store, history);
    lemma_overlay_semantics(now, held, key);
}

/// Finalize atomicity: once the finished batch has been written, every
/// overlay slot is visible to confirmed reads, and every raw key that the
/// overlay did not address holds what it held. Where the batch is not
/// written, the store is as it was.
pub proof fn lemma_finish_atomicity(state: MapState, store: Store)
    requires
        state.wf(),
    ensures
        forall|i: int|
            0 <= i < state.pending.len() ==> stored(
                apply_batch(store, state.batch()),
                state.raw_key((#[trigger] state.pending[i]).0),
            ) == state.pending[i].1,
        forall|raw_key: Seq<u8>|
            (forall|i: int|
                0 <= i < state.pending.len() ==> state.raw_key((#[trigger] state.pending[i]).0)
                    != raw_key) ==> #[trigger] stored(apply_batch(store, state.batch()), raw_key)
                == stored(store, raw_key),
        apply_batch(store, Seq::<RawWrite>::empty()) == store,
{
    assert forall|i: int| 0 <= i < state.pending.len() implies stored(
        apply_batch(store, state.batch()),
        state.raw_key((#[trigger] state.pending[i]).0),
    ) == state.pending[i].1 by {
        lemma_batch_effect(state.prefix, state.pending, store, state.pending[i].0);
        lemma_lookup_at(state.pending, i);
    }
    assert forall|raw_key: Seq<u8>|
        (forall|i: int|
            0 <= i < state.pending.len() ==> state.raw_key((#[trigger] state.pending[i]).0)
                != raw_key) implies #[trigger] stored(apply_batch(store, state.batch()), raw_key)
        == stored(store, raw_key) by {
        lemma_batch_untouched(state.prefix, state.pending, store, raw_key);
    }
}

/// A command that stays inside a batch: a mutation, a checkpoint or a rewind.
pub open spec fn batch_local(command: Command) -> bool {
    command is Insert || command is Remove || command is Checkpoint || command is Rewind
}

/// The logical key that a mutation addresses.
pub open spec fn touched_key(command: Command) -> Option<Seq<u8>> {
    match command {
        Command::Insert(k, _) => Some(k),
        Command::Remove(k) => Some(k),
        _ => None,
    }
}

/// A batch stays in progress over a sequence of commands: it is in progress
/// before the first and after each.
pub open spec fn stays_in_progress(state: MapState, store: Store, commands: Seq<Command>) -> bool {
    forall|n: int|
        0 <= n <= commands.len() ==> (#[trigger] run(state, store, commands.take(n))).0.in_progress
}

/// Every command keeps the invariant of the map.
pub proof fn lemma_step_wf(state: MapState, command: Command)
    requires
        state.wf(),
    ensures
        state.step(command).wf(),
{
    match command {
        Command::Insert(k, v) => {
            lemma_with_entry(state.pending, k, Some(v));
        },
        Command::Remove(k) => {
            lemma_with_entry(state.pending, k, None);
        },
        Command::Rewind => {
            lemma_cut_to(state.pending, state.rewind_target());
            let after = state.rewound();
            assert forall|i: int| 0 <= i < after.checkpoints.len() implies
                #[trigger] after.checkpoints[i] <= after.pending.len() by {
                assert(after.checkpoints[i] == state.checkpoints[i]);
            }
        },
        _ => {},
    }
}

/// The controller's transitions. From idle, with no checkpoint left over,
/// a start leads to depth one. A checkpoint leads one level deeper. A rewind
/// that leaves something in the overlay leads one level up, and one that
/// leaves nothing leads to idle; at depth one a rewind always leaves nothing.
/// Abort and finish lead to idle.
pub proof fn lemma_controller(state: MapState)
    requires
        state.wf(),
    ensures
        state.controller() is Idle && state.checkpoints.len() == 0
            ==> state.started().controller() == Controller::Batching(1),
        state.controller() matches Controller::Batching(n) ==> state.checkpointed().controller()
            == Controller::Batching(n + 1),
        state.controller() matches Controller::Batching(n) ==> state.rewound().controller() == if n
            > 1 && state.rewind_target() > 0 {
            Controller::Batching((n - 1) as nat)
        } else {
            Controller::Idle
        },
        state.idle().controller() is Idle,
        state.step(Command::Abort).controller() is Idle,
        state.step(Command::Finish).controller() is Idle,
{
    lemma_cut_to(state.pending, state.rewind_target());
}

/// Every sequence of commands keeps the invariant of the map.
pub proof fn lemma_run_wf(state: MapState, store: Store, commands: Seq<Command>)
    requires
        state.wf(),
    ensures
        run(state, store, commands).0.wf(),
    decreases commands.len(),
{
    if commands.len() > 0 {
        lemma_run_wf(state, store, commands.drop_last());
        lemma_step_wf(run(state, store, commands.drop_last()).0, commands.last());
    }
}

/// Running one command is taking its step and performing its writes.
pub proof fn lemma_run_one(state: MapState, store: Store, command: Command)
    ensures
        run(state, store, seq![command]) == (
            state.step(command),
            apply_batch(store, state.writes(command)),
        ),
{
    let one = seq![command];
    assert(one.drop_last() =~= Seq::<Command>::empty());
    assert(run(state, store, one.drop_last()) == (state, store));
}

/// Running the first `n + 1` commands is running the first `n` and then the
/// one after them.
pub proof fn lemma_run_next(state: MapState, store: Store, commands: Seq<Command>, n: int)
    requires
        0 <= n < commands.len(),
    ensures
        run(state, store, commands.take(n + 1)) == ({
            let (before, held) = run(state, store, commands.take(n));
            (before.step(commands[n]), apply_batch(held, before.writes(commands[n])))
        }),
{
    assert(commands.take(n + 1).drop_last() =~= commands.take(n));
    assert(commands.take(n + 1).last() == commands[n]);
}

/// Running two sequences one after the other is running their
/// concatenation.
pub proof fn lemma_run_concat(
    state: MapState,
    store: Store,
    first: Seq<Command>,
    second: Seq<Command>,
)
    ensures
        run(state, store, first + second) == ({
            let (middle, held) = run(state, store, first);
            run(middle, held, second)
        }),
    decreases second.len(),
{
    if second.len() == 0 {
        assert(first + second =~= first);
    } else {
        lemma_run_concat(state, store, first, second.drop_last());
        assert((first + second).drop_last() =~= first + second.drop_last());
        assert((first + second).last() == second.last());
    }
}

/// While a batch stays in progress, commands that stay inside it write
/// nothing to the store.
pub proof fn lemma_batch_writes_nothing(state: MapState, store: Store, commands: Seq<Command>)
    requires
        forall|i: int| 0 <= i < commands.len() ==> batch_local(#[trigger] commands[i]),
        stays_in_progress(state, store, commands),
    ensures
        run(state, store, commands).1 == store,
    decreases commands.len(),
{
    if commands.len() > 0 {
        let init = commands.drop_last();
        assert forall|n: int| 0 <= n <= init.len() implies (#[trigger] run(
            state,
            store,
            init.take(n),
        )).0.in_progress by {
            assert(init.take(n) =~= commands.take(n));
        }
        lemma_batch_writes_nothing(state, store, init);
        assert(init =~= commands.take(commands.len() - 1));
        assert(run(state, store, commands.take(commands.len() - 1)).0.in_progress);
        assert(batch_local(commands[commands.len() - 1]));
    }
}

/// Abort isolation: after a batch that stayed in progress and was then
/// aborted, the store is what it was before the batch, whatever the batch
/// touched, and the map is idle.
pub proof fn lemma_abort_isolation(state: MapState, store: Store, commands: Seq<Command>)
    requires
        forall|i: int| 0 <= i < commands.len() ==> batch_local(#[trigger] commands[i]),
        stays_in_progress(state, store, commands),
    ensures
        run(state, store, commands.push(Command::Abort)) == (state.idle(), store),
{
    lemma_batch_writes_nothing(state, store, commands);
    lemma_run_prefix(state, store, commands);
    assert(commands.push(Command::Abort).drop_last() =~= commands);
}

/// No command changes the prefix of the map.
pub proof fn lemma_run_prefix(state: MapState, store: Store, commands: Seq<Command>)
    ensures
        run(state, store, commands).0.prefix == state.prefix,
    decreases commands.len(),
{
    if commands.len() > 0 {
        lemma_run_prefix(state, store, commands.drop_last());
    }
}

/// Dry-run neutrality: a finalize that runs dry, on an idle map and with a
/// body whose batch stays in progress, leaves the store exactly as it was.
pub proof fn lemma_dry_run_neutral(state: MapState, store: Store, body: Seq<Command>)
    requires
        !state.in_progress,
        forall|i: int| 0 <= i < body.len() ==> batch_local(#[trigger] body[i]),
        stays_in_progress(state.started(), store, body),
    ensures
        run(state, store, seq![Command::Start] + body.push(Command::Abort)) == (
            state.idle(),
            store,
        ),
{
    let start = seq![Command::Start];
    lemma_run_one(state, store, Command::Start);
    lemma_run_concat(state, store, start, body.push(Command::Abort));
    lemma_abort_isolation(state.started(), store, body);
}

/// What a checkpoint protects while commands run above it: the overlay and
/// the checkpoint stack as they were when it was taken are still the
/// beginning of what they are now.
pub open spec fn above_checkpoint(base: MapState, now: MapState) -> bool {
    &&& now.wf()
    &&& now.prefix == base.prefix
    &&& now.checkpoints.len() > base.checkpoints.len()
    &&& now.checkpoints.take(base.checkpoints.len() as int + 1) == base.checkpoints.push(
        base.pending.len(),
    )
    &&& now.pending.len() >= base.pending.len()
    &&& now.pending.take(base.pending.len() as int) == base.pending
    &&& base.pending.len() > 0 ==> now.in_progress == base.in_progress
}

/// Commands that run above a checkpoint of `base`: they stay inside the
/// batch and never rewind past that checkpoint.
pub open spec fn region_commands(base: MapState, store: Store, body: Seq<Command>) -> bool {
    &&& forall|i: int| 0 <= i < body.len() ==> batch_local(#[trigger] body[i])
    &&& forall|n: int|
        0 <= n <= body.len() ==> (#[trigger] run(
            base.checkpointed(),
            store,
            body.take(n),
        )).0.checkpoints.len() > base.checkpoints.len()
}

/// The body of a region that begins with a checkpoint of `base`: commands
/// above the checkpoint that touch no key that the overlay of `base` holds.
pub open spec fn region_body(base: MapState, store: Store, body: Seq<Command>) -> bool {
    &&& region_commands(base, store, body)
    &&& forall|i: int|
        0 <= i < body.len() ==> match touched_key(#[trigger] body[i]) {
            Some(k) => !has_key(base.pending, k),
            None => true,
        }
}

/// One command of a region body keeps what the checkpoint protects.
pub proof fn lemma_above_checkpoint_step(base: MapState, now: MapState, command: Command)
    requires
        above_checkpoint(base, now),
        batch_local(command),
        match touched_key(command) {
            Some(k) => !has_key(base.pending, k),
            None => true,
        },
        now.step(command).checkpoints.len() > base.checkpoints.len(),
    ensures
        above_checkpoint(base, now.step(command)),
{
    let after = now.step(command);
    let n = base.pending.len() as int;
    let d = base.checkpoints.len() as int;
    lemma_step_wf(now, command);
    match command {
        Command::Insert(k, v) => {
            lemma_touch_above(base, now, k, Some(v));
        },
        Command::Remove(k) => {
            lemma_touch_above(base, now, k, None);
        },
        Command::Checkpoint => {
            assert(after.checkpoints.take(d + 1) =~= now.checkpoints.take(d + 1));
        },
        Command::Rewind => {
            let target = now.rewind_target();
            assert(now.checkpoints.take(d + 1)[d] == now.checkpoints[d]);
            assert(now.checkpoints[d] == n);
            assert(target == now.checkpoints[now.checkpoints.len() - 1]);
            assert(n <= target <= now.pending.len());
            lemma_cut_to(now.pending, target);
            assert(after.pending.take(n) =~= now.pending.take(n));
            assert(after.checkpoints.take(d + 1) =~= now.checkpoints.take(d + 1));
        },
        _ => {},
    }
}

/// A mutation of a key that the overlay did not hold when the checkpoint
/// was taken changes nothing below the checkpoint.
pub proof fn lemma_touch_above(
    base: MapState,
    now: MapState,
    key: Seq<u8>,
    value: Option<Seq<u8>>,
)
    requires
        now.wf(),
        now.pending.len() >= base.pending.len(),
        now.pending.take(base.pending.len() as int) == base.pending,
        !has_key(base.pending, key),
    ensures
        with_entry(now.pending, key, value).len() >= base.pending.len(),
        with_entry(now.pending, key, value).take(base.pending.len() as int) == base.pending,
{
    let n = base.pending.len() as int;
    let after = with_entry(now.pending, key, value);
    lemma_with_entry(now.pending, key, value);
    if has_key(now.pending, key) {
        let p = position_of(now.pending, key);
        if p < n {
            assert(now.pending.take(n)[p] == now.pending[p]);
            assert(base.pending[p].0 == key);
        }
    }
    assert(after.take(n) =~= now.pending.take(n));
}

/// What the checkpoint protects holds after every beginning of a region
/// body, and while the batch is in progress with something in the overlay
/// the body writes nothing to the store.
pub proof fn lemma_region_body(base: MapState, store: Store, body: Seq<Command>, n: int)
    requires
        base.wf(),
        region_body(base, store, body),
        0 <= n <= body.len(),
    ensures
        above_checkpoint(base, run(base.checkpointed(), store, body.take(n)).0),
        base.in_progress && base.pending.len() > 0 ==> run(
            base.checkpointed(),
            store,
            body.take(n),
        ).1 == store,
    decreases n,
{
    let entered = base.checkpointed();
    if n == 0 {
        assert(body.take(0) =~= Seq::<Command>::empty());
        lemma_step_wf(base, Command::Checkpoint);
        assert(entered.checkpoints.take(base.checkpoints.len() as int + 1) =~= base.checkpoints.push(
            base.pending.len(),
        ));
        assert(entered.pending.take(base.pending.len() as int) =~= base.pending);
    } else {
        lemma_region_body(base, store, body, n - 1);
        lemma_run_next(entered, store, body, n - 1);
        let now = run(entered, store, body.take(n - 1)).0;
        lemma_above_checkpoint_step(base, now, body[n - 1]);
    }
}

/// Checkpoint and rewind: a rewind that answers a checkpoint brings the
/// overlay and the checkpoint stack back to what they were when the
/// checkpoint was taken, whatever was inserted, removed, checkpointed and
/// rewound in between, provided the commands in between form a region body
/// and all checkpoints taken in between were answered: checkpoints compose
/// as a stack. The batch is in progress afterwards exactly if it was and the
/// overlay is not empty.
pub proof fn lemma_checkpoint_rewind(base: MapState, store: Store, body: Seq<Command>)
    requires
        base.wf(),
        region_body(base, store, body),
        run(base.checkpointed(), store, body).0.checkpoints.len() == base.checkpoints.len() + 1,
    ensures
        ({
            let end = run(base.checkpointed(), store, body.push(Command::Rewind)).0;
            &&& end.pending == base.pending
            &&& end.checkpoints == base.checkpoints
            &&& end.prefix == base.prefix
            &&& base.pending.len() > 0 ==> end.in_progress == base.in_progress
            &&& base.pending.len() == 0 ==> !end.in_progress
        }),
        base.in_progress && base.pending.len() > 0 ==> run(
            base.checkpointed(),
            store,
            body.push(Command::Rewind),
        ).1 == store,
{
    let entered = base.checkpointed();
    let all = body.push(Command::Rewind);
    lemma_region_body(base, store, body, body.len() as int);
    assert(body.take(body.len() as int) =~= body);
    assert(all.drop_last() =~= body);
    let now = run(entered, store, body).0;
    let n = base.pending.len() as int;
    let d = base.checkpoints.len() as int;
    assert(now.checkpoints.take(d + 1)[d] == now.checkpoints[d]);
    assert(now.checkpoints.last() == n);
    lemma_cut_to(now.pending, n as nat);
    let end = now.rewound();
    assert(end.pending =~= now.pending.take(n));
    assert(end.checkpoints =~= base.checkpoints) by {
        assert(now.checkpoints.take(d + 1).drop_last() =~= now.checkpoints.drop_last());
    }
}

/// Nested scope: where an inner scope fails inside a batch that holds
/// earlier operations, only the inner scope is undone; when the outer scope
/// then succeeds, the store receives exactly the earlier operations.
pub proof fn lemma_inner_scope_failure(base: MapState, store: Store, body: Seq<Command>)
    requires
        base.wf(),
        base.in_progress,
        base.pending.len() > 0,
        region_body(base, store, body),
        run(base.checkpointed(), store, body).0.checkpoints.len() == base.checkpoints.len() + 1,
    ensures
        run(
            base,
            store,
            seq![Command::Checkpoint] + body.push(Command::Rewind).push(Command::Finish),
        ) == (base.idle(), apply_batch(store, base.batch())),
{
    let enter = seq![Command::Checkpoint];
    let inner = body.push(Command::Rewind);
    lemma_run_one(base, store, Command::Checkpoint);
    lemma_run_concat(base, store, enter, inner.push(Command::Finish));
    lemma_checkpoint_rewind(base, store, body);
    assert(inner.push(Command::Finish).drop_last() =~= inner);
    let end = run(base.checkpointed(), store, inner).0;
    assert(end.batch() == base.batch());
}

/// The keys of the slots of an overlay, in order.
pub open spec fn keys_of(entries: Seq<Slot>) -> Seq<Seq<u8>> {
    Seq::new(entries.len(), |i: int| entries[i].0)
}

/// What a checkpoint protects of the slots while commands run above it,
/// whatever keys they touch: the slots that the overlay had when the
/// checkpoint was taken are still its first slots, under their keys, and the
/// checkpoint stack still begins as it did.
pub open spec fn slots_above_checkpoint(base: MapState, now: MapState) -> bool {
    &&& now.wf()
    &&& now.checkpoints.len() > base.checkpoints.len()
    &&& now.checkpoints.take(base.checkpoints.len() as int + 1) == base.checkpoints.push(
        base.pending.len(),
    )
    &&& now.pending.len() >= base.pending.len()
    &&& keys_of(now.pending.take(base.pending.len() as int)) == keys_of(base.pending)
}

/// One command above a checkpoint keeps what the checkpoint protects of the
/// slots.
pub proof fn lemma_slots_above_checkpoint_step(base: MapState, now: MapState, command: Command)
    requires
        slots_above_checkpoint(base, now),
        batch_local(command),
        now.step(command).checkpoints.len() > base.checkpoints.len(),
    ensures
        slots_above_checkpoint(base, now.step(command)),
{
    let after = now.step(command);
    let n = base.pending.len() as int;
    let d = base.checkpoints.len() as int;
    lemma_step_wf(now, command);
    match command {
        Command::Insert(k, v) => {
            lemma_with_entry(now.pending, k, Some(v));
            assert(keys_of(after.pending.take(n)) =~= keys_of(now.pending.take(n)));
        },
        Command::Remove(k) => {
            lemma_with_entry(now.pending, k, None);
            assert(keys_of(after.pending.take(n)) =~= keys_of(now.pending.take(n)));
        },
        Command::Checkpoint => {
            assert(after.checkpoints.take(d + 1) =~= now.checkpoints.take(d + 1));
        },
        Command::Rewind => {
            let target = now.rewind_target();
            assert(now.checkpoints.take(d + 1)[d] == now.checkpoints[d]);
            assert(now.checkpoints[d] == n);
            assert(target == now.checkpoints[now.checkpoints.len() - 1]);
            assert(n <= target <= now.pending.len());
            lemma_cut_to(now.pending, target);
            assert(after.pending.take(n) =~= now.pending.take(n));
            assert(after.checkpoints.take(d + 1) =~= now.checkpoints.take(d + 1));
        },
        _ => {},
    }
}

/// What the checkpoint protects of the slots holds after every beginning of
/// the commands above it.
pub proof fn lemma_region_slots(base: MapState, store: Store, body: Seq<Command>, n: int)
    requires
        base.wf(),
        region_commands(base, store, body),
        0 <= n <= body.len(),
    ensures
        slots_above_checkpoint(base, run(base.checkpointed(), store, body.take(n)).0),
    decreases n,
{
    let entered = base.checkpointed();
    if n == 0 {
        assert(body.take(0) =~= Seq::<Command>::empty());
        lemma_step_wf(base, Command::Checkpoint);
        assert(entered.checkpoints.take(base.checkpoints.len() as int + 1)
            =~= base.checkpoints.push(base.pending.len()));
        assert(entered.pending.take(base.pending.len() as int) =~= base.pending);
    } else {
        lemma_region_slots(base, store, body, n - 1);
        lemma_run_next(entered, store, body, n - 1);
        let now = run(entered, store, body.take(n - 1)).0;
        lemma_slots_above_checkpoint_step(base, now, body[n - 1]);
    }
}

/// Rewind restores the size of the overlay: a rewind that answers a
/// checkpoint brings the overlay back to the slots that it had when the
/// checkpoint was taken, each under its key, and the checkpoint stack back
/// to what it was, whatever keys were touched in between. What a slot
/// schedules may have changed.
pub proof fn lemma_rewind_restores_slots(base: MapState, store: Store, body: Seq<Command>)
    requires
        base.wf(),
        region_commands(base, store, body),
        run(base.checkpointed(), store, body).0.checkpoints.len() == base.checkpoints.len() + 1,
    ensures
        ({
            let end = run(base.checkpointed(), store, body.push(Command::Rewind)).0;
            &&& end.pending.len() == base.pending.len()
            &&& keys_of(end.pending) == keys_of(base.pending)
            &&& end.checkpoints == base.checkpoints
        }),
{
    let entered = base.checkpointed();
    let all = body.push(Command::Rewind);
    lemma_region_slots(base, store, body, body.len() as int);
    assert(body.take(body.len() as int) =~= body);
    assert(all.drop_last() =~= body);
    let now = run(entered, store, body).0;
    let n = base.pending.len() as int;
    let d = base.checkpoints.len() as int;
    assert(now.checkpoints.take(d + 1)[d] == now.checkpoints[d]);
    assert(now.checkpoints.last() == n);
    lemma_cut_to(now.pending, n as nat);
    let end = now.rewound();
    assert(end.pending =~= now.pending.take(n));
    assert(end.checkpoints =~= base.checkpoints) by {
        assert(now.checkpoints.take(d + 1).drop_last() =~= now.checkpoints.drop_last());
    }
}

/// Prefix isolation: of two different maps in stores opened alike, what the
/// one reads from a scan of the store, whatever the scan returned, holds no
/// raw key of the other.
pub proof fn lemma_scan_isolation(
    network_a: u16,
    dev_a: Option<u16>,
    map_a: MapID,
    network_b: u16,
    dev_b: Option<u16>,
    map_b: MapID,
    scan: Seq<(Seq<u8>, Seq<u8>)>,
    key: Seq<u8>,
)
    requires
        dev_a is Some <==> dev_b is Some,
        network_a != network_b || dev_a != dev_b || map_a != map_b,
    ensures
        forall|i: int|
            0 <= i < under_prefix(spec_prefix(network_b, dev_b, map_b), scan).len() ==> (
            #[trigger] under_prefix(spec_prefix(network_b, dev_b, map_b), scan)[i]).0
                != spec_raw_key(spec_prefix(network_a, dev_a, map_a), key),
{
    lemma_under_prefix_members(spec_prefix(network_b, dev_b, map_b), scan);
    lemma_prefix_isolation(network_a, dev_a, map_a, network_b, dev_b, map_b, key);
}

} // verus!
