//! What holds of the core whatever the systems do, stated over the models
//! that the contracts of the executable functions speak of, and proved.

use crate::command::{Command, Committed};
use crate::entity::{
    alive_in, issued_in, next_id_in, reserved_in, reserved_next, slots_wf, EntityId, Slot,
};
use crate::event::{ChannelView, Cursor};
use crate::schedule::Constraints;
use crate::world::WorldView;
use vstd::prelude::*;

verus! {

/// Whether the command at `at` brings `id` to life.
pub open spec fn spawns_at<P>(commands: Seq<Command<P>>, id: EntityId, at: int) -> bool {
    0 <= at < commands.len() && commands[at] == Command::<P>::Spawn(id)
}

/// Whether the command at `at` ends the life of `id`.
pub open spec fn despawns_at<P>(commands: Seq<Command<P>>, id: EntityId, at: int) -> bool {
    0 <= at < commands.len() && commands[at] == Command::<P>::Despawn(id)
}

/// Whether `commands` spawn `id` and do not despawn it afterwards: there is
/// a first spawn of `id`, and no despawn of `id` comes behind it.
pub open spec fn spawned_and_kept<P>(commands: Seq<Command<P>>, id: EntityId) -> bool {
    exists|first: int|
        {
            &&& #[trigger] spawns_at(commands, id, first)
            &&& forall|k: int| 0 <= k < first ==> !spawns_at(commands, id, k)
            &&& forall|j: int| first < j < commands.len() ==> !despawns_at(commands, id, j)
        }
}

/// What one command does to the life of one identifier.
proof fn lemma_life_step<P>(state: Committed<P>, command: Command<P>, id: EntityId)
    requires
        state.wf(),
    ensures
        state.applied(command).alive(id) == (if command == Command::<P>::Spawn(id) {
            state.alive(id) || reserved_in(state.slots, id)
        } else if command == Command::<P>::Despawn(id) {
            false
        } else {
            state.alive(id)
        }),
        reserved_in(state.applied(command).slots, id) == (if command == Command::<P>::Spawn(id) {
            false
        } else {
            reserved_in(state.slots, id)
        }),
{
}

/// The life of an identifier over a batch of commands, with what becomes of
/// its reservation.
proof fn lemma_life<P>(state: Committed<P>, commands: Seq<Command<P>>, id: EntityId)
    requires
        state.wf(),
    ensures
        state.applied_all(commands).alive(id) <==> {
            ||| state.alive(id) && forall|j: int| !despawns_at(commands, id, j)
            ||| reserved_in(state.slots, id) && spawned_and_kept(commands, id)
        },
        reserved_in(state.applied_all(commands).slots, id) <==> reserved_in(state.slots, id)
            && forall|k: int| !spawns_at(commands, id, k),
    decreases commands.len(),
{
    if commands.len() > 0 {
        let rest = commands.drop_last();
        let last = commands.last();
        let n = commands.len() - 1;
        lemma_life(state, rest, id);
        state.lemma_applied_all_wf(rest);
        lemma_life_step(state.applied_all(rest), last, id);
        assert forall|k: int| spawns_at(rest, id, k) == (k < n && spawns_at(commands, id, k)) by {}
        assert forall|k: int| despawns_at(rest, id, k) == (k < n && despawns_at(commands, id, k)) by {}
        if last == Command::<P>::Spawn(id) {
            assert(spawns_at(commands, id, n));
            assert(!despawns_at(commands, id, n));
            if spawned_and_kept(rest, id) {
                let first = choose|first: int|
                    {
                        &&& #[trigger] spawns_at(rest, id, first)
                        &&& forall|k: int| 0 <= k < first ==> !spawns_at(rest, id, k)
                        &&& forall|j: int| first < j < rest.len() ==> !despawns_at(rest, id, j)
                    };
                assert(spawns_at(commands, id, first));
                assert(spawned_and_kept(commands, id));
            }
            if forall|k: int| !spawns_at(rest, id, k) {
                assert(spawned_and_kept(commands, id));
            }
            if spawned_and_kept(commands, id) {
                let first = choose|first: int|
                    {
                        &&& #[trigger] spawns_at(commands, id, first)
                        &&& forall|k: int| 0 <= k < first ==> !spawns_at(commands, id, k)
                        &&& forall|j: int|
                            first < j < commands.len() ==> !despawns_at(commands, id, j)
                    };
                if first < n {
                    assert(spawns_at(rest, id, first));
                    assert(spawned_and_kept(rest, id));
                } else {
                    assert(forall|k: int| !spawns_at(rest, id, k));
                }
            }
        } else if last == Command::<P>::Despawn(id) {
            assert(despawns_at(commands, id, n));
            assert(!spawns_at(commands, id, n));
        } else {
            assert(!spawns_at(commands, id, n));
            assert(!despawns_at(commands, id, n));
            if spawned_and_kept(rest, id) {
                let first = choose|first: int|
                    {
                        &&& #[trigger] spawns_at(rest, id, first)
                        &&& forall|k: int| 0 <= k < first ==> !spawns_at(rest, id, k)
                        &&& forall|j: int| first < j < rest.len() ==> !despawns_at(rest, id, j)
                    };
                assert(spawns_at(commands, id, first));
                assert(spawned_and_kept(commands, id));
            }
            if spawned_and_kept(commands, id) {
                let first = choose|first: int|
                    {
                        &&& #[trigger] spawns_at(commands, id, first)
                        &&& forall|k: int| 0 <= k < first ==> !spawns_at(commands, id, k)
                        &&& forall|j: int|
                            first < j < commands.len() ==> !despawns_at(commands, id, j)
                    };
                assert(spawns_at(rest, id, first));
                assert(spawned_and_kept(rest, id));
            }
        }
    }
}

/// An entity is alive at a sync point exactly if it has been spawned and not
/// yet despawned.
///
/// Whatever commands a batch holds: after they were applied in order, an
/// identifier names a live entity if and only if either it was alive before
/// and the batch holds no despawn of it, or it was reserved before, the
/// batch holds a spawn of it, and no despawn of it comes behind the first
/// such spawn. An identifier that was neither alive nor reserved stays dead.
pub proof fn law_alive_iff_spawned_and_not_despawned<P>(
    state: Committed<P>,
    commands: Seq<Command<P>>,
    id: EntityId,
)
    requires
        state.wf(),
    ensures
        state.applied_all(commands).alive(id) <==> {
            ||| state.alive(id) && forall|j: int| !despawns_at(commands, id, j)
            ||| reserved_in(state.slots, id) && spawned_and_kept(commands, id)
        },
{
    lemma_life(state, commands, id);
}

/// A despawn wins wherever it stands in its batch: an entity that is alive
/// when a batch with a despawn of it is applied is dead afterwards, and has
/// no component left, whatever else the batch holds for it.
pub proof fn law_despawn_wins<P>(
    state: Committed<P>,
    commands: Seq<Command<P>>,
    id: EntityId,
    at: int,
    kind: usize,
)
    requires
        state.wf(),
        state.alive(id),
        despawns_at(commands, id, at),
    ensures
        !state.applied_all(commands).alive(id),
        !state.applied_all(commands).has(id, kind),
{
    lemma_life(state, commands, id);
    state.lemma_applied_all_wf(commands);
    let after = state.applied_all(commands);
    if after.has(id, kind) {
        assert(after.store.cells.contains_key((id.index, kind)));
    }
}

/// Whether `command` attaches a component of `kind` to `id`.
pub open spec fn attaches<P>(command: Command<P>, id: EntityId, kind: usize) -> bool {
    command matches Command::Attach(i, k, _) && i == id && k == kind
}

/// Whether the command at `at` attaches a component of `kind` to `id`.
pub open spec fn attaches_at<P>(commands: Seq<Command<P>>, id: EntityId, kind: usize, at: int) -> bool {
    0 <= at < commands.len() && attaches(commands[at], id, kind)
}

/// A command that is no attach of `kind` to `id` cannot give `id` a
/// component of `kind`.
proof fn lemma_absent_step<P>(state: Committed<P>, command: Command<P>, id: EntityId, kind: usize)
    requires
        state.wf(),
        !state.has(id, kind),
        !attaches(command, id, kind),
    ensures
        !state.applied(command).has(id, kind),
{
}

/// Attach and detach within one batch leave the entity without the
/// component: where a batch holds a detach of `kind` from `id` and no attach
/// of `kind` to `id` behind it, `id` has no component of `kind` after the
/// batch was applied, whatever was attached before the detach.
pub proof fn law_detach_after_attach_leaves_absent<P>(
    state: Committed<P>,
    commands: Seq<Command<P>>,
    id: EntityId,
    kind: usize,
    at: int,
)
    requires
        state.wf(),
        0 <= at < commands.len(),
        commands[at] == Command::<P>::Detach(id, kind),
        forall|j: int| at < j ==> !attaches_at(commands, id, kind, j),
    ensures
        !state.applied_all(commands).has(id, kind),
    decreases commands.len(),
{
    let rest = commands.drop_last();
    let last = commands.last();
    state.lemma_applied_all_wf(rest);
    let before = state.applied_all(rest);
    if at == commands.len() - 1 {
        if before.has(id, kind) {
            assert(before.store.cells.contains_key((id.index, kind)));
            assert(before.alive(id));
        }
    } else {
        assert(rest[at] == commands[at]);
        assert forall|j: int| at < j implies !attaches_at(rest, id, kind, j) by {
            if j < rest.len() {
                assert(rest[j] == commands[j]);
                assert(!attaches_at(commands, id, kind, j));
            }
        }
        law_detach_after_attach_leaves_absent(state, rest, id, kind, at);
        assert(!attaches_at(commands, id, kind, commands.len() - 1));
        lemma_absent_step(before, last, id, kind);
    }
}

/// The position that a reader has when it has seen nothing.
pub open spec fn fresh() -> Cursor {
    Cursor { tick: 0, offset: 0 }
}

/// Advancing twice or more leaves nothing of what a channel held.
proof fn lemma_advanced_twice_is_empty<E>(channel: ChannelView<E>, n: nat)
    requires
        n >= 2,
    ensures
        channel.advanced_by(n).older == Seq::<E>::empty(),
        channel.advanced_by(n).newer == Seq::<E>::empty(),
        channel.advanced_by(n).tick == channel.tick + n,
    decreases n,
{
    reveal_with_fuel(ChannelView::advanced_by, 3);
    if n > 2 {
        lemma_advanced_twice_is_empty(channel, (n - 1) as nat);
    }
}

/// Events stay visible for two ticks and no longer.
///
/// Let a channel have completed `T` ticks when events are sent on it, so
/// that they are sent during tick `T + 1`. A reader that has seen nothing
/// sees all of them, in order and behind what was sent earlier in that tick,
/// during tick `T + 1` and during tick `T + 2`; with nothing else sent in
/// tick `T + 1` they are exactly what it sees in tick `T + 2`. From tick
/// `T + 3` on it sees none of them. Reading changes nothing in a channel, so
/// this holds whether or not any reader has read them.
pub proof fn law_events_visible_for_two_ticks<E>(channel: ChannelView<E>, events: Seq<E>, later: nat)
    requires
        later >= 2,
    ensures
        channel.sent_all(events).visible_to(fresh()) == channel.visible_to(fresh()) + events,
        channel.sent_all(events).advanced().visible_to(fresh()) == channel.newer + events,
        channel.newer.len() == 0 ==> channel.sent_all(events).advanced().visible_to(fresh())
            == events,
        channel.sent_all(events).advanced_by(later).visible_to(fresh()) == Seq::<E>::empty(),
{
    let sent = channel.sent_all(events);
    assert(sent.visible_to(fresh()) =~= channel.visible_to(fresh()) + events);
    assert(sent.advanced().visible_to(fresh()) =~= channel.newer + events);
    if channel.newer.len() == 0 {
        assert(channel.newer + events =~= events);
    }
    lemma_advanced_twice_is_empty(sent, later);
    assert(sent.advanced_by(later).visible_to(fresh()) =~= Seq::<E>::empty());
}

/// Sending events one by one is sending them all.
pub proof fn law_sent_one_by_one<E>(channel: ChannelView<E>, events: Seq<E>, event: E)
    ensures
        channel.sent_all(events).sent(event) == channel.sent_all(events.push(event)),
        channel.sent_all(Seq::empty()) == channel,
{
    assert(channel.sent_all(events).sent(event).newer =~= channel.sent_all(
        events.push(event),
    ).newer);
    assert(channel.sent_all(Seq::empty()).newer =~= channel.newer);
}

/// Whether `cursor` stands at or before the newest event of a channel.
pub open spec fn not_beyond<E>(channel: ChannelView<E>, cursor: Cursor) -> bool {
    cursor.tick < channel.tick || (cursor.tick == channel.tick && cursor.offset
        <= channel.newer.len())
}

/// A system that runs after another sees, in the same tick, the events that
/// the other sent, and does not see the components that it attached.
///
/// Let system `b` be declared to run after system `a`, and let `order` be an
/// order of the systems. Then `a` stands before `b` in it. Let `a` find the
/// world `before`, send `event` and record the attach of a component, and
/// let `later` be what the systems between the two have made of the world
/// when `b` runs. Then `event` is among what `b`'s reader has yet to see,
/// wherever in the channel it stood when `a` ran. The entity has the
/// component in `later` only if it had it before the tick's work: the
/// attach has changed nothing that queries see. At the sync point of the
/// tick the attach takes effect, if the entity is alive then and the kind is
/// declared, so that the queries of the next tick see the component.
pub proof fn law_after_sees_events_not_components<E, P>(
    constraints: Constraints,
    order: Seq<usize>,
    a: usize,
    b: usize,
    before: WorldView<E, P>,
    event_kind: usize,
    event: E,
    id: EntityId,
    kind: usize,
    payload: P,
    later: WorldView<E, P>,
    cursor: Cursor,
)
    requires
        constraints.is_order(order),
        constraints.runs_after(b as int, a as int),
        before.wf(),
        event_kind < before.channels.len(),
        not_beyond(before.channels[event_kind as int], cursor),
        later.extends(before.sent(event_kind, event).recorded(Command::Attach(id, kind, payload))),
    ensures
        exists|p: int, q: int|
            0 <= p < q < order.len() && order[p] == a && order[q] == b,
        later.channels[event_kind as int].visible_to(cursor).contains(event),
        later.committed.has(id, kind) == before.committed.has(id, kind),
        ({
            let done = before.sent(event_kind, event).recorded(
                Command::Attach(id, kind, payload),
            ).synced();
            done.committed.alive(id) && kind < done.committed.store.kinds.len()
                ==> done.committed.has(id, kind) && done.committed.store.payload(id, kind)
                == payload
        }),
{
    assert(order.contains(a));
    assert(order.contains(b));
    let p = choose|p: int| 0 <= p < order.len() && order[p] == a;
    let q = choose|q: int| 0 <= q < order.len() && order[q] == b;
    assert(constraints.runs_after(order[q] as int, order[p] as int));
    assert(p < q);

    let worked = before.sent(event_kind, event).recorded(Command::Attach(id, kind, payload));
    let source = before.channels[event_kind as int];
    let channel = later.channels[event_kind as int];
    assert(worked.channels[event_kind as int] == source.sent(event));
    assert(channel.tick == source.tick);
    assert(channel.older == source.older);
    let at = source.newer.len() as int;
    assert(channel.newer.take(at + 1) == source.newer.push(event));
    assert(channel.newer[at] == channel.newer.take(at + 1)[at]);
    assert(channel.newer[at] == event);
    let seen = channel.visible_to(cursor);
    if cursor.tick == channel.tick {
        assert(seen[at - cursor.offset] == event);
    } else if cursor.tick + 1 == channel.tick {
        let skipped = crate::event::clip(cursor.offset, channel.older.len());
        assert(seen[channel.older.len() - skipped + at] == event);
    } else {
        assert(seen[channel.older.len() + at] == event);
    }

    let recorded = worked.commands;
    assert(recorded.drop_last() =~= before.commands);
    assert(recorded.last() == Command::Attach(id, kind, payload));
    before.committed.lemma_applied_all_wf(before.commands);
}

/// A system that stands in an order is ready at its position: it has no
/// earlier position, and everything it runs after has one.
proof fn lemma_ready_at_own_position(constraints: Constraints, order: Seq<usize>, p: int)
    requires
        constraints.is_order(order),
        constraints.count() <= usize::MAX,
        0 <= p < order.len(),
    ensures
        constraints.ready(order[p] as int, order.take(p)),
{
    let earlier = order.take(p);
    let system = order[p];
    if earlier.contains(system) {
        let q = choose|q: int| 0 <= q < earlier.len() && earlier[q] == system;
        assert(order[q] == order[p]);
    }
    assert forall|a: int| constraints.runs_after(system as int, a) implies earlier.contains(
        a as usize,
    ) by {
        assert(order.contains(a as usize));
        let q = choose|q: int| 0 <= q < order.len() && order[q] == a as usize;
        assert(constraints.runs_after(order[p] as int, order[q] as int));
        assert(earlier[q] == a as usize);
    }
}

/// Two resolved orders of the same constraints agree up to any position.
proof fn lemma_resolved_orders_agree(
    constraints: Constraints,
    first: Seq<usize>,
    second: Seq<usize>,
    upto: int,
)
    requires
        constraints.is_resolved_order(first),
        constraints.is_resolved_order(second),
        constraints.count() <= usize::MAX,
        0 <= upto <= first.len(),
    ensures
        first.take(upto) == second.take(upto),
    decreases upto,
{
    if upto > 0 {
        let p = upto - 1;
        lemma_resolved_orders_agree(constraints, first, second, p);
        lemma_ready_at_own_position(constraints, first, p);
        lemma_ready_at_own_position(constraints, second, p);
        if first[p] < second[p] {
            assert(!constraints.ready(first[p] as int, second.take(p)));
        }
        if second[p] < first[p] {
            assert(!constraints.ready(second[p] as int, first.take(p)));
        }
        assert(first.take(upto) =~= first.take(p).push(first[p]));
        assert(second.take(upto) =~= second.take(p).push(second[p]));
    } else {
        assert(first.take(0) =~= second.take(0));
    }
}

/// The order of the systems is settled by the registrations alone: the same
/// names and "runs after" declarations have one resolved order, so a program
/// that is set up the same way runs its systems in the same order, at every
/// tick and at every start.
pub proof fn law_resolved_order_is_unique(
    constraints: Constraints,
    first: Seq<usize>,
    second: Seq<usize>,
)
    requires
        constraints.is_resolved_order(first),
        constraints.is_resolved_order(second),
        constraints.count() <= usize::MAX,
    ensures
        first == second,
{
    lemma_resolved_orders_agree(constraints, first, second, first.len() as int);
    assert(first.take(first.len() as int) =~= first);
    assert(second.take(second.len() as int) =~= second);
}

/// A reader sees every event at most once: when it has read everything, it
/// sees of what is sent afterwards exactly that, in the tick of the reading
/// and, if it does not read again before, in the tick after it.
pub proof fn law_reader_sees_each_event_once<E>(channel: ChannelView<E>, events: Seq<E>)
    requires
        channel.newer.len() <= usize::MAX,
        channel.tick < u64::MAX,
    ensures
        ({
            let cursor = Cursor { tick: channel.tick as u64, offset: channel.newer.len() as usize };
            &&& channel.visible_to(cursor) == Seq::<E>::empty()
            &&& channel.sent_all(events).visible_to(cursor) == events
            &&& channel.advanced().sent_all(events).visible_to(cursor) == events
        }),
{
    let cursor = Cursor { tick: channel.tick as u64, offset: channel.newer.len() as usize };
    assert(channel.visible_to(cursor) =~= Seq::<E>::empty());
    assert(channel.sent_all(events).visible_to(cursor) =~= events);
    assert(channel.advanced().sent_all(events).visible_to(cursor) =~= events);
}

/// An identifier is handed out once: the next identifier of a table was
/// never handed out by it before, whatever has been freed in between.
pub proof fn law_next_identifier_is_new(slots: Seq<Slot>)
    requires
        slots_wf(slots),
        slots.len() < usize::MAX,
    ensures
        !issued_in(slots, next_id_in(slots)),
        issued_in(reserved_next(slots), next_id_in(slots)),
        !alive_in(reserved_next(slots), next_id_in(slots)),
{
    lemma_first_reusable(slots, 0);
}

/// The first reusable slot at or after `from` lies in the table and is
/// reusable, or there is none and the result is the table's length.
proof fn lemma_first_reusable(slots: Seq<Slot>, from: int)
    requires
        0 <= from <= slots.len(),
    ensures
        from <= crate::entity::first_reusable_from(slots, from) <= slots.len(),
        crate::entity::first_reusable_from(slots, from) < slots.len() ==> crate::entity::reusable(
            slots[crate::entity::first_reusable_from(slots, from)],
        ),
    decreases slots.len() - from,
{
    if from < slots.len() && !crate::entity::reusable(slots[from]) {
        lemma_first_reusable(slots, from + 1);
    }
}

/// What was handed out once counts as handed out for good: no command can
/// make a table forget an identifier, so no identifier comes back for a
/// second entity.
pub proof fn law_issued_stays_issued<P>(state: Committed<P>, commands: Seq<Command<P>>, id: EntityId)
    requires
        state.wf(),
        issued_in(state.slots, id),
    ensures
        issued_in(state.applied_all(commands).slots, id),
    decreases commands.len(),
{
    if commands.len() > 0 {
        law_issued_stays_issued(state, commands.drop_last(), id);
        state.lemma_applied_all_wf(commands.drop_last());
    }
}

} // verus!
