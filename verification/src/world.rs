//! The state that a schedule works on: entities, components, the commands
//! that wait for the next sync point, and one event channel per event kind.
//!
//! A running system reads entities and components as of the last sync point,
//! sends and reads events, and records commands. Only the sync point changes
//! entities and components.

use crate::command::{Command, CommandBuffer, Committed};
use crate::component::ComponentStore;
use crate::entity::{next_id_in, reserved_next, EntityId, EntityRegistry};
use crate::error::{ConfigurationError, Diagnostic};
use crate::event::{ChannelOverflow, ChannelView, EventChannel};
use vstd::prelude::*;

verus! {

/// Why an event was not sent.
#[derive(Clone, Copy, Debug, PartialEq, Eq, Structural)]
pub enum SendError {
    /// No event kind of that number has been declared.
    UnknownKind,
    /// The kind's channel has a capacity and is full.
    Overflow(ChannelOverflow),
}

/// The component kinds that an entity must have and must not have to be
/// found by a query.
pub struct KindFilter {
    pub required: Vec<usize>,
    pub forbidden: Vec<usize>,
}

/// What a world holds, as mathematics.
pub struct WorldView<E, P> {
    /// Entities and components as of the last sync point.
    pub committed: Committed<P>,
    /// The commands recorded since then, in the order recorded.
    pub commands: Seq<Command<P>>,
    /// The event channels, by event kind.
    pub channels: Seq<ChannelView<E>>,
    /// The names of the declared event kinds.
    pub event_kinds: Seq<Seq<char>>,
    /// Number of ticks that the world has completed.
    pub ticks: nat,
}

/// Whether `prefix` is the beginning of `whole`.
pub open spec fn begins_with<T>(whole: Seq<T>, prefix: Seq<T>) -> bool {
    prefix.len() <= whole.len() && whole.take(prefix.len() as int) == prefix
}

impl<E, P> WorldView<E, P> {
    pub open spec fn wf(self) -> bool {
        &&& self.committed.wf()
        &&& self.channels.len() == self.event_kinds.len()
        &&& forall|k: int| 0 <= k < self.channels.len() ==> (#[trigger] self.channels[k]).tick == self.ticks
    }

    /// Whether an event kind of that name has been declared.
    pub open spec fn declares_event(self, name: Seq<char>) -> bool {
        exists|k: int| 0 <= k < self.event_kinds.len() && self.event_kinds[k] == name
    }

    /// Whether the entity `id` passes `filter`: it is alive, has a component
    /// of every required kind and of no forbidden kind.
    pub open spec fn matches(self, filter: KindFilter, id: EntityId) -> bool {
        &&& self.committed.alive(id)
        &&& forall|i: int|
            0 <= i < filter.required@.len() ==> self.committed.has(id, #[trigger] filter.required@[i])
        &&& forall|i: int|
            0 <= i < filter.forbidden@.len() ==> !self.committed.has(
                id,
                #[trigger] filter.forbidden@[i],
            )
    }

    /// The world after a component kind was declared under `name`.
    pub open spec fn with_component_kind(self, name: Seq<char>) -> Self {
        WorldView {
            committed: Committed {
                store: crate::component::StoreView {
                    kinds: self.committed.store.kinds.push(name),
                    ..self.committed.store
                },
                ..self.committed
            },
            ..self
        }
    }

    /// The world after an event kind was declared under `name`: the kind has
    /// an empty channel that is at the world's tick.
    pub open spec fn with_event_kind(self, name: Seq<char>, capacity: Option<usize>) -> Self {
        WorldView {
            event_kinds: self.event_kinds.push(name),
            channels: self.channels.push(
                ChannelView { older: Seq::empty(), newer: Seq::empty(), tick: self.ticks, capacity },
            ),
            ..self
        }
    }

    /// The world after `command` was recorded.
    pub open spec fn recorded(self, command: Command<P>) -> Self {
        WorldView { commands: self.commands.push(command), ..self }
    }

    /// The world after all of `commands` were recorded, in order.
    pub open spec fn recorded_all(self, commands: Seq<Command<P>>) -> Self {
        WorldView { commands: self.commands + commands, ..self }
    }

    /// The identifier that the next spawn reserves.
    pub open spec fn next_id(self) -> EntityId {
        next_id_in(self.committed.slots)
    }

    /// The world after a spawn was recorded: the next identifier is reserved
    /// and the command that brings it to life waits for the sync point.
    pub open spec fn spawned(self) -> Self {
        WorldView {
            committed: Committed { slots: reserved_next(self.committed.slots), ..self.committed },
            commands: self.commands.push(Command::Spawn(self.next_id())),
            ..self
        }
    }

    /// The world after `event` was sent on the channel of `kind`.
    pub open spec fn sent(self, kind: usize, event: E) -> Self {
        WorldView {
            channels: self.channels.update(kind as int, self.channels[kind as int].sent(event)),
            ..self
        }
    }

    /// The world after its sync point: every recorded command was applied in
    /// the order recorded, and none is left.
    pub open spec fn synced(self) -> Self {
        WorldView {
            committed: self.committed.applied_all(self.commands),
            commands: Seq::empty(),
            ..self
        }
    }

    /// The world after a tick was completed: every channel has moved on by
    /// one tick.
    pub open spec fn advanced(self) -> Self {
        WorldView {
            channels: Seq::new(self.channels.len(), |k: int| self.channels[k].advanced()),
            ticks: self.ticks + 1,
            ..self
        }
    }

    /// What the work of systems can make of the world `before`: the same
    /// live entities and components, the same tick; commands recorded and
    /// events sent on top of what was there.
    pub open spec fn extends(self, before: Self) -> bool {
        &&& self.ticks == before.ticks
        &&& self.event_kinds == before.event_kinds
        &&& self.committed.store == before.committed.store
        &&& forall|id: EntityId| self.committed.alive(id) == before.committed.alive(id)
        &&& begins_with(self.commands, before.commands)
        &&& self.channels.len() == before.channels.len()
        &&& forall|k: int|
            0 <= k < self.channels.len() ==> {
                &&& (#[trigger] self.channels[k]).tick == before.channels[k].tick
                &&& self.channels[k].capacity == before.channels[k].capacity
                &&& self.channels[k].older == before.channels[k].older
                &&& begins_with(self.channels[k].newer, before.channels[k].newer)
            }
    }
}

impl<E, P> WorldView<E, P> {
    /// A world extends itself.
    pub proof fn lemma_extends_self(self)
        ensures
            self.extends(self),
    {
        assert(self.commands.take(self.commands.len() as int) =~= self.commands);
        assert forall|k: int| 0 <= k < self.channels.len() implies begins_with(
            (#[trigger] self.channels[k]).newer,
            self.channels[k].newer,
        ) by {
            assert(self.channels[k].newer.take(self.channels[k].newer.len() as int)
                =~= self.channels[k].newer);
        }
    }

    /// Extending is transitive.
    pub proof fn lemma_extends_trans(self, middle: Self, before: Self)
        requires
            self.extends(middle),
            middle.extends(before),
        ensures
            self.extends(before),
    {
        assert(self.commands.take(before.commands.len() as int) =~= middle.commands.take(
            before.commands.len() as int,
        ));
        assert forall|k: int| 0 <= k < self.channels.len() implies {
            &&& (#[trigger] self.channels[k]).tick == before.channels[k].tick
            &&& self.channels[k].capacity == before.channels[k].capacity
            &&& self.channels[k].older == before.channels[k].older
            &&& begins_with(self.channels[k].newer, before.channels[k].newer)
        } by {
            assert(middle.channels[k].tick == before.channels[k].tick);
            assert(self.channels[k].newer.take(before.channels[k].newer.len() as int)
                =~= middle.channels[k].newer.take(before.channels[k].newer.len() as int));
        }
    }
}

/// Entities, components, pending commands and event channels.
pub struct World<E, P> {
    registry: EntityRegistry,
    store: ComponentStore<P>,
    commands: CommandBuffer<P>,
    channels: Vec<EventChannel<E>>,
    event_kinds: Vec<String>,
    ticks: u64,
}

impl<E, P> View for World<E, P> {
    type V = WorldView<E, P>;

    closed spec fn view(&self) -> WorldView<E, P> {
        WorldView {
            committed: Committed { slots: self.registry@, store: self.store@ },
            commands: self.commands@,
            channels: Seq::new(self.channels@.len(), |k: int| self.channels@[k]@),
            event_kinds: Seq::new(self.event_kinds@.len(), |k: int| self.event_kinds@[k]@),
            ticks: self.ticks as nat,
        }
    }
}

impl<E, P> World<E, P> {
    /// The parts are well formed and fit together: components belong to live
    /// entities, there is one channel per event kind, and every channel has
    /// completed as many ticks as the world.
    pub closed spec fn wf(&self) -> bool {
        &&& self.registry.wf()
        &&& self.store.wf()
        &&& self@.wf()
        &&& forall|k: int| 0 <= k < self.channels@.len() ==> (#[trigger] self.channels@[k]).wf()
    }

    /// A well-formed world has a well-formed view.
    pub proof fn lemma_view_wf(&self)
        requires
            self.wf(),
        ensures
            self@.wf(),
    {
    }

    /// A world without entities, kinds, commands or events.
    pub fn new() -> (world: Self)
        ensures
            world.wf(),
            world@.committed.slots == Seq::<crate::entity::Slot>::empty(),
            world@.committed.store.kinds == Seq::<Seq<char>>::empty(),
            world@.committed.store.cells == Map::<
                (usize, usize),
                crate::component::Stored<P>,
            >::empty(),
            world@.commands == Seq::<Command<P>>::empty(),
            world@.channels == Seq::<ChannelView<E>>::empty(),
            world@.event_kinds == Seq::<Seq<char>>::empty(),
            world@.ticks == 0,
    {
        let world = World {
            registry: EntityRegistry::new(),
            store: ComponentStore::new(),
            commands: CommandBuffer::new(),
            channels: Vec::new(),
            event_kinds: Vec::new(),
            ticks: 0,
        };
        assert(world@.channels =~= Seq::<ChannelView<E>>::empty());
        assert(world@.event_kinds =~= Seq::<Seq<char>>::empty());
        world
    }

    /// Number of ticks that the world has completed.
    pub fn ticks(&self) -> (t: u64)
        ensures
            t == self@.ticks,
    {
        self.ticks
    }

    /// The entity registry, to read.
    pub fn registry(&self) -> (registry: &EntityRegistry)
        ensures
            registry@ == self@.committed.slots,
            self.wf() ==> registry.wf(),
    {
        &self.registry
    }

    /// The component store, to read.
    pub fn store(&self) -> (store: &ComponentStore<P>)
        ensures
            store@ == self@.committed.store,
            self.wf() ==> store.wf(),
    {
        &self.store
    }

    /// The channel of an event kind, to read; `None` for a kind that was
    /// never declared.
    pub fn events(&self, kind: usize) -> (channel: Option<&EventChannel<E>>)
        ensures
            match channel {
                Some(c) => kind < self@.channels.len() && c@ == self@.channels[kind as int] && (
                self.wf() ==> c.wf()),
                None => kind >= self@.channels.len(),
            },
    {
        if kind < self.channels.len() {
            Some(&self.channels[kind])
        } else {
            None
        }
    }

    /// Number of commands that wait for the sync point.
    pub fn pending_commands(&self) -> (n: usize)
        ensures
            n == self@.commands.len(),
    {
        self.commands.len()
    }

    /// Number of entities that are alive.
    pub fn entity_count(&self) -> (n: usize)
        ensures
            n == crate::entity::live_slots(self@.committed.slots),
    {
        self.registry.live_count()
    }

    /// Whether `id` names an entity that is alive.
    pub fn is_live(&self, id: EntityId) -> (live: bool)
        ensures
            live == self@.committed.alive(id),
    {
        self.registry.is_live(id)
    }

    /// Whether `id` has a component of `kind`.
    pub fn has(&self, id: EntityId, kind: usize) -> (present: bool)
        ensures
            present == self@.committed.has(id, kind),
    {
        self.store.has(id, kind)
    }

    /// The number of the component kind that was declared under `name`, if
    /// there is one.
    pub fn component_kind(&self, name: &String) -> (found: Option<usize>)
        ensures
            match found {
                Some(kind) => {
                    &&& kind < self@.committed.store.kinds.len()
                    &&& self@.committed.store.kinds[kind as int] == name@
                    &&& forall|k: int| 0 <= k < kind ==> self@.committed.store.kinds[k] != name@
                },
                None => !self@.committed.store.declares(name@),
            },
    {
        self.store.kind_of(name)
    }

    /// The number of the event kind that was declared under `name`, if there
    /// is one.
    pub fn event_kind(&self, name: &String) -> (found: Option<usize>)
        ensures
            match found {
                Some(kind) => {
                    &&& kind < self@.event_kinds.len()
                    &&& self@.event_kinds[kind as int] == name@
                    &&& forall|k: int| 0 <= k < kind ==> self@.event_kinds[k] != name@
                },
                None => !self@.declares_event(name@),
            },
    {
        let mut i: usize = 0;
        while i < self.event_kinds.len()
            invariant
                i <= self.event_kinds.len(),
                forall|k: int| 0 <= k < i ==> self.event_kinds@[k]@ != name@,
            decreases self.event_kinds.len() - i,
        {
            if self.event_kinds[i] == *name {
                return Some(i);
            }
            i = i + 1;
        }
        None
    }

    /// Declares a component kind under `name` and returns its number. A name
    /// that a component kind already has is refused.
    pub fn declare_component_kind(&mut self, name: String) -> (outcome: Result<
        usize,
        ConfigurationError,
    >)
        requires
            old(self).wf(),
        ensures
            final(self).wf(),
            match outcome {
                Ok(kind) => {
                    &&& !old(self)@.committed.store.declares(name@)
                    &&& kind == old(self)@.committed.store.kinds.len()
                    &&& final(self)@ == old(self)@.with_component_kind(name@)
                },
                Err(e) => {
                    &&& old(self)@.committed.store.declares(name@)
                    &&& e == ConfigurationError::DuplicateKind
                    &&& final(self)@ == old(self)@
                },
            },
    {
        let ghost before = self@;
        let outcome = self.store.declare_kind(name);
        proof {
            assert(self@.channels =~= before.channels);
            assert(self@.event_kinds =~= before.event_kinds);
        }
        outcome
    }

    /// Declares an event kind under `name`, with a channel that retains at
    /// most `capacity` events if a capacity is given, and returns the kind's
    /// number. A name that an event kind already has is refused.
    pub fn declare_event_kind(&mut self, name: String, capacity: Option<usize>) -> (outcome:
        Result<usize, ConfigurationError>)
        requires
            old(self).wf(),
        ensures
            final(self).wf(),
            match outcome {
                Ok(kind) => {
                    &&& !old(self)@.declares_event(name@)
                    &&& kind == old(self)@.event_kinds.len()
                    &&& final(self)@ == old(self)@.with_event_kind(name@, capacity)
                },
                Err(e) => {
                    &&& old(self)@.declares_event(name@)
                    &&& e == ConfigurationError::DuplicateKind
                    &&& final(self)@ == old(self)@
                },
            },
    {
        let mut i: usize = 0;
        while i < self.event_kinds.len()
            invariant
                i <= self.event_kinds.len(),
                *self == *old(self),
                self.wf(),
                forall|k: int| 0 <= k < i ==> self.event_kinds@[k]@ != name@,
            decreases self.event_kinds.len() - i,
        {
            if self.event_kinds[i] == name {
                assert(old(self)@.event_kinds[i as int] == name@);
                return Err(ConfigurationError::DuplicateKind);
            }
            i = i + 1;
        }
        let kind: usize = self.event_kinds.len();
        let channel = EventChannel::starting_at(self.ticks, capacity);
        self.event_kinds.push(name);
        self.channels.push(channel);
        proof {
            assert(self@.event_kinds =~= old(self)@.event_kinds.push(name@));
            assert(self@.channels =~= old(self)@.channels.push(channel@));
        }
        Ok(kind)
    }

    /// Reserves an identifier and records the command that brings its entity
    /// to life at the sync point. The identifier is not alive before that.
    pub fn spawn(&mut self) -> (id: EntityId)
        requires
            old(self).wf(),
        ensures
            final(self).wf(),
            id == old(self)@.next_id(),
            !old(self)@.committed.alive(id),
            final(self)@ == old(self)@.spawned(),
            final(self)@.extends(old(self)@),
    {
        let ghost before = self@;
        let id = self.commands.spawn(&mut self.registry);
        proof {
            assert(self@.channels =~= before.channels);
            assert(self@.event_kinds =~= before.event_kinds);
            before.lemma_extends_self();
            assert(self@.commands.take(before.commands.len() as int) =~= before.commands);
            assert forall|k: (usize, usize)| #[trigger]
                self@.committed.store.cells.contains_key(k) implies k.0 != id.index by {
                assert(before.committed.store.cells.contains_key(k));
            }
        }
        id
    }

    /// Records `command` behind everything recorded so far. Nothing changes
    /// for queries before the sync point.
    pub fn record(&mut self, command: Command<P>)
        requires
            old(self).wf(),
        ensures
            final(self).wf(),
            final(self)@ == old(self)@.recorded(command),
            final(self)@.extends(old(self)@),
    {
        let ghost before = self@;
        self.commands.record(command);
        proof {
            assert(self@.channels =~= before.channels);
            assert(self@.event_kinds =~= before.event_kinds);
            before.lemma_extends_self();
            assert(self@.commands.take(before.commands.len() as int) =~= before.commands);
        }
    }

    /// Records all of `commands`, in their order, behind everything recorded
    /// so far.
    pub fn record_all(&mut self, commands: Vec<Command<P>>)
        requires
            old(self).wf(),
        ensures
            final(self).wf(),
            final(self)@ == old(self)@.recorded_all(commands@),
            final(self)@.extends(old(self)@),
    {
        let ghost all = commands@;
        let total: usize = commands.len();
        proof {
            old(self)@.lemma_extends_self();
            assert(old(self)@.commands + all.take(0) =~= old(self)@.commands);
        }
        for command in it: commands
            invariant
                it.seq() == all,
                all.len() == total,
                self.wf(),
                self@ == old(self)@.recorded_all(all.take(it.index() as int)),
                self@.extends(old(self)@),
        {
            let ghost before = self@;
            self.record(command);
            proof {
                self@.lemma_extends_trans(before, old(self)@);
                assert(all.take(it.index() + 1) =~= all.take(it.index() as int).push(command));
                assert(old(self)@.commands + all.take(it.index() + 1) =~= (old(self)@.commands
                    + all.take(it.index() as int)).push(command));
            }
        }
        proof {
            assert(all.take(all.len() as int) =~= all);
        }
    }

    /// Sends `event` on the channel of `kind`. Every reader of the channel
    /// can see it at once. On an error the world is left as it was.
    pub fn send(&mut self, kind: usize, event: E) -> (outcome: Result<(), SendError>)
        requires
            old(self).wf(),
        ensures
            final(self).wf(),
            final(self)@.extends(old(self)@),
            match outcome {
                Ok(_) => {
                    &&& kind < old(self)@.channels.len()
                    &&& old(self)@.channels[kind as int].has_room()
                    &&& final(self)@ == old(self)@.sent(kind, event)
                },
                Err(SendError::UnknownKind) => {
                    &&& kind >= old(self)@.channels.len()
                    &&& final(self)@ == old(self)@
                },
                Err(SendError::Overflow(full)) => {
                    &&& kind < old(self)@.channels.len()
                    &&& !old(self)@.channels[kind as int].has_room()
                    &&& old(self)@.channels[kind as int].capacity == Some(full.capacity)
                    &&& final(self)@ == old(self)@
                },
            },
    {
        if kind >= self.channels.len() {
            proof {
                self@.lemma_extends_self();
            }
            return Err(SendError::UnknownKind);
        }
        let ghost before = self@;
        let ghost channels_before = self.channels@;
        let sent = self.channels[kind].send(event);
        proof {
            assert(self@.event_kinds =~= before.event_kinds);
            assert(self@.commands.take(self@.commands.len() as int) =~= self@.commands);
            assert forall|k: int| 0 <= k < self.channels@.len() implies (#[trigger] self.channels@[k]).wf() by {
                if k != kind {
                    assert(self.channels@[k] == channels_before[k]);
                }
            }
            assert forall|k: int| 0 <= k < self@.channels.len() implies {
                &&& (#[trigger] self@.channels[k]).tick == before.channels[k].tick
                &&& self@.channels[k].capacity == before.channels[k].capacity
                &&& self@.channels[k].older == before.channels[k].older
                &&& begins_with(self@.channels[k].newer, before.channels[k].newer)
            } by {
                if k != kind {
                    assert(self.channels@[k] == channels_before[k]);
                }
                assert(self@.channels[k].newer.take(before.channels[k].newer.len() as int)
                    =~= before.channels[k].newer);
            }
            if sent is Ok {
                assert(self@.channels =~= before.sent(kind, event).channels);
            } else {
                assert(self@.channels =~= before.channels);
            }
        }
        match sent {
            Ok(_) => Ok(()),
            Err(full) => Err(SendError::Overflow(full)),
        }
    }

    /// Whether the entity `id` passes `filter`, as of the last sync point.
    pub fn matches(&self, filter: &KindFilter, id: EntityId) -> (found: bool)
        ensures
            found == self@.matches(*filter, id),
    {
        if !self.registry.is_live(id) {
            return false;
        }
        let mut i: usize = 0;
        while i < filter.required.len()
            invariant
                i <= filter.required.len(),
                forall|j: int| 0 <= j < i ==> self@.committed.has(id, #[trigger] filter.required@[j]),
            decreases filter.required.len() - i,
        {
            if !self.store.has(id, filter.required[i]) {
                return false;
            }
            i = i + 1;
        }
        let mut i: usize = 0;
        while i < filter.forbidden.len()
            invariant
                i <= filter.forbidden.len(),
                forall|j: int|
                    0 <= j < i ==> !self@.committed.has(id, #[trigger] filter.forbidden@[j]),
            decreases filter.forbidden.len() - i,
        {
            if self.store.has(id, filter.forbidden[i]) {
                return false;
            }
            i = i + 1;
        }
        true
    }

    /// The first entity that passes `filter` in a slot at or after `from`, as
    /// of the last sync point. To walk through all of them, ask again from the
    /// slot behind the one that was found.
    pub fn query_from(&self, filter: &KindFilter, from: usize) -> (found: Option<EntityId>)
        ensures
            match found {
                Some(id) => {
                    &&& from <= id.index
                    &&& self@.matches(*filter, id)
                    &&& forall|other: EntityId|
                        from <= other.index < id.index ==> !self@.matches(*filter, other)
                },
                None => forall|other: EntityId|
                    from <= other.index ==> !self@.matches(*filter, other),
            },
    {
        let slots: usize = self.registry.slot_count();
        let mut slot: usize = from;
        while slot < slots
            invariant
                from <= slot,
                slots == self.registry@.len(),
                forall|other: EntityId|
                    from <= other.index < slot ==> !self@.matches(*filter, other),
            decreases slots - slot,
        {
            match self.registry.live_at(slot) {
                Some(id) => {
                    if self.matches(filter, id) {
                        return Some(id);
                    }
                    assert forall|other: EntityId| other.index == slot implies !self@.matches(
                        *filter,
                        other,
                    ) by {
                        if self@.committed.alive(other) {
                            assert(other == id);
                        }
                    }
                },
                None => {
                    assert forall|other: EntityId| other.index == slot implies !self@.matches(
                        *filter,
                        other,
                    ) by {
                        assert(self.registry.alive(other) == self@.committed.alive(other));
                    }
                },
            }
            slot = slot + 1;
        }
        None
    }

    /// Every entity that passes `filter`, as of the last sync point, in the
    /// order of their slots.
    pub fn query(&self, filter: &KindFilter) -> (found: Vec<EntityId>)
        ensures
            forall|i: int| 0 <= i < found@.len() ==> self@.matches(*filter, #[trigger] found@[i]),
            forall|id: EntityId| self@.matches(*filter, id) ==> found@.contains(id),
            forall|i: int, j: int| 0 <= i < j < found@.len() ==> found@[i].index < found@[j].index,
    {
        let mut found: Vec<EntityId> = Vec::new();
        let mut from: usize = 0;
        loop
            invariant_except_break
                forall|i: int| 0 <= i < found@.len() ==> (#[trigger] found@[i]).index < from,
                forall|id: EntityId|
                    self@.matches(*filter, id) && id.index < from ==> found@.contains(id),
            invariant
                forall|i: int| 0 <= i < found@.len() ==> self@.matches(*filter, #[trigger] found@[i]),
                forall|i: int, j: int|
                    0 <= i < j < found@.len() ==> found@[i].index < found@[j].index,
            ensures
                forall|id: EntityId| self@.matches(*filter, id) ==> found@.contains(id),
            decreases usize::MAX - from,
        {
            match self.query_from(filter, from) {
                Some(id) => {
                    let ghost before = found@;
                    found.push(id);
                    proof {
                        assert forall|other: EntityId|
                            self@.matches(*filter, other) && other.index <= id.index implies found@.contains(
                            other,
                        ) by {
                            if other.index < from {
                                assert(before.contains(other));
                                let w = choose|w: int| 0 <= w < before.len() && before[w] == other;
                                assert(found@[w] == other);
                            } else {
                                assert(other.index == id.index);
                                assert(other == id);
                                assert(found@[found@.len() - 1] == id);
                            }
                        }
                    }
                    if id.index == usize::MAX {
                        break ;
                    }
                    from = id.index + 1;
                },
                None => {
                    break ;
                },
            }
        }
        found
    }

    /// The sync point: applies every recorded command in the order recorded
    /// and leaves none behind. Returns a diagnostic for every command that
    /// did not find its target and was dropped.
    pub fn sync(&mut self) -> (dropped: Vec<Diagnostic>)
        requires
            old(self).wf(),
        ensures
            final(self).wf(),
            final(self)@ == old(self)@.synced(),
            dropped@ == old(self)@.committed.diagnostics(old(self)@.commands),
    {
        let ghost before = self@;
        let dropped = self.commands.apply_to(&mut self.registry, &mut self.store);
        proof {
            assert(self@.channels =~= before.channels);
            assert(self@.event_kinds =~= before.event_kinds);
        }
        dropped
    }

    /// Whether the tick counter has room for another tick.
    pub fn can_tick(&self) -> (ok: bool)
        ensures
            ok == (self@.ticks < u64::MAX),
    {
        self.ticks < u64::MAX
    }

    /// Completes a tick on every channel: what was sent during the tick stays
    /// for one more, what was sent during the tick before is dropped.
    pub fn advance_events(&mut self)
        requires
            old(self).wf(),
            old(self)@.ticks < u64::MAX,
        ensures
            final(self).wf(),
            final(self)@ == old(self)@.advanced(),
    {
        let ghost before = self.channels@;
        proof {
            assert forall|k: int| 0 <= k < before.len() implies (#[trigger] before[k])@.tick
                == self.ticks by {
                assert(self@.channels[k].tick == self@.ticks);
            }
        }
        let mut i: usize = 0;
        while i < self.channels.len()
            invariant
                i <= self.channels.len(),
                self.channels@.len() == before.len(),
                self.ticks == old(self).ticks,
                self.ticks < u64::MAX,
                self.registry == old(self).registry,
                self.store == old(self).store,
                self.commands == old(self).commands,
                self.event_kinds == old(self).event_kinds,
                forall|k: int| 0 <= k < before.len() ==> (#[trigger] before[k]).wf() && before[k]@.tick == self.ticks,
                forall|k: int| 0 <= k < self.channels@.len() ==> (#[trigger] self.channels@[k]).wf(),
                forall|k: int| 0 <= k < i ==> (#[trigger] self.channels@[k])@ == before[k]@.advanced(),
                forall|k: int| i <= k < before.len() ==> self.channels@[k] == before[k],
            decreases self.channels.len() - i,
        {
            let ghost step = self.channels@;
            assert(self.channels@[i as int] == before[i as int]);
            self.channels[i].advance();
            proof {
                assert forall|k: int| 0 <= k < self.channels@.len() implies (#[trigger] self.channels@[k]).wf() by {
                    if k != i {
                        assert(self.channels@[k] == step[k]);
                    }
                }
                assert forall|k: int| 0 <= k < i + 1 implies (#[trigger] self.channels@[k])@ == before[k]@.advanced() by {
                    if k != i {
                        assert(self.channels@[k] == step[k]);
                    }
                }
            }
            i = i + 1;
        }
        self.ticks = self.ticks + 1;
        proof {
            assert(self@.channels =~= old(self)@.advanced().channels);
            assert(self@.event_kinds =~= old(self)@.event_kinds);
        }
    }
}

} // verus!
