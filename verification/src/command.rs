//! Deferred structural mutation.
//!
//! Systems never change the entity registry or the component store. They
//! record what they want changed, and at the tick's sync point the recorded
//! commands are applied in the order in which they were recorded. A command
//! whose target is not alive at its turn changes nothing and is counted.

use crate::component::{ComponentStore, StoreView};
use crate::entity::{alive_in, reserved_in, slots_wf, EntityId, EntityRegistry, Slot, SlotState};
use crate::error::Diagnostic;
use vstd::prelude::*;

verus! {

/// A request to change the set of entities or their components.
pub enum Command<P> {
    /// Bring the entity of a reserved identifier to life.
    Spawn(EntityId),
    /// End the life of an entity and drop all its components.
    Despawn(EntityId),
    /// Give an entity a component of a kind, in place of the one it has.
    Attach(EntityId, usize, P),
    /// Take the component of a kind from an entity.
    Detach(EntityId, usize),
}

/// The structural state that queries see: the registry's table and the
/// store's contents as of the last sync point.
pub struct Committed<P> {
    pub slots: Seq<Slot>,
    pub store: StoreView<P>,
}

impl<P> Committed<P> {
    /// The table and the store are well formed, and every stored component
    /// belongs to the entity that is alive in its slot.
    pub open spec fn wf(self) -> bool {
        &&& slots_wf(self.slots)
        &&& self.store.wf()
        &&& forall|k: (usize, usize)| #[trigger]
            self.store.cells.contains_key(k) ==> {
                &&& k.0 < self.slots.len()
                &&& self.slots[k.0 as int].state == SlotState::Live
                &&& self.slots[k.0 as int].generation == self.store.cells[k].generation
            }
    }

    pub open spec fn alive(self, id: EntityId) -> bool {
        alive_in(self.slots, id)
    }

    pub open spec fn has(self, id: EntityId, kind: usize) -> bool {
        self.store.has(id, kind)
    }

    /// What keeps `command` from taking effect, if anything does. A spawn
    /// needs a reserved identifier; a despawn a live entity; an attach a live
    /// entity and a declared kind; a detach a live entity that has the
    /// component.
    pub open spec fn diagnosis(self, command: Command<P>) -> Option<Diagnostic> {
        match command {
            Command::Spawn(id) => if reserved_in(self.slots, id) {
                None
            } else {
                Some(Diagnostic::StaleReference(id))
            },
            Command::Despawn(id) => if self.alive(id) {
                None
            } else {
                Some(Diagnostic::StaleReference(id))
            },
            Command::Attach(id, kind, _) => if !self.alive(id) {
                Some(Diagnostic::StaleReference(id))
            } else if kind >= self.store.kinds.len() {
                Some(Diagnostic::UnknownKind(id, kind))
            } else {
                None
            },
            Command::Detach(id, kind) => if !self.alive(id) {
                Some(Diagnostic::StaleReference(id))
            } else if !self.has(id, kind) {
                Some(Diagnostic::NotFound(id, kind))
            } else {
                None
            },
        }
    }

    /// Whether `command` finds its target.
    pub open spec fn takes_effect(self, command: Command<P>) -> bool {
        self.diagnosis(command) is None
    }

    /// The state after `command` was applied. A command that does not find
    /// its target leaves the state as it is.
    pub open spec fn applied(self, command: Command<P>) -> Self {
        if !self.takes_effect(command) {
            self
        } else {
            match command {
                Command::Spawn(id) => Committed {
                    slots: self.slots.update(
                        id.index as int,
                        Slot { generation: id.generation, state: SlotState::Live },
                    ),
                    ..self
                },
                Command::Despawn(id) => Committed {
                    slots: self.slots.update(
                        id.index as int,
                        Slot { generation: (id.generation + 1) as u64, state: SlotState::Free },
                    ),
                    store: self.store.cleared(id.index),
                },
                Command::Attach(id, kind, payload) => Committed {
                    store: self.store.attached(id, kind, payload),
                    ..self
                },
                Command::Detach(id, kind) => Committed {
                    store: self.store.detached(id, kind),
                    ..self
                },
            }
        }
    }

    /// The state after all of `commands` were applied, first to last.
    pub open spec fn applied_all(self, commands: Seq<Command<P>>) -> Self
        decreases commands.len(),
    {
        if commands.len() == 0 {
            self
        } else {
            self.applied_all(commands.drop_last()).applied(commands.last())
        }
    }

    /// One diagnostic for each of `commands` that does not find its target
    /// at its turn, in the order of the commands.
    pub open spec fn diagnostics(self, commands: Seq<Command<P>>) -> Seq<Diagnostic>
        decreases commands.len(),
    {
        if commands.len() == 0 {
            Seq::empty()
        } else {
            self.diagnostics(commands.drop_last()) + match self.applied_all(
                commands.drop_last(),
            ).diagnosis(commands.last()) {
                Some(diagnostic) => seq![diagnostic],
                None => Seq::empty(),
            }
        }
    }

    /// Applying a command keeps the state well formed.
    pub proof fn lemma_applied_wf(self, command: Command<P>)
        requires
            self.wf(),
        ensures
            self.applied(command).wf(),
    {
    }

    /// Applying commands keeps the state well formed.
    pub proof fn lemma_applied_all_wf(self, commands: Seq<Command<P>>)
        requires
            self.wf(),
        ensures
            self.applied_all(commands).wf(),
        decreases commands.len(),
    {
        if commands.len() > 0 {
            self.lemma_applied_all_wf(commands.drop_last());
            self.applied_all(commands.drop_last()).lemma_applied_wf(commands.last());
        }
    }
}

/// The commands recorded since the last sync point, in the order recorded.
pub struct CommandBuffer<P> {
    commands: Vec<Command<P>>,
}

impl<P> View for CommandBuffer<P> {
    type V = Seq<Command<P>>;

    closed spec fn view(&self) -> Seq<Command<P>> {
        self.commands@
    }
}

impl<P> CommandBuffer<P> {
    /// An empty buffer.
    pub fn new() -> (buffer: Self)
        ensures
            buffer@ == Seq::<Command<P>>::empty(),
    {
        CommandBuffer { commands: Vec::new() }
    }

    /// Number of commands that wait for the next sync point.
    pub fn len(&self) -> (n: usize)
        ensures
            n == self@.len(),
    {
        self.commands.len()
    }

    /// Appends `command` behind everything recorded so far.
    pub fn record(&mut self, command: Command<P>)
        ensures
            final(self)@ == old(self)@.push(command),
    {
        self.commands.push(command);
    }

    /// Reserves an identifier and records the command that brings its entity
    /// to life at the next sync point. The identifier can be passed on at
    /// once; it is not alive before the command is applied.
    pub fn spawn(&mut self, registry: &mut EntityRegistry) -> (id: EntityId)
        requires
            old(registry).wf(),
        ensures
            final(registry).wf(),
            id == old(registry).next_id(),
            id.index <= old(registry)@.len(),
            id.index < old(registry)@.len() ==> crate::entity::reusable(
                old(registry)@[id.index as int],
            ),
            final(registry)@ == crate::entity::reserved_next(old(registry)@),
            final(self)@ == old(self)@.push(Command::Spawn(id)),
    {
        let id = registry.reserve();
        self.commands.push(Command::Spawn(id));
        id
    }

    /// Applies every recorded command to the registry and the store, strictly
    /// in the order recorded, and leaves the buffer empty. A command that does
    /// not find its target changes nothing; for each such command the result
    /// holds a diagnostic.
    pub fn apply_to(
        &mut self,
        registry: &mut EntityRegistry,
        store: &mut ComponentStore<P>,
    ) -> (dropped: Vec<Diagnostic>)
        requires
            old(registry).wf(),
            old(store).wf(),
            (Committed { slots: old(registry)@, store: old(store)@ }).wf(),
        ensures
            final(registry).wf(),
            final(store).wf(),
            (Committed { slots: final(registry)@, store: final(store)@ }).wf(),
            (Committed { slots: final(registry)@, store: final(store)@ }) == (Committed {
                slots: old(registry)@,
                store: old(store)@,
            }).applied_all(old(self)@),
            dropped@ == (Committed { slots: old(registry)@, store: old(store)@ }).diagnostics(
                old(self)@,
            ),
            final(self)@ == Seq::<Command<P>>::empty(),
    {
        let mut pending: Vec<Command<P>> = Vec::new();
        std::mem::swap(&mut pending, &mut self.commands);
        let ghost commands = pending@;
        let ghost start = Committed { slots: registry@, store: store@ };
        let mut dropped: Vec<Diagnostic> = Vec::new();
        for command in it: pending
            invariant
                it.seq() == commands,
                registry.wf(),
                store.wf(),
                (Committed { slots: registry@, store: store@ }).wf(),
                (Committed { slots: registry@, store: store@ }) == start.applied_all(
                    commands.take(it.index() as int),
                ),
                dropped@ == start.diagnostics(commands.take(it.index() as int)),
                self.commands@ == Seq::<Command<P>>::empty(),
        {
            let ghost now = Committed { slots: registry@, store: store@ };
            let ghost noted = dropped@;
            proof {
                assert(commands.take(it.index() + 1).drop_last() == commands.take(
                    it.index() as int,
                ));
                now.lemma_applied_wf(command);
            }
            match command {
                Command::Spawn(id) => {
                    if !registry.activate(id) {
                        dropped.push(Diagnostic::StaleReference(id));
                    }
                },
                Command::Despawn(id) => {
                    if registry.free(id) {
                        store.clear_slot(id.index);
                    } else {
                        dropped.push(Diagnostic::StaleReference(id));
                    }
                },
                Command::Attach(id, kind, payload) => {
                    if !registry.is_live(id) {
                        dropped.push(Diagnostic::StaleReference(id));
                    } else if kind >= store.kind_count() {
                        dropped.push(Diagnostic::UnknownKind(id, kind));
                    } else {
                        let _ = store.attach(id, kind, payload);
                    }
                },
                Command::Detach(id, kind) => {
                    if !registry.is_live(id) {
                        dropped.push(Diagnostic::StaleReference(id));
                    } else if !store.has(id, kind) {
                        dropped.push(Diagnostic::NotFound(id, kind));
                    } else {
                        let _ = store.detach(id, kind);
                    }
                },
            }
            proof {
                assert((Committed { slots: registry@, store: store@ }) == now.applied(command));
                assert(dropped@ =~= noted + match now.diagnosis(command) {
                    Some(diagnostic) => seq![diagnostic],
                    None => Seq::empty(),
                });
            }
        }
        proof {
            assert(commands.take(commands.len() as int) == commands);
        }
        dropped
    }
}

} // verus!
