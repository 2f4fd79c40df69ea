//! Entity identifiers and the registry that hands them out.
//!
//! The registry is a table of slots. A handle names a slot together with the
//! generation of that slot for which it was issued, so a handle that outlives
//! its entity is recognised as stale and never reaches the slot's next tenant.

use vstd::prelude::*;

verus! {

/// An opaque handle to an entity.
#[derive(Clone, Copy, Debug, PartialEq, Eq, Structural, Hash)]
pub struct EntityId {
    /// Slot of the registry that holds the entity.
    pub index: usize,
    /// Generation of that slot at the time the handle was issued.
    pub generation: u64,
}

/// Where a slot stands in the life of its current generation.
#[derive(Clone, Copy, Debug, PartialEq, Eq, Structural)]
pub enum SlotState {
    /// No entity; the slot may be handed out.
    Free,
    /// An identifier has been handed out, the entity is not alive yet.
    Reserved,
    /// The entity of the current generation is alive.
    Live,
}

/// One entry of the registry's table.
#[derive(Clone, Copy, Debug, PartialEq, Eq, Structural)]
pub struct Slot {
    pub generation: u64,
    pub state: SlotState,
}

/// A free slot can be handed out again unless its generation counter is used up.
pub open spec fn reusable(slot: Slot) -> bool {
    slot.state == SlotState::Free && slot.generation < u64::MAX
}

/// Index of the first reusable slot at or after `from`, or the table's length if
/// there is none.
pub open spec fn first_reusable_from(slots: Seq<Slot>, from: int) -> int
    decreases slots.len() - from,
{
    if from >= slots.len() {
        slots.len() as int
    } else if reusable(slots[from]) {
        from
    } else {
        first_reusable_from(slots, from + 1)
    }
}

/// The table with slot `index` replaced, or with `slot` appended when `index`
/// is the table's length.
pub open spec fn with_slot(slots: Seq<Slot>, index: int, slot: Slot) -> Seq<Slot> {
    if index < slots.len() {
        slots.update(index, slot)
    } else {
        slots.push(slot)
    }
}

/// Number of live slots in a table.
pub open spec fn live_slots(slots: Seq<Slot>) -> nat
    decreases slots.len(),
{
    if slots.len() == 0 {
        0
    } else {
        live_slots(slots.drop_last()) + if slots.last().state == SlotState::Live {
            1nat
        } else {
            0nat
        }
    }
}

/// Whether `id` names a live entity of the table.
pub open spec fn alive_in(slots: Seq<Slot>, id: EntityId) -> bool {
    &&& id.index < slots.len()
    &&& slots[id.index as int].generation == id.generation
    &&& slots[id.index as int].state == SlotState::Live
}

/// Whether `id` has been handed out and awaits its entity.
pub open spec fn reserved_in(slots: Seq<Slot>, id: EntityId) -> bool {
    &&& id.index < slots.len()
    &&& slots[id.index as int].generation == id.generation
    &&& slots[id.index as int].state == SlotState::Reserved
}

/// Whether `id` was ever handed out by the table: its slot has reached the
/// handle's generation, and has left it behind or is occupied.
pub open spec fn issued_in(slots: Seq<Slot>, id: EntityId) -> bool {
    &&& id.index < slots.len()
    &&& (id.generation < slots[id.index as int].generation || (id.generation
        == slots[id.index as int].generation && slots[id.index as int].state != SlotState::Free))
}

/// The identifier that the next reservation hands out: the lowest reusable
/// slot at its current generation, or a new slot at generation zero.
pub open spec fn next_id_in(slots: Seq<Slot>) -> EntityId {
    let i = first_reusable_from(slots, 0);
    EntityId {
        index: i as usize,
        generation: if i < slots.len() {
            slots[i].generation
        } else {
            0
        },
    }
}

/// The table after the next identifier was reserved.
pub open spec fn reserved_next(slots: Seq<Slot>) -> Seq<Slot> {
    let id = next_id_in(slots);
    with_slot(slots, id.index as int, Slot { generation: id.generation, state: SlotState::Reserved })
}

/// No occupied slot has used up its generation counter, so freeing it can
/// always move to a fresh generation.
pub open spec fn slots_wf(slots: Seq<Slot>) -> bool {
    forall|i: int|
        0 <= i < slots.len() && (#[trigger] slots[i]).state != SlotState::Free
            ==> slots[i].generation < u64::MAX
}

/// Where no slot before `upto` is reusable, the first reusable slot of the
/// table is the first at or after `upto`.
proof fn lemma_search_from(slots: Seq<Slot>, upto: int, from: int)
    requires
        0 <= from <= upto <= slots.len(),
        forall|j: int| 0 <= j < upto ==> !reusable(#[trigger] slots[j]),
    ensures
        first_reusable_from(slots, from) == first_reusable_from(slots, upto),
    decreases upto - from,
{
    if from < upto {
        lemma_search_from(slots, upto, from + 1);
    }
}

/// Allocates and frees entity identifiers and tracks which are alive.
pub struct EntityRegistry {
    slots: Vec<Slot>,
    /// No slot before this index is reusable: the search for the lowest
    /// reusable slot starts here.
    search_from: usize,
}

impl View for EntityRegistry {
    type V = Seq<Slot>;

    closed spec fn view(&self) -> Seq<Slot> {
        self.slots@
    }
}

impl EntityRegistry {
    /// The table is well formed, and the registry's note of where the
    /// reusable slots begin is right.
    pub open spec fn wf(&self) -> bool {
        slots_wf(self@) && self.search_ok()
    }

    pub closed spec fn search_ok(&self) -> bool {
        &&& self.search_from <= self.slots@.len()
        &&& forall|j: int| 0 <= j < self.search_from ==> !reusable(#[trigger] self.slots@[j])
    }

    pub open spec fn alive(&self, id: EntityId) -> bool {
        alive_in(self@, id)
    }

    pub open spec fn reserved(&self, id: EntityId) -> bool {
        reserved_in(self@, id)
    }

    /// The identifier that the next reservation hands out.
    pub open spec fn next_id(&self) -> EntityId {
        next_id_in(self@)
    }

    /// An empty registry.
    pub fn new() -> (registry: Self)
        ensures
            registry@ == Seq::<Slot>::empty(),
            registry.wf(),
    {
        EntityRegistry { slots: Vec::new(), search_from: 0 }
    }

    /// Number of slots in the table, occupied or not.
    pub fn slot_count(&self) -> (n: usize)
        ensures
            n == self@.len(),
    {
        self.slots.len()
    }

    /// Number of entities that are alive.
    pub fn live_count(&self) -> (n: usize)
        ensures
            n == live_slots(self@),
    {
        let mut n: usize = 0;
        let mut i: usize = 0;
        while i < self.slots.len()
            invariant
                i <= self.slots.len(),
                n == live_slots(self.slots@.take(i as int)),
                n <= i,
            decreases self.slots.len() - i,
        {
            proof {
                assert(self.slots@.take(i + 1).drop_last() == self.slots@.take(i as int));
            }
            if self.slots[i].state == SlotState::Live {
                n = n + 1;
            }
            i = i + 1;
        }
        proof {
            assert(self.slots@.take(i as int) == self.slots@);
        }
        n
    }

    /// Whether `id` names an entity that is alive.
    pub fn is_live(&self, id: EntityId) -> (live: bool)
        ensures
            live == self.alive(id),
    {
        id.index < self.slots.len() && self.slots[id.index].generation == id.generation
            && self.slots[id.index].state == SlotState::Live
    }

    /// The entity that is alive in slot `index`, if there is one.
    pub fn live_at(&self, index: usize) -> (found: Option<EntityId>)
        ensures
            match found {
                Some(id) => id.index == index && self.alive(id),
                None => forall|id: EntityId| id.index == index ==> !self.alive(id),
            },
    {
        if index < self.slots.len() && self.slots[index].state == SlotState::Live {
            Some(EntityId { index, generation: self.slots[index].generation })
        } else {
            None
        }
    }

    /// Whether `id` has been reserved and not yet brought to life.
    pub fn is_reserved(&self, id: EntityId) -> (pending: bool)
        ensures
            pending == self.reserved(id),
    {
        id.index < self.slots.len() && self.slots[id.index].generation == id.generation
            && self.slots[id.index].state == SlotState::Reserved
    }

    /// Hands out the next identifier without bringing its entity to life.
    ///
    /// The lowest reusable slot is taken; when there is none the table grows by
    /// one slot. The identifier is not alive until it is activated.
    pub fn reserve(&mut self) -> (id: EntityId)
        requires
            old(self).wf(),
        ensures
            final(self).wf(),
            id == old(self).next_id(),
            id.index <= old(self)@.len(),
            id.index < old(self)@.len() ==> reusable(old(self)@[id.index as int]),
            final(self)@ == reserved_next(old(self)@),
    {
        let mut i: usize = self.search_from;
        proof {
            lemma_search_from(self.slots@, i as int, 0);
        }
        while i < self.slots.len()
            invariant
                i <= self.slots.len(),
                self.slots@ == old(self)@,
                slots_wf(self.slots@),
                forall|j: int| 0 <= j < i ==> !reusable(#[trigger] self.slots@[j]),
                first_reusable_from(self.slots@, 0) == first_reusable_from(self.slots@, i as int),
            decreases self.slots.len() - i,
        {
            let slot = self.slots[i];
            if slot.state == SlotState::Free && slot.generation < u64::MAX {
                self.slots[i] = Slot { generation: slot.generation, state: SlotState::Reserved };
                self.search_from = i + 1;
                return EntityId { index: i, generation: slot.generation };
            }
            i = i + 1;
        }
        self.slots.push(Slot { generation: 0, state: SlotState::Reserved });
        self.search_from = self.slots.len();
        EntityId { index: i, generation: 0 }
    }

    /// Brings a reserved identifier to life. Returns whether it was reserved;
    /// any other identifier leaves the registry as it was.
    pub fn activate(&mut self, id: EntityId) -> (activated: bool)
        requires
            old(self).wf(),
        ensures
            final(self).wf(),
            activated == old(self).reserved(id),
            final(self)@ == if activated {
                old(self)@.update(
                    id.index as int,
                    Slot { generation: id.generation, state: SlotState::Live },
                )
            } else {
                old(self)@
            },
    {
        if self.is_reserved(id) {
            self.slots[id.index] = Slot { generation: id.generation, state: SlotState::Live };
            true
        } else {
            false
        }
    }

    /// Hands out the next identifier and brings its entity to life at once.
    pub fn allocate(&mut self) -> (id: EntityId)
        requires
            old(self).wf(),
        ensures
            final(self).wf(),
            id == old(self).next_id(),
            final(self).alive(id),
            final(self)@ == with_slot(
                old(self)@,
                id.index as int,
                Slot { generation: id.generation, state: SlotState::Live },
            ),
    {
        let id = self.reserve();
        let _ = self.activate(id);
        id
    }

    /// Ends the life of `id`: its slot becomes free at the next generation, so
    /// every handle to the old entity is stale from now on. Returns whether
    /// `id` was alive; freeing any other identifier changes nothing.
    pub fn free(&mut self, id: EntityId) -> (was_live: bool)
        requires
            old(self).wf(),
        ensures
            final(self).wf(),
            was_live == old(self).alive(id),
            final(self)@ == if was_live {
                old(self)@.update(
                    id.index as int,
                    Slot { generation: (id.generation + 1) as u64, state: SlotState::Free },
                )
            } else {
                old(self)@
            },
    {
        if self.is_live(id) {
            self.slots[id.index] = Slot { generation: id.generation + 1, state: SlotState::Free };
            if id.index < self.search_from {
                self.search_from = id.index;
            }
            true
        } else {
            false
        }
    }
}

} // verus!
