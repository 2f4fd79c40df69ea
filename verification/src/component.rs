//! Storage for the components attached to entities.
//!
//! A component is a payload of some declared kind that belongs to one entity.
//! The store keeps one cell per slot of the entity registry and kind; a cell
//! remembers the generation of the entity it was attached to, so a stale
//! handle finds nothing.

use crate::entity::EntityId;
use crate::error::{ConfigurationError, NotFound};
use vstd::prelude::*;

verus! {

/// A payload together with the generation of the entity that owns it.
pub struct Stored<P> {
    pub generation: u64,
    pub payload: P,
}

/// What a store holds, as mathematics.
pub struct StoreView<P> {
    /// The occupied cells, by slot and kind.
    pub cells: Map<(usize, usize), Stored<P>>,
    /// The names of the declared kinds; a kind is its position here.
    pub kinds: Seq<Seq<char>>,
}

impl<P> StoreView<P> {
    /// Whether the entity `id` has a component of `kind`.
    pub open spec fn has(self, id: EntityId, kind: usize) -> bool {
        self.cells.contains_key((id.index, kind)) && self.cells[(id.index, kind)].generation
            == id.generation
    }

    /// The payload of the component of `kind` that `id` has.
    pub open spec fn payload(self, id: EntityId, kind: usize) -> P
        recommends
            self.has(id, kind),
    {
        self.cells[(id.index, kind)].payload
    }

    /// Whether a kind of that name has been declared.
    pub open spec fn declares(self, name: Seq<char>) -> bool {
        exists|k: int| 0 <= k < self.kinds.len() && self.kinds[k] == name
    }

    /// The store after `payload` was attached to `id` as its component of
    /// `kind`. An undeclared kind is not stored.
    pub open spec fn attached(self, id: EntityId, kind: usize, payload: P) -> Self {
        if kind < self.kinds.len() {
            StoreView {
                cells: self.cells.insert(
                    (id.index, kind),
                    Stored { generation: id.generation, payload },
                ),
                ..self
            }
        } else {
            self
        }
    }

    /// The store after the component of `kind` was taken from `id`.
    pub open spec fn detached(self, id: EntityId, kind: usize) -> Self {
        if self.has(id, kind) {
            StoreView { cells: self.cells.remove((id.index, kind)), ..self }
        } else {
            self
        }
    }

    /// The store after every cell of `slot` was emptied.
    pub open spec fn cleared(self, slot: usize) -> Self {
        StoreView {
            cells: Map::new(
                |k: (usize, usize)| self.cells.contains_key(k) && k.0 != slot,
                |k: (usize, usize)| self.cells[k],
            ),
            ..self
        }
    }

    /// Number of kinds below `upto` of which `id` has a component.
    pub open spec fn count_below(self, id: EntityId, upto: nat) -> nat
        decreases upto,
    {
        if upto == 0 {
            0
        } else {
            self.count_below(id, (upto - 1) as nat) + if self.has(id, (upto - 1) as usize) {
                1nat
            } else {
                0nat
            }
        }
    }

    /// Number of components that `id` has.
    pub open spec fn count_for(self, id: EntityId) -> nat {
        self.count_below(id, self.kinds.len())
    }

    /// Only declared kinds are stored.
    pub open spec fn wf(self) -> bool {
        forall|k: (usize, usize)| #[trigger] self.cells.contains_key(k) ==> k.1 < self.kinds.len()
    }
}

spec fn cell_of<P>(rows: Seq<Vec<Option<Stored<P>>>>, slot: usize, kind: usize) -> Option<
    Stored<P>,
> {
    if slot < rows.len() && kind < rows[slot as int]@.len() {
        rows[slot as int]@[kind as int]
    } else {
        None
    }
}

/// Sparse storage of component payloads, by entity and kind.
pub struct ComponentStore<P> {
    /// One row per registry slot that ever held a component; a row has one
    /// cell per kind, as far as it has been filled.
    rows: Vec<Vec<Option<Stored<P>>>>,
    kinds: Vec<String>,
}

impl<P> ComponentStore<P> {
    /// The cell of `slot` and `kind`, empty when the table does not reach it.
    pub closed spec fn cell(&self, slot: usize, kind: usize) -> Option<Stored<P>> {
        cell_of(self.rows@, slot, kind)
    }

    pub closed spec fn kind_names(&self) -> Seq<Seq<char>> {
        Seq::new(self.kinds@.len(), |i: int| self.kinds@[i]@)
    }

    /// No row is longer than the list of declared kinds.
    pub closed spec fn wf(&self) -> bool {
        forall|s: int|
            0 <= s < self.rows@.len() ==> (#[trigger] self.rows@[s])@.len() <= self.kinds@.len()
    }
}

impl<P> View for ComponentStore<P> {
    type V = StoreView<P>;

    closed spec fn view(&self) -> StoreView<P> {
        StoreView {
            cells: Map::new(
                |k: (usize, usize)| self.cell(k.0, k.1) is Some,
                |k: (usize, usize)| self.cell(k.0, k.1)->Some_0,
            ),
            kinds: self.kind_names(),
        }
    }
}

impl<P> ComponentStore<P> {
    /// A store without kinds or components.
    pub fn new() -> (store: Self)
        ensures
            store.wf(),
            store@.wf(),
            store@.kinds == Seq::<Seq<char>>::empty(),
            store@.cells == Map::<(usize, usize), Stored<P>>::empty(),
    {
        let store = ComponentStore { rows: Vec::new(), kinds: Vec::new() };
        assert(store@.kinds =~= Seq::<Seq<char>>::empty());
        assert(store@.cells =~= Map::<(usize, usize), Stored<P>>::empty());
        store
    }

    /// A well-formed store holds components of declared kinds only.
    pub proof fn lemma_view_wf(&self)
        requires
            self.wf(),
        ensures
            self@.wf(),
    {
        assert forall|k: (usize, usize)| #[trigger] self@.cells.contains_key(k) implies k.1
            < self@.kinds.len() by {
            assert(self.rows@[k.0 as int]@.len() <= self.kinds@.len());
        }
    }

    /// Number of declared kinds.
    pub fn kind_count(&self) -> (n: usize)
        ensures
            n == self@.kinds.len(),
    {
        self.kinds.len()
    }

    /// The number of the kind that was declared under `name`, if there is one.
    pub fn kind_of(&self, name: &String) -> (found: Option<usize>)
        ensures
            match found {
                Some(kind) => {
                    &&& kind < self@.kinds.len()
                    &&& self@.kinds[kind as int] == name@
                    &&& forall|k: int| 0 <= k < kind ==> self@.kinds[k] != name@
                },
                None => !self@.declares(name@),
            },
    {
        let mut i: usize = 0;
        while i < self.kinds.len()
            invariant
                i <= self.kinds.len(),
                forall|k: int| 0 <= k < i ==> self.kinds@[k]@ != name@,
            decreases self.kinds.len() - i,
        {
            if self.kinds[i] == *name {
                return Some(i);
            }
            i = i + 1;
        }
        None
    }

    /// Declares a component kind and returns the number that stands for it
    /// from now on. A name that is already taken is refused.
    pub fn declare_kind(&mut self, name: String) -> (outcome: Result<usize, ConfigurationError>)
        requires
            old(self).wf(),
        ensures
            final(self).wf(),
            final(self)@.cells == old(self)@.cells,
            match outcome {
                Ok(kind) => {
                    &&& !old(self)@.declares(name@)
                    &&& kind == old(self)@.kinds.len()
                    &&& final(self)@.kinds == old(self)@.kinds.push(name@)
                },
                Err(e) => {
                    &&& old(self)@.declares(name@)
                    &&& e == ConfigurationError::DuplicateKind
                    &&& final(self)@.kinds == old(self)@.kinds
                },
            },
    {
        let mut i: usize = 0;
        while i < self.kinds.len()
            invariant
                i <= self.kinds.len(),
                self.kinds@ == old(self).kinds@,
                self.rows@ == old(self).rows@,
                self.wf(),
                forall|k: int| 0 <= k < i ==> self.kinds@[k]@ != name@,
            decreases self.kinds.len() - i,
        {
            if self.kinds[i] == name {
                assert(old(self)@.kinds[i as int] == name@);
                proof {
                    assert(self@.cells =~= old(self)@.cells);
                }
                return Err(ConfigurationError::DuplicateKind);
            }
            i = i + 1;
        }
        let kind: usize = self.kinds.len();
        self.kinds.push(name);
        proof {
            assert(self@.kinds =~= old(self)@.kinds.push(name@));
            assert(self@.cells =~= old(self)@.cells);
        }
        Ok(kind)
    }

    /// Whether `id` has a component of `kind`.
    pub fn has(&self, id: EntityId, kind: usize) -> (present: bool)
        ensures
            present == self@.has(id, kind),
    {
        if id.index < self.rows.len() && kind < self.rows[id.index].len() {
            match &self.rows[id.index][kind] {
                Some(stored) => stored.generation == id.generation,
                None => false,
            }
        } else {
            false
        }
    }

    /// The payload of the component of `kind` that `id` has.
    pub fn get(&self, id: EntityId, kind: usize) -> (outcome: Result<&P, NotFound>)
        ensures
            match outcome {
                Ok(payload) => self@.has(id, kind) && *payload == self@.payload(id, kind),
                Err(_) => !self@.has(id, kind),
            },
    {
        if id.index < self.rows.len() && kind < self.rows[id.index].len() {
            match &self.rows[id.index][kind] {
                Some(stored) => {
                    if stored.generation == id.generation {
                        Ok(&stored.payload)
                    } else {
                        Err(NotFound)
                    }
                },
                None => Err(NotFound),
            }
        } else {
            Err(NotFound)
        }
    }

    /// Number of components that `id` has.
    pub fn count_for(&self, id: EntityId) -> (n: usize)
        ensures
            n == self@.count_for(id),
    {
        let mut n: usize = 0;
        let mut kind: usize = 0;
        while kind < self.kinds.len()
            invariant
                kind <= self.kinds.len(),
                self.kinds@.len() == self@.kinds.len(),
                n <= kind,
                n == self@.count_below(id, kind as nat),
            decreases self.kinds.len() - kind,
        {
            if self.has(id, kind) {
                n = n + 1;
            }
            kind = kind + 1;
        }
        n
    }

    /// Attaches `payload` to `id` as its component of `kind`, in place of any
    /// payload of that kind that the slot held. Returns whether `id` had such
    /// a component before. For a kind that was never declared nothing is stored.
    pub fn attach(&mut self, id: EntityId, kind: usize, payload: P) -> (had_prior: bool)
        requires
            old(self).wf(),
        ensures
            final(self).wf(),
            had_prior == old(self)@.has(id, kind),
            final(self)@ == old(self)@.attached(id, kind, payload),
    {
        if kind >= self.kinds.len() {
            proof {
                self.lemma_view_wf();
            }
            return false;
        }
        let had_prior = self.has(id, kind);
        while self.rows.len() <= id.index
            invariant
                self.wf(),
                self.kinds@ == old(self).kinds@,
                old(self).rows@.len() <= self.rows@.len(),
                forall|s: int| 0 <= s < old(self).rows@.len() ==> self.rows@[s] == old(self).rows@[s],
                forall|s: int|
                    old(self).rows@.len() <= s < self.rows@.len() ==> (#[trigger] self.rows@[s])@.len()
                        == 0,
            decreases id.index + 1 - self.rows.len(),
        {
            self.rows.push(Vec::new());
        }
        let ghost grown = self.rows@;
        let ghost old_row = grown[id.index as int]@;
        let mut row: Vec<Option<Stored<P>>> = Vec::new();
        std::mem::swap(&mut row, &mut self.rows[id.index]);
        while row.len() <= kind
            invariant
                kind < self.kinds@.len(),
                row@.len() <= self.kinds@.len(),
                old_row.len() <= row@.len(),
                forall|k: int| 0 <= k < old_row.len() ==> row@[k] == old_row[k],
                forall|k: int| old_row.len() <= k < row@.len() ==> row@[k] is None,
            decreases kind + 1 - row.len(),
        {
            row.push(None);
        }
        let ghost padded = row@;
        row[kind] = Some(Stored { generation: id.generation, payload });
        self.rows[id.index] = row;
        proof {
            assert(self.rows@.len() == grown.len());
            assert forall|s: int| 0 <= s < self.rows@.len() implies (#[trigger] self.rows@[s])@.len()
                <= self.kinds@.len() by {
                if s != id.index {
                    assert(self.rows@[s] == grown[s]);
                }
            }
            let target = old(self)@.attached(id, kind, payload);
            assert forall|key: (usize, usize)|
                self.cell(key.0, key.1) == (if key == (id.index, kind) {
                    Some(Stored { generation: id.generation, payload })
                } else {
                    old(self).cell(key.0, key.1)
                }) by {
                if key.0 < grown.len() {
                    if key.0 != id.index {
                        assert(self.rows@[key.0 as int] == grown[key.0 as int]);
                    } else if key.1 != kind && key.1 < padded.len() {
                        assert(self.rows@[key.0 as int]@[key.1 as int] == padded[key.1 as int]);
                    }
                }
            }
            assert(self@.cells =~= target.cells);
            assert(self@.kinds =~= target.kinds);
        }
        had_prior
    }

    /// Takes the component of `kind` from `id` and hands back its payload;
    /// `NotFound`, with the store left as it was, when `id` has none.
    pub fn detach(&mut self, id: EntityId, kind: usize) -> (outcome: Result<P, NotFound>)
        requires
            old(self).wf(),
        ensures
            final(self).wf(),
            final(self)@ == old(self)@.detached(id, kind),
            match outcome {
                Ok(payload) => old(self)@.has(id, kind) && payload == old(self)@.payload(id, kind),
                Err(_) => !old(self)@.has(id, kind),
            },
    {
        if !self.has(id, kind) {
            return Err(NotFound);
        }
        let ghost before = self.rows@;
        let mut row: Vec<Option<Stored<P>>> = Vec::new();
        std::mem::swap(&mut row, &mut self.rows[id.index]);
        let prior = row[kind].take();
        self.rows[id.index] = row;
        proof {
            assert forall|s: int| 0 <= s < self.rows@.len() implies (#[trigger] self.rows@[s])@.len()
                <= self.kinds@.len() by {
                if s != id.index {
                    assert(self.rows@[s] == before[s]);
                }
            }
            let target = old(self)@.detached(id, kind);
            assert forall|key: (usize, usize)| self@.cells.contains_key(key)
                == target.cells.contains_key(key) by {
                if key.0 != id.index && key.0 < before.len() {
                    assert(self.rows@[key.0 as int] == before[key.0 as int]);
                }
            }
            assert forall|key: (usize, usize)| self@.cells.contains_key(key) implies self@.cells[key] == target.cells[key] by {
                if key.0 != id.index && key.0 < before.len() {
                    assert(self.rows@[key.0 as int] == before[key.0 as int]);
                }
            }
            assert(self@.cells =~= target.cells);
            assert(self@.kinds =~= target.kinds);
        }
        Ok(prior.unwrap().payload)
    }

    /// Empties every cell of `slot`, whatever entity the payloads belonged to.
    pub fn clear_slot(&mut self, slot: usize)
        requires
            old(self).wf(),
        ensures
            final(self).wf(),
            final(self)@ == old(self)@.cleared(slot),
    {
        let ghost before = self.rows@;
        if slot < self.rows.len() {
            self.rows[slot] = Vec::new();
        }
        proof {
            assert forall|s: int| 0 <= s < self.rows@.len() implies (#[trigger] self.rows@[s])@.len()
                <= self.kinds@.len() by {
                if s != slot {
                    assert(self.rows@[s] == before[s]);
                }
            }
            let target = old(self)@.cleared(slot);
            assert forall|key: (usize, usize)| self@.cells.contains_key(key)
                == target.cells.contains_key(key) by {
                if key.0 != slot && key.0 < before.len() {
                    assert(self.rows@[key.0 as int] == before[key.0 as int]);
                }
            }
            assert forall|key: (usize, usize)| self@.cells.contains_key(key) implies self@.cells[key] == target.cells[key] by {
                if key.0 != slot && key.0 < before.len() {
                    assert(self.rows@[key.0 as int] == before[key.0 as int]);
                }
            }
            assert(self@.cells =~= target.cells);
            assert(self@.kinds =~= target.kinds);
        }
    }
}

} // verus!
