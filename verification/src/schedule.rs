//! Systems, their order, and the tick.
//!
//! Systems are registered under a name together with the names of the systems
//! they run after. Closing the registration resolves one order that honours
//! every such constraint, or reports that the constraints form a cycle. The
//! order is fixed from then on: every tick runs the systems in that order,
//! applies the recorded commands once, and moves the event channels on.

use crate::error::{ConfigurationError, Diagnostic};
use crate::world::{World, WorldView};
use vstd::prelude::*;

verus! {

/// A callback that a schedule runs once per tick.
///
/// A system reads the world as of the last sync point, sends and reads
/// events, and records commands. It gets the tick's input from the host.
pub trait System<I, E, P> {
    /// Whether one run of this system, with `input` and on the world
    /// `before`, can leave the system as `later` and the world as `after`.
    /// A system that does not say what it does may do whatever a system can.
    open spec fn step(
        &self,
        input: &I,
        before: WorldView<E, P>,
        later: &Self,
        after: WorldView<E, P>,
    ) -> bool {
        true
    }

    fn run(&mut self, input: &I, world: &mut World<E, P>)
        requires
            old(world).wf(),
        ensures
            final(world).wf(),
            final(world)@.extends(old(world)@),
            old(self).step(input, old(world)@, final(self), final(world)@),
    ;
}

/// What stands between two runs of a tick: every system as it is then, and
/// the world.
pub struct Stage<S, E, P> {
    pub systems: Seq<S>,
    pub world: WorldView<E, P>,
}

/// Whether `after` is what a run of system `index` can make of `before`: the
/// system takes its step, and every other system stays as it is.
pub open spec fn runs_one<I, E, P, S: System<I, E, P>>(
    index: usize,
    input: &I,
    before: Stage<S, E, P>,
    after: Stage<S, E, P>,
) -> bool {
    &&& index < before.systems.len()
    &&& after.systems.len() == before.systems.len()
    &&& forall|j: int|
        0 <= j < before.systems.len() && j != index ==> after.systems[j] == before.systems[j]
    &&& before.systems[index as int].step(
        input,
        before.world,
        &after.systems[index as int],
        after.world,
    )
}

/// Whether the stage behind position `position` follows from the stage
/// before it by a run of the system that stands at that position.
pub open spec fn runs_at<I, E, P, S: System<I, E, P>>(
    order: Seq<usize>,
    input: &I,
    stages: Seq<Stage<S, E, P>>,
    position: int,
) -> bool {
    runs_one(order[position], input, stages[position], stages[position + 1])
}

/// Whether `stages` are the stages of a tick's running phases: one before
/// the first run and one behind every run, the systems running once each in
/// the order that `order` gives.
pub open spec fn is_run<I, E, P, S: System<I, E, P>>(
    order: Seq<usize>,
    input: &I,
    stages: Seq<Stage<S, E, P>>,
) -> bool {
    &&& stages.len() == order.len() + 1
    &&& forall|position: int|
        0 <= position < order.len() ==> #[trigger] runs_at(order, input, stages, position)
}

/// Where a schedule stands within a tick.
///
/// A tick goes from `Idle` through one running phase per system, in the
/// resolved order, to the tick's one sync point, and from there by way of
/// `TickComplete` back to `Idle`.
#[derive(Clone, Copy, Debug, PartialEq, Eq, Structural)]
pub enum TickState {
    /// Between two ticks.
    Idle,
    /// The system at this position of the order runs.
    RunningPhase(usize),
    /// The recorded commands are applied and the event channels move on.
    Syncing,
    /// The tick's work is done.
    TickComplete,
}

impl TickState {
    /// The state that follows this one in a schedule of `systems` systems.
    pub open spec fn successor(self, systems: nat) -> TickState {
        match self {
            TickState::Idle => if systems > 0 {
                TickState::RunningPhase(0)
            } else {
                TickState::Syncing
            },
            TickState::RunningPhase(position) => if position + 1 < systems {
                TickState::RunningPhase((position + 1) as usize)
            } else {
                TickState::Syncing
            },
            TickState::Syncing => TickState::TickComplete,
            TickState::TickComplete => TickState::Idle,
        }
    }

    /// How many steps lie between this state and the end of the tick.
    pub open spec fn steps_left(self, systems: nat) -> nat {
        match self {
            TickState::Idle => systems + 3,
            TickState::RunningPhase(position) => if position < systems {
                (systems - position + 2) as nat
            } else {
                3
            },
            TickState::Syncing => 2,
            TickState::TickComplete => 1,
        }
    }

    /// The state that follows this one in a schedule of `systems` systems.
    pub fn next(self, systems: usize) -> (state: TickState)
        ensures
            state == self.successor(systems as nat),
            self != TickState::TickComplete ==> state.steps_left(systems as nat) < self.steps_left(
                systems as nat,
            ),
    {
        match self {
            TickState::Idle => if systems > 0 {
                TickState::RunningPhase(0)
            } else {
                TickState::Syncing
            },
            TickState::RunningPhase(position) => if position < systems && position + 1 < systems {
                TickState::RunningPhase(position + 1)
            } else {
                TickState::Syncing
            },
            TickState::Syncing => TickState::TickComplete,
            TickState::TickComplete => TickState::Idle,
        }
    }
}

/// The registered names and "runs after" declarations, as mathematics.
pub struct Constraints {
    /// The name of each system, in the order of registration.
    pub names: Seq<Seq<char>>,
    /// For each system, the names of the systems it runs after.
    pub after: Seq<Seq<Seq<char>>>,
}

impl Constraints {
    /// Number of registered systems.
    pub open spec fn count(self) -> nat {
        self.names.len()
    }

    /// Whether system `b` is declared to run after system `a`. A name that no
    /// system has constrains nothing; a name that several systems share
    /// stands for all of them.
    pub open spec fn runs_after(self, b: int, a: int) -> bool {
        &&& 0 <= a < self.names.len()
        &&& 0 <= b < self.names.len()
        &&& self.after[b].contains(self.names[a])
    }

    /// Whether system `i` can come next when the systems in `placed` have
    /// been given their positions: it has none yet and everything it runs
    /// after has one.
    pub open spec fn ready(self, i: int, placed: Seq<usize>) -> bool {
        &&& 0 <= i < self.names.len()
        &&& !placed.contains(i as usize)
        &&& forall|a: int| self.runs_after(i, a) ==> placed.contains(a as usize)
    }

    /// Whether `order` lists every system once and lists no system before
    /// one that it is declared to run after.
    pub open spec fn is_order(self, order: Seq<usize>) -> bool {
        &&& order.len() == self.names.len()
        &&& forall|i: usize| i < self.names.len() ==> order.contains(i)
        &&& forall|p: int| 0 <= p < order.len() ==> (#[trigger] order[p]) < self.names.len()
        &&& forall|p: int, q: int| 0 <= p < q < order.len() ==> order[p] != order[q]
        &&& forall|p: int, q: int|
            0 <= p < order.len() && 0 <= q < order.len() && self.runs_after(
                order[q] as int,
                order[p] as int,
            ) ==> p < q
    }

    /// Whether the constraints can be honoured at all: they form no cycle.
    pub open spec fn schedulable(self) -> bool {
        exists|order: Seq<usize>| self.is_order(order)
    }

    /// Whether `order` is the one order that a schedule resolves: at every
    /// position stands the earliest registered system that is ready there.
    pub open spec fn is_resolved_order(self, order: Seq<usize>) -> bool {
        &&& self.is_order(order)
        &&& forall|p: int, j: int|
            0 <= p < order.len() && 0 <= j < order[p] ==> !self.ready(j, order.take(p))
    }
}

/// Number of `true` entries.
spec fn count_true(flags: Seq<bool>) -> nat
    decreases flags.len(),
{
    if flags.len() == 0 {
        0
    } else {
        count_true(flags.drop_last()) + if flags.last() {
            1nat
        } else {
            0nat
        }
    }
}

proof fn lemma_count_true_bound(flags: Seq<bool>)
    ensures
        count_true(flags) <= flags.len(),
        count_true(flags) == flags.len() ==> forall|i: int| 0 <= i < flags.len() ==> flags[i],
        count_true(flags) < flags.len() ==> exists|i: int| 0 <= i < flags.len() && !flags[i],
    decreases flags.len(),
{
    if flags.len() > 0 {
        lemma_count_true_bound(flags.drop_last());
        if count_true(flags) == flags.len() {
            assert forall|i: int| 0 <= i < flags.len() implies flags[i] by {
                if i < flags.len() - 1 {
                    assert(flags.drop_last()[i] == flags[i]);
                }
            }
        }
        if count_true(flags) < flags.len() {
            if flags.last() {
                let i = choose|i: int| 0 <= i < flags.drop_last().len() && !flags.drop_last()[i];
                assert(!flags[i]);
            } else {
                assert(!flags[flags.len() - 1]);
            }
        }
    }
}

proof fn lemma_count_true_set(flags: Seq<bool>, i: int)
    requires
        0 <= i < flags.len(),
        !flags[i],
    ensures
        count_true(flags.update(i, true)) == count_true(flags) + 1,
    decreases flags.len(),
{
    let updated = flags.update(i, true);
    if i == flags.len() - 1 {
        assert(updated.drop_last() =~= flags.drop_last());
    } else {
        lemma_count_true_set(flags.drop_last(), i);
        assert(updated.drop_last() =~= flags.drop_last().update(i, true));
    }
}

/// When every system without a position runs after another system without
/// one, each position of a valid order up to `upto` holds a system that has a
/// position already.
proof fn lemma_order_prefix_placed(
    constraints: Constraints,
    placed: Seq<bool>,
    order: Seq<usize>,
    upto: int,
)
    requires
        constraints.is_order(order),
        constraints.names.len() <= usize::MAX,
        placed.len() == constraints.names.len(),
        0 <= upto <= order.len(),
        forall|j: int|
            0 <= j < placed.len() && !placed[j] ==> exists|a: int|
                constraints.runs_after(j, a) && !placed[a],
    ensures
        forall|q: int| 0 <= q < upto ==> placed[order[q] as int],
    decreases upto,
{
    if upto > 0 {
        lemma_order_prefix_placed(constraints, placed, order, upto - 1);
        let j = order[upto - 1] as int;
        if !placed[j] {
            let a = choose|a: int| constraints.runs_after(j, a) && !placed[a];
            assert(order.contains(a as usize));
            let q = choose|q: int| 0 <= q < order.len() && order[q] == a as usize;
            assert(constraints.runs_after(order[upto - 1] as int, order[q] as int));
            assert(q < upto - 1);
            assert(placed[order[q] as int]);
        }
    }
}

/// Collects systems and their constraints before the first tick.
pub struct ScheduleBuilder<S> {
    names: Vec<String>,
    after: Vec<Vec<String>>,
    systems: Vec<S>,
}

impl<S> ScheduleBuilder<S> {
    /// The names and declarations registered so far.
    pub closed spec fn constraints(&self) -> Constraints {
        Constraints {
            names: Seq::new(self.names@.len(), |i: int| self.names@[i]@),
            after: Seq::new(
                self.after@.len(),
                |i: int| Seq::new(self.after@[i]@.len(), |j: int| self.after@[i]@[j]@),
            ),
        }
    }

    /// The systems registered so far, in the order of registration.
    pub closed spec fn systems(&self) -> Seq<S> {
        self.systems@
    }

    pub closed spec fn wf(&self) -> bool {
        &&& self.names@.len() == self.after@.len()
        &&& self.names@.len() == self.systems@.len()
    }

    /// A builder without systems.
    pub fn new() -> (builder: Self)
        ensures
            builder.wf(),
            builder.constraints().names == Seq::<Seq<char>>::empty(),
            builder.constraints().after == Seq::<Seq<Seq<char>>>::empty(),
            builder.systems() == Seq::<S>::empty(),
    {
        let builder = ScheduleBuilder { names: Vec::new(), after: Vec::new(), systems: Vec::new() };
        assert(builder.constraints().names =~= Seq::<Seq<char>>::empty());
        assert(builder.constraints().after =~= Seq::<Seq<Seq<char>>>::empty());
        builder
    }

    /// Number of systems registered so far.
    pub fn len(&self) -> (n: usize)
        requires
            self.wf(),
        ensures
            n == self.constraints().count(),
            n == self.systems().len(),
    {
        self.names.len()
    }

    /// Registers `system` under `name`, to run after every system that has
    /// one of the names in `after`, whether it is registered yet or not.
    /// Returns the system's number: its place in the order of registration.
    pub fn register_system(&mut self, name: String, after: Vec<String>, system: S) -> (index:
        usize)
        requires
            old(self).wf(),
        ensures
            final(self).wf(),
            index == old(self).constraints().count(),
            index == old(self).systems().len(),
            final(self).constraints().names == old(self).constraints().names.push(name@),
            final(self).constraints().after == old(self).constraints().after.push(
                Seq::new(after@.len(), |j: int| after@[j]@),
            ),
            final(self).systems() == old(self).systems().push(system),
    {
        let index: usize = self.names.len();
        self.names.push(name);
        self.after.push(after);
        self.systems.push(system);
        proof {
            assert(self.constraints().names =~= old(self).constraints().names.push(name@));
            assert forall|i: int| 0 <= i < self.after@.len() implies #[trigger] self.constraints().after[i]
                == old(self).constraints().after.push(
                Seq::new(after@.len(), |j: int| after@[j]@),
            )[i] by {
                if i < index {
                    assert(self.after@[i] == old(self).after@[i]);
                }
            }
            assert(self.constraints().after =~= old(self).constraints().after.push(
                Seq::new(after@.len(), |j: int| after@[j]@),
            ));
        }
        index
    }

    /// Whether system `b` is declared to run after system `a`.
    fn declared_after(&self, b: usize, a: usize) -> (declared: bool)
        requires
            self.wf(),
            a < self.names@.len(),
            b < self.names@.len(),
        ensures
            declared == self.constraints().runs_after(b as int, a as int),
    {
        let list = &self.after[b];
        let ghost names = self.constraints().after[b as int];
        let mut j: usize = 0;
        while j < list.len()
            invariant
                j <= list@.len(),
                a < self.names@.len(),
                b < self.names@.len(),
                names == self.constraints().after[b as int],
                names.len() == list@.len(),
                forall|k: int| 0 <= k < list@.len() ==> names[k] == list@[k]@,
                forall|k: int| 0 <= k < j ==> names[k] != self.names@[a as int]@,
            decreases list.len() - j,
        {
            if list[j] == self.names[a] {
                assert(names[j as int] == self.constraints().names[a as int]);
                assert(names.contains(self.constraints().names[a as int]));
                return true;
            }
            j = j + 1;
        }
        false
    }

    /// Whether every system that `i` runs after has a position.
    fn predecessors_placed(&self, i: usize, placed: &Vec<bool>) -> (all: bool)
        requires
            self.wf(),
            i < self.names@.len(),
            placed@.len() == self.names@.len(),
        ensures
            all == (forall|a: int| self.constraints().runs_after(i as int, a) ==> placed@[a]),
    {
        let mut a: usize = 0;
        while a < self.names.len()
            invariant
                self.wf(),
                i < self.names@.len(),
                placed@.len() == self.names@.len(),
                a <= self.names@.len(),
                forall|k: int| 0 <= k < a && self.constraints().runs_after(i as int, k) ==> placed@[k],
            decreases self.names.len() - a,
        {
            if self.declared_after(i, a) && !placed[a] {
                return false;
            }
            a = a + 1;
        }
        true
    }

    /// Closes the registration and resolves the order of the systems.
    ///
    /// The order lists no system before one that it runs after. Among the
    /// systems that could come next, the one registered first is taken, so
    /// the same registrations always give the same order. When the
    /// constraints form a cycle there is no order and no schedule.
    pub fn close(self) -> (outcome: Result<Schedule<S>, ConfigurationError>)
        requires
            self.wf(),
        ensures
            match outcome {
                Ok(schedule) => {
                    &&& schedule.wf()
                    &&& schedule.constraints() == self.constraints()
                    &&& schedule.systems() == self.systems()
                    &&& self.constraints().is_resolved_order(schedule.order())
                },
                Err(e) => e == ConfigurationError::CyclicOrder && !self.constraints().schedulable(),
            },
    {
        let n: usize = self.names.len();
        let ghost constraints = self.constraints();
        let mut placed: Vec<bool> = Vec::new();
        while placed.len() < n
            invariant
                placed@.len() <= n,
                forall|i: int| 0 <= i < placed@.len() ==> !placed@[i],
                count_true(placed@) == 0,
            decreases n - placed.len(),
        {
            let ghost before = placed@;
            placed.push(false);
            assert(placed@.drop_last() =~= before);
        }
        let mut order: Vec<usize> = Vec::new();
        while order.len() < n
            invariant
                self.wf(),
                n == self.names@.len(),
                constraints == self.constraints(),
                placed@.len() == n,
                order@.len() <= n,
                count_true(placed@) == order@.len(),
                forall|i: int| 0 <= i < n ==> (placed@[i] <==> order@.contains(i as usize)),
                forall|p: int| 0 <= p < order@.len() ==> (#[trigger] order@[p]) < n,
                forall|p: int, q: int| 0 <= p < q < order@.len() ==> order@[p] != order@[q],
                forall|q: int, a: int|
                    0 <= q < order@.len() && constraints.runs_after(order@[q] as int, a)
                        ==> order@.take(q).contains(a as usize),
                forall|p: int, j: int|
                    0 <= p < order@.len() && 0 <= j < order@[p] ==> !constraints.ready(
                        j,
                        order@.take(p),
                    ),
            decreases n - order.len(),
        {
            let mut i: usize = 0;
            let mut found: bool = false;
            while i < n
                invariant_except_break
                    !found,
                invariant
                    self.wf(),
                    n == self.names@.len(),
                    constraints == self.constraints(),
                    placed@.len() == n,
                    i <= n,
                    forall|k: int| 0 <= k < n ==> (placed@[k] <==> order@.contains(k as usize)),
                    forall|j: int| 0 <= j < i ==> !constraints.ready(j, order@),
                ensures
                    found ==> i < n && constraints.ready(i as int, order@),
                    !found ==> i == n,
                decreases n - i,
            {
                if !placed[i] && self.predecessors_placed(i, &placed) {
                    found = true;
                    proof {
                        assert(!placed@[i as int]);
                        assert(!order@.contains(i));
                        assert forall|a: int| constraints.runs_after(i as int, a) implies order@.contains(
                            a as usize,
                        ) by {
                            assert(placed@[a]);
                        }
                    }
                    break ;
                }
                proof {
                    if !placed@[i as int] {
                        let a = choose|a: int|
                            constraints.runs_after(i as int, a) && !placed@[a];
                        assert(!order@.contains(a as usize));
                    }
                }
                i = i + 1;
            }
            if !found {
                proof {
                    lemma_count_true_bound(placed@);
                    let free = choose|f: int| 0 <= f < placed@.len() && !placed@[f];
                    assert forall|j: int| 0 <= j < placed@.len() && !placed@[j] implies exists|
                        a: int,
                    |
                        constraints.runs_after(j, a) && !placed@[a] by {
                        assert(!constraints.ready(j, order@));
                        let a = choose|a: int|
                            constraints.runs_after(j, a) && !order@.contains(a as usize);
                        assert(constraints.runs_after(j, a) && !placed@[a]);
                    }
                    assert forall|w: Seq<usize>| !constraints.is_order(w) by {
                        if constraints.is_order(w) {
                            lemma_order_prefix_placed(constraints, placed@, w, w.len() as int);
                            assert(w.contains(free as usize));
                            let p = choose|p: int| 0 <= p < w.len() && w[p] == free as usize;
                            assert(placed@[w[p] as int]);
                        }
                    }
                }
                return Err(ConfigurationError::CyclicOrder);
            }
            let ghost order_before = order@;
            let ghost placed_before = placed@;
            placed[i] = true;
            order.push(i);
            proof {
                lemma_count_true_set(placed_before, i as int);
                assert(order@.take(order_before.len() as int) =~= order_before);
                assert forall|k: int| 0 <= k < n implies (placed@[k] <==> order@.contains(
                    k as usize,
                )) by {
                    if k == i {
                        assert(order@[order_before.len() as int] == i);
                    } else if placed_before[k] {
                        let w = choose|w: int| 0 <= w < order_before.len() && order_before[w] == k as usize;
                        assert(order@[w] == k as usize);
                    } else if order@.contains(k as usize) {
                        let w = choose|w: int| 0 <= w < order@.len() && order@[w] == k as usize;
                        assert(order_before[w] == k as usize);
                    }
                }
                assert forall|q: int, a: int|
                    0 <= q < order@.len() && constraints.runs_after(
                        order@[q] as int,
                        a,
                    ) implies order@.take(q).contains(a as usize) by {
                    if q < order_before.len() {
                        assert(order@.take(q) =~= order_before.take(q));
                        assert(order@[q] == order_before[q]);
                    }
                }
                assert forall|p: int, j: int|
                    0 <= p < order@.len() && 0 <= j < order@[p] implies !constraints.ready(
                    j,
                    order@.take(p),
                ) by {
                    if p < order_before.len() {
                        assert(order@.take(p) =~= order_before.take(p));
                        assert(order@[p] == order_before[p]);
                    }
                }
            }
        }
        proof {
            lemma_count_true_bound(placed@);
            assert forall|p: int, q: int|
                0 <= p < order@.len() && 0 <= q < order@.len() && constraints.runs_after(
                    order@[q] as int,
                    order@[p] as int,
                ) implies p < q by {
                assert(order@.take(q).contains(order@[p]));
                let w = choose|w: int| 0 <= w < q && order@.take(q)[w] == order@[p];
                assert(order@[w] == order@[p]);
                if w < p {
                } else if p < w {
                }
            }
        }
        let schedule = Schedule {
            names: self.names,
            after: self.after,
            systems: self.systems,
            order,
        };
        proof {
            assert(schedule.constraints().names =~= constraints.names);
            assert(schedule.constraints().after =~= constraints.after);
            assert forall|i: usize| i < constraints.names.len() implies schedule.order@.contains(
                i,
            ) by {
                assert(placed@[i as int]);
            }
            assert(constraints.is_order(schedule.order@));
        }
        Ok(schedule)
    }
}

/// The systems of a program in their resolved order.
pub struct Schedule<S> {
    names: Vec<String>,
    after: Vec<Vec<String>>,
    systems: Vec<S>,
    order: Vec<usize>,
}

impl<S> Schedule<S> {
    /// The names and declarations that the order was resolved from.
    pub closed spec fn constraints(&self) -> Constraints {
        Constraints {
            names: Seq::new(self.names@.len(), |i: int| self.names@[i]@),
            after: Seq::new(
                self.after@.len(),
                |i: int| Seq::new(self.after@[i]@.len(), |j: int| self.after@[i]@[j]@),
            ),
        }
    }

    /// The systems, in the order of registration.
    pub closed spec fn systems(&self) -> Seq<S> {
        self.systems@
    }

    /// The numbers of the systems in the order in which every tick runs them.
    pub closed spec fn order(&self) -> Seq<usize> {
        self.order@
    }

    /// The order is the resolved order of the registered constraints.
    pub closed spec fn wf(&self) -> bool {
        &&& self.names@.len() == self.systems@.len()
        &&& self.constraints().is_resolved_order(self.order@)
    }

    /// Number of systems.
    pub fn len(&self) -> (n: usize)
        ensures
            n == self.systems().len(),
    {
        self.systems.len()
    }

    /// The number of the system that runs at `position` of every tick.
    pub fn system_at(&self, position: usize) -> (index: Option<usize>)
        ensures
            index == if position < self.order().len() {
                Some(self.order()[position as int])
            } else {
                None
            },
    {
        if position < self.order.len() {
            Some(self.order[position])
        } else {
            None
        }
    }

    /// The name under which system `index` was registered.
    pub fn name_of(&self, index: usize) -> (name: Option<&String>)
        ensures
            match name {
                Some(n) => index < self.constraints().count() && n@
                    == self.constraints().names[index as int],
                None => index >= self.constraints().count(),
            },
    {
        if index < self.names.len() {
            Some(&self.names[index])
        } else {
            None
        }
    }

    /// Runs one tick: every system once, in the resolved order; then the sync
    /// point, where the commands that the systems recorded are applied in the
    /// order recorded; then every event channel moves on by one tick. Returns
    /// the diagnostics of the commands that the sync point dropped.
    ///
    /// The world after the tick is the synced and advanced form of the world
    /// behind the last run. What the runs made of the world is as exact as
    /// the systems' own account of their steps; whatever they did, they only
    /// added commands and events to the world before the tick.
    pub fn tick<I, E, P>(&mut self, input: &I, world: &mut World<E, P>) -> (dropped: Vec<
        Diagnostic,
    >) where
        S: System<I, E, P>,

        requires
            old(self).wf(),
            old(world).wf(),
            old(world)@.ticks < u64::MAX,
        ensures
            final(self).wf(),
            final(self).constraints() == old(self).constraints(),
            final(self).order() == old(self).order(),
            final(world).wf(),
            final(world)@.ticks == old(world)@.ticks + 1,
            final(world)@.commands == Seq::<crate::command::Command<P>>::empty(),
            exists|stages: Seq<Stage<S, E, P>>|
                {
                    &&& #[trigger] is_run(old(self).order(), input, stages)
                    &&& stages[0] == (Stage { systems: old(self).systems(), world: old(world)@ })
                    &&& stages.last().systems == final(self).systems()
                    &&& stages.last().world.extends(old(world)@)
                    &&& final(world)@ == stages.last().world.synced().advanced()
                    &&& dropped@ == stages.last().world.committed.diagnostics(
                        stages.last().world.commands,
                    )
                },
    {
        let n: usize = self.order.len();
        proof {
            old(world)@.lemma_extends_self();
        }
        let ghost order = self.order@;
        let ghost mut stages: Seq<Stage<S, E, P>> = seq![
            Stage { systems: self.systems@, world: world@ },
        ];
        let mut dropped: Vec<Diagnostic> = Vec::new();
        let mut state = TickState::Idle.next(n);
        while state != TickState::TickComplete
            invariant
                n == self.order@.len(),
                order == self.order@,
                self.wf(),
                self.names == old(self).names,
                self.after == old(self).after,
                self.order == old(self).order,
                world.wf(),
                state != TickState::Idle,
                state matches TickState::RunningPhase(position) ==> position < n && stages.len()
                    == position + 1,
                state == TickState::Syncing || state == TickState::TickComplete ==> stages.len()
                    == n + 1,
                stages.len() >= 1,
                stages[0] == (Stage { systems: old(self).systems@, world: old(world)@ }),
                stages.last().systems == self.systems@,
                stages.last().world.extends(old(world)@),
                forall|position: int|
                    0 <= position < stages.len() - 1 ==> #[trigger] runs_at(
                        order,
                        input,
                        stages,
                        position,
                    ),
                state != TickState::TickComplete ==> {
                    &&& world@ == stages.last().world
                    &&& world@.ticks < u64::MAX
                },
                state == TickState::TickComplete ==> {
                    &&& world@ == stages.last().world.synced().advanced()
                    &&& dropped@ == stages.last().world.committed.diagnostics(
                        stages.last().world.commands,
                    )
                },
            decreases state.steps_left(n as nat),
        {
            match state {
                TickState::RunningPhase(position) => {
                    let index: usize = self.order[position];
                    let ghost before = world@;
                    let ghost earlier = stages;
                    proof {
                        assert(self.constraints().is_order(self.order@));
                        assert(index < self.systems@.len());
                    }
                    self.systems[index].run(input, world);
                    proof {
                        world@.lemma_extends_trans(before, old(world)@);
                        stages = earlier.push(Stage { systems: self.systems@, world: world@ });
                        assert(runs_at(order, input, stages, position as int));
                        assert forall|at: int| 0 <= at < stages.len() - 1 implies #[trigger] runs_at(
                            order,
                            input,
                            stages,
                            at,
                        ) by {
                            if at < position {
                                assert(runs_at(order, input, earlier, at));
                                assert(stages[at] == earlier[at]);
                                assert(stages[at + 1] == earlier[at + 1]);
                            }
                        }
                    }
                },
                TickState::Syncing => {
                    dropped = world.sync();
                    world.advance_events();
                },
                _ => {},
            }
            state = state.next(n);
        }
        proof {
            assert(is_run(old(self).order(), input, stages));
        }
        dropped
    }
}

} // verus!
