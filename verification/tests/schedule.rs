use std::cell::RefCell;
use std::rc::Rc;

use aspect_ecs::command::Command;
use aspect_ecs::entity::EntityId;
use aspect_ecs::error::ConfigurationError;
use aspect_ecs::event::Cursor;
use aspect_ecs::schedule::{Schedule, ScheduleBuilder, System, TickState};
use aspect_ecs::world::World;

/// A system that notes its name when it runs.
struct Noting {
    name: &'static str,
    log: Rc<RefCell<Vec<&'static str>>>,
}

impl System<(), u8, u8> for Noting {
    fn run(&mut self, _input: &(), _world: &mut World<u8, u8>) {
        self.log.borrow_mut().push(self.name);
    }
}

fn names(list: &[&str]) -> Vec<String> {
    list.iter().map(|s| s.to_string()).collect()
}

fn build(
    systems: &[(&'static str, &[&str])],
) -> (Result<Schedule<Noting>, ConfigurationError>, Rc<RefCell<Vec<&'static str>>>) {
    let log = Rc::new(RefCell::new(Vec::new()));
    let mut builder = ScheduleBuilder::new();
    for (position, (name, after)) in systems.iter().enumerate() {
        let index = builder.register_system(
            name.to_string(),
            names(after),
            Noting { name, log: log.clone() },
        );
        assert_eq!(index, position);
    }
    assert_eq!(builder.len(), systems.len());
    (builder.close(), log)
}

fn order_of(schedule: &Schedule<Noting>) -> Vec<usize> {
    (0..schedule.len()).map(|p| schedule.system_at(p).unwrap()).collect()
}

#[test]
fn systems_without_constraints_run_in_the_order_registered() {
    let (schedule, log) = build(&[("c", &[]), ("a", &[]), ("b", &[])]);
    let mut schedule = schedule.unwrap();
    assert_eq!(order_of(&schedule), vec![0, 1, 2]);
    let mut world = World::new();
    schedule.tick(&(), &mut world);
    assert_eq!(*log.borrow(), vec!["c", "a", "b"]);
}

#[test]
fn a_system_runs_after_the_systems_it_names() {
    let (schedule, log) = build(&[("last", &["first", "middle"]), ("middle", &["first"]), ("first", &[])]);
    let mut schedule = schedule.unwrap();
    assert_eq!(order_of(&schedule), vec![2, 1, 0]);
    assert_eq!(schedule.system_at(3), None);
    assert_eq!(schedule.name_of(0).map(|s| s.as_str()), Some("last"));
    assert_eq!(schedule.name_of(3), None);
    let mut world = World::new();
    schedule.tick(&(), &mut world);
    assert_eq!(*log.borrow(), vec!["first", "middle", "last"]);
}

#[test]
fn the_order_is_the_same_every_tick() {
    let (schedule, log) = build(&[("d", &["b"]), ("a", &[]), ("b", &[]), ("c", &["d"])]);
    let mut schedule = schedule.unwrap();
    assert_eq!(order_of(&schedule), vec![1, 2, 0, 3]);
    let mut world = World::new();
    for _ in 0..3 {
        log.borrow_mut().clear();
        schedule.tick(&(), &mut world);
        assert_eq!(*log.borrow(), vec!["a", "b", "d", "c"]);
        assert_eq!(order_of(&schedule), vec![1, 2, 0, 3]);
    }
    assert_eq!(world.ticks(), 3);
}

#[test]
fn the_earliest_registered_ready_system_comes_next() {
    // once "gate" has run, "x" (registered before "y") goes first
    let (schedule, _) = build(&[("x", &["gate"]), ("y", &[]), ("gate", &[])]);
    assert_eq!(order_of(&schedule.unwrap()), vec![1, 2, 0]);
}

#[test]
fn a_cycle_is_a_configuration_error() {
    let (schedule, _) = build(&[("a", &["b"]), ("b", &["a"])]);
    assert_eq!(schedule.err(), Some(ConfigurationError::CyclicOrder));
    let (schedule, _) = build(&[("free", &[]), ("a", &["c"]), ("b", &["a"]), ("c", &["b"])]);
    assert_eq!(schedule.err(), Some(ConfigurationError::CyclicOrder));
}

#[test]
fn a_system_cannot_run_after_itself() {
    let (schedule, _) = build(&[("a", &["a"])]);
    assert_eq!(schedule.err(), Some(ConfigurationError::CyclicOrder));
}

#[test]
fn a_name_that_nobody_has_constrains_nothing() {
    let (schedule, _) = build(&[("a", &["nobody"]), ("b", &[])]);
    assert_eq!(order_of(&schedule.unwrap()), vec![0, 1]);
}

#[test]
fn a_shared_name_stands_for_all_its_systems() {
    let (schedule, log) = build(&[("reader", &["writer"]), ("writer", &[]), ("writer", &[])]);
    let mut schedule = schedule.unwrap();
    assert_eq!(order_of(&schedule), vec![1, 2, 0]);
    let mut world = World::new();
    schedule.tick(&(), &mut world);
    assert_eq!(*log.borrow(), vec!["writer", "writer", "reader"]);
}

#[test]
fn an_empty_schedule_still_ticks() {
    let (schedule, _) = build(&[]);
    let mut schedule = schedule.unwrap();
    assert_eq!(schedule.len(), 0);
    let mut world = World::new();
    assert_eq!(schedule.tick(&(), &mut world), Vec::new());
    assert_eq!(world.ticks(), 1);
}

#[test]
fn tick_state_machine() {
    assert_eq!(TickState::Idle.next(2), TickState::RunningPhase(0));
    assert_eq!(TickState::RunningPhase(0).next(2), TickState::RunningPhase(1));
    assert_eq!(TickState::RunningPhase(1).next(2), TickState::Syncing);
    assert_eq!(TickState::Syncing.next(2), TickState::TickComplete);
    assert_eq!(TickState::TickComplete.next(2), TickState::Idle);
    // without systems a tick goes straight to its sync point
    assert_eq!(TickState::Idle.next(0), TickState::Syncing);
    // a position beyond the order ends the running
    assert_eq!(TickState::RunningPhase(9).next(2), TickState::Syncing);
    assert_eq!(TickState::RunningPhase(usize::MAX).next(usize::MAX), TickState::Syncing);
}

const PING: usize = 0;
const MARK: usize = 0;

/// What the second system of the next test saw when it ran.
#[derive(Default)]
struct Seen {
    events: Vec<Vec<u32>>,
    marked: Vec<bool>,
    alive: Vec<bool>,
}

enum Pair {
    /// Spawns an entity in the first tick, sends an event and attaches a
    /// component to the entity it spawned.
    Writer { entity: Option<EntityId> },
    /// Notes what it can see.
    Reader { cursor: Cursor, writer_entity: Rc<RefCell<Option<EntityId>>>, seen: Rc<RefCell<Seen>> },
}

struct Shared {
    entity: Rc<RefCell<Option<EntityId>>>,
}

impl System<Shared, u32, u32> for Pair {
    fn run(&mut self, input: &Shared, world: &mut World<u32, u32>) {
        match self {
            Pair::Writer { entity } => {
                let e = match *entity {
                    Some(e) => e,
                    None => {
                        let e = world.spawn();
                        *entity = Some(e);
                        *input.entity.borrow_mut() = Some(e);
                        e
                    }
                };
                world.send(PING, world.ticks() as u32 + 100).unwrap();
                world.record(Command::Attach(e, MARK, 7));
            }
            Pair::Reader { cursor, writer_entity, seen } => {
                let e = writer_entity.borrow().unwrap();
                let events = world.events(PING).unwrap().read(cursor).to_vec();
                let mut seen = seen.borrow_mut();
                seen.events.push(events);
                seen.marked.push(world.has(e, MARK));
                seen.alive.push(world.is_live(e));
            }
        }
    }
}

#[test]
fn a_system_that_runs_after_another_sees_its_events_but_not_its_components() {
    let entity = Rc::new(RefCell::new(None));
    let seen = Rc::new(RefCell::new(Seen::default()));
    let mut world: World<u32, u32> = World::new();
    assert_eq!(world.declare_event_kind("ping".to_string(), None), Ok(PING));
    assert_eq!(world.declare_component_kind("mark".to_string()), Ok(MARK));
    let mut builder = ScheduleBuilder::new();
    // registered first, yet it runs second
    builder.register_system(
        "reader".to_string(),
        names(&["writer"]),
        Pair::Reader { cursor: Cursor::start(), writer_entity: entity.clone(), seen: seen.clone() },
    );
    builder.register_system("writer".to_string(), Vec::new(), Pair::Writer { entity: None });
    let mut schedule = builder.close().unwrap();
    let input = Shared { entity: entity.clone() };

    schedule.tick(&input, &mut world);
    {
        let seen = seen.borrow();
        // the event of this very tick
        assert_eq!(seen.events, vec![vec![100]]);
        // neither the entity nor its component: both wait for the sync point
        assert_eq!(seen.alive, vec![false]);
        assert_eq!(seen.marked, vec![false]);
    }
    // after the sync point they are there
    let e = entity.borrow().unwrap();
    assert!(world.is_live(e));
    assert_eq!(world.store().get(e, MARK), Ok(&7));

    schedule.tick(&input, &mut world);
    {
        let seen = seen.borrow();
        // only the new event: the reader has seen the other
        assert_eq!(seen.events, vec![vec![100], vec![101]]);
        // the next tick's queries see what the first tick attached
        assert_eq!(seen.alive, vec![false, true]);
        assert_eq!(seen.marked, vec![false, true]);
    }
}

const CREATE: usize = 0;
const ADD_FIRST: usize = 1;
const ADD_SECOND: usize = 2;
const FIRST: usize = 0;
const SECOND: usize = 1;

#[derive(Clone, Debug, PartialEq)]
enum Note {
    Create,
    AddAspect(EntityId),
}

enum Part {
    /// Answers a "create" event with a spawn and one request to each aspect.
    Creator(Cursor),
    /// Answers the requests on one channel with an attach of one kind.
    Aspect { requests: usize, kind: usize, cursor: Cursor },
}

impl System<(), Note, u32> for Part {
    fn run(&mut self, _input: &(), world: &mut World<Note, u32>) {
        match self {
            Part::Creator(cursor) => {
                let creates = world.events(CREATE).unwrap().read(cursor).len();
                for _ in 0..creates {
                    let e = world.spawn();
                    world.send(ADD_FIRST, Note::AddAspect(e)).unwrap();
                    world.send(ADD_SECOND, Note::AddAspect(e)).unwrap();
                }
            }
            Part::Aspect { requests, kind, cursor } => {
                let mut commands = Vec::new();
                for note in world.events(*requests).unwrap().read(cursor) {
                    if let Note::AddAspect(e) = note {
                        if world.is_live(*e) {
                            commands.push(Command::Attach(*e, *kind, 1));
                        }
                    }
                }
                world.record_all(commands);
            }
        }
    }
}

#[test]
fn creation_takes_one_tick_and_the_aspects_the_next() {
    let mut world: World<Note, u32> = World::new();
    assert_eq!(world.declare_event_kind("create".to_string(), None), Ok(CREATE));
    assert_eq!(world.declare_event_kind("add first".to_string(), None), Ok(ADD_FIRST));
    assert_eq!(world.declare_event_kind("add second".to_string(), None), Ok(ADD_SECOND));
    assert_eq!(world.declare_component_kind("first".to_string()), Ok(FIRST));
    assert_eq!(world.declare_component_kind("second".to_string()), Ok(SECOND));
    let mut builder = ScheduleBuilder::new();
    builder.register_system(
        "first aspect".to_string(),
        Vec::new(),
        Part::Aspect { requests: ADD_FIRST, kind: FIRST, cursor: Cursor::start() },
    );
    builder.register_system(
        "second aspect".to_string(),
        Vec::new(),
        Part::Aspect { requests: ADD_SECOND, kind: SECOND, cursor: Cursor::start() },
    );
    builder.register_system(
        "creator".to_string(),
        names(&["first aspect", "second aspect"]),
        Part::Creator(Cursor::start()),
    );
    let mut schedule = builder.close().unwrap();

    world.send(CREATE, Note::Create).unwrap();

    // tick 1
    assert_eq!(schedule.tick(&(), &mut world), Vec::new());
    let e = EntityId { index: 0, generation: 0 };
    assert!(world.is_live(e));
    assert_eq!(world.entity_count(), 1);
    assert_eq!(world.store().count_for(e), 0);
    let mut reader = Cursor::start();
    assert_eq!(world.events(ADD_FIRST).unwrap().read(&mut reader), &[Note::AddAspect(e)]);
    assert_eq!(world.events(CREATE).unwrap().pending(Cursor::start()), 1);

    // tick 2
    assert_eq!(schedule.tick(&(), &mut world), Vec::new());
    assert_eq!(world.store().count_for(e), 2);
    assert!(world.has(e, FIRST));
    assert!(world.has(e, SECOND));
    assert_eq!(world.entity_count(), 1);
    // a reader that starts at tick 3 finds no "create" event
    assert_eq!(world.ticks(), 2);
    assert_eq!(world.events(CREATE).unwrap().pending(Cursor::start()), 0);

    // tick 3: nothing more happens
    assert_eq!(schedule.tick(&(), &mut world), Vec::new());
    assert_eq!(world.store().count_for(e), 2);
    assert_eq!(world.events(ADD_FIRST).unwrap().pending(Cursor::start()), 0);
}
