use aspect_ecs::command::Command;
use aspect_ecs::entity::EntityId;
use aspect_ecs::error::{ConfigurationError, Diagnostic, NotFound};
use aspect_ecs::event::{ChannelOverflow, Cursor};
use aspect_ecs::world::{KindFilter, SendError, World};

fn filter(required: &[usize], forbidden: &[usize]) -> KindFilter {
    KindFilter { required: required.to_vec(), forbidden: forbidden.to_vec() }
}

fn world_with_kinds() -> World<u32, u32> {
    let mut world = World::new();
    assert_eq!(world.declare_component_kind("a".to_string()), Ok(0));
    assert_eq!(world.declare_component_kind("b".to_string()), Ok(1));
    assert_eq!(world.declare_event_kind("e".to_string(), None), Ok(0));
    world
}

#[test]
fn new_world_is_empty() {
    let world: World<u32, u32> = World::new();
    assert_eq!(world.ticks(), 0);
    assert_eq!(world.entity_count(), 0);
    assert_eq!(world.pending_commands(), 0);
    assert!(world.events(0).is_none());
    assert!(world.can_tick());
    assert_eq!(world.registry().slot_count(), 0);
    assert_eq!(world.store().kind_count(), 0);
}

#[test]
fn duplicate_kinds_are_configuration_errors() {
    let mut world = world_with_kinds();
    assert_eq!(world.declare_component_kind("a".to_string()), Err(ConfigurationError::DuplicateKind));
    assert_eq!(world.declare_event_kind("e".to_string(), Some(3)), Err(ConfigurationError::DuplicateKind));
    // component kinds and event kinds are told apart
    assert_eq!(world.declare_event_kind("a".to_string(), None), Ok(1));
    assert_eq!(world.declare_component_kind("e".to_string()), Ok(2));
    assert_eq!(world.component_kind(&"b".to_string()), Some(1));
    assert_eq!(world.component_kind(&"z".to_string()), None);
    assert_eq!(world.event_kind(&"a".to_string()), Some(1));
    assert_eq!(world.event_kind(&"z".to_string()), None);
}

#[test]
fn structural_changes_wait_for_the_sync_point() {
    let mut world = world_with_kinds();
    let e = world.spawn();
    world.record(Command::Attach(e, 0, 5));
    assert!(!world.is_live(e));
    assert!(!world.has(e, 0));
    assert_eq!(world.entity_count(), 0);
    assert!(world.query(&filter(&[], &[])).is_empty());
    assert_eq!(world.pending_commands(), 2);
    assert_eq!(world.sync(), Vec::new());
    assert_eq!(world.pending_commands(), 0);
    assert!(world.is_live(e));
    assert_eq!(world.store().get(e, 0), Ok(&5));
    assert_eq!(world.query(&filter(&[], &[])), vec![e]);
    world.record(Command::Detach(e, 0));
    assert!(world.has(e, 0));
    assert_eq!(world.sync(), Vec::new());
    assert_eq!(world.store().get(e, 0), Err(NotFound));
}

#[test]
fn record_all_keeps_the_order() {
    let mut world = world_with_kinds();
    let e = world.spawn();
    world.record_all(vec![
        Command::Attach(e, 0, 1),
        Command::Attach(e, 0, 2),
        Command::Attach(e, 1, 3),
        Command::Detach(e, 1),
    ]);
    assert_eq!(world.pending_commands(), 5);
    assert_eq!(world.sync(), Vec::new());
    assert_eq!(world.store().get(e, 0), Ok(&2));
    assert!(!world.has(e, 1));
    world.record_all(Vec::new());
    assert_eq!(world.pending_commands(), 0);
}

#[test]
fn query_by_required_and_forbidden_kinds() {
    let mut world = world_with_kinds();
    let plain = world.spawn();
    let with_a = world.spawn();
    let with_b = world.spawn();
    let with_both = world.spawn();
    let dead = world.spawn();
    world.record_all(vec![
        Command::Attach(with_a, 0, 1),
        Command::Attach(with_b, 1, 1),
        Command::Attach(with_both, 0, 1),
        Command::Attach(with_both, 1, 1),
        Command::Attach(dead, 0, 1),
        Command::Despawn(dead),
    ]);
    assert_eq!(world.sync(), Vec::new());
    assert_eq!(world.query(&filter(&[], &[])), vec![plain, with_a, with_b, with_both]);
    assert_eq!(world.query(&filter(&[0], &[])), vec![with_a, with_both]);
    assert_eq!(world.query(&filter(&[0, 1], &[])), vec![with_both]);
    assert_eq!(world.query(&filter(&[0], &[1])), vec![with_a]);
    assert_eq!(world.query(&filter(&[], &[0, 1])), vec![plain]);
    assert_eq!(world.query(&filter(&[0], &[0])), Vec::<EntityId>::new());
    assert!(world.matches(&filter(&[1], &[]), with_b));
    assert!(!world.matches(&filter(&[1], &[]), with_a));
    assert!(!world.matches(&filter(&[], &[]), dead));
    // a stale handle does not pass for the slot's tenant
    let stale = EntityId { index: with_a.index, generation: with_a.generation + 1 };
    assert!(!world.matches(&filter(&[], &[]), stale));
}

#[test]
fn query_from_walks_lazily_and_can_start_over() {
    let mut world = world_with_kinds();
    let a = world.spawn();
    let b = world.spawn();
    let c = world.spawn();
    world.record_all(vec![Command::Attach(a, 0, 1), Command::Attach(c, 0, 1)]);
    world.sync();
    let wanted = filter(&[0], &[]);
    assert_eq!(world.query_from(&wanted, 0), Some(a));
    assert_eq!(world.query_from(&wanted, a.index + 1), Some(c));
    assert_eq!(world.query_from(&wanted, c.index + 1), None);
    assert_eq!(world.query_from(&wanted, usize::MAX), None);
    assert_eq!(world.query_from(&wanted, 0), Some(a));
    assert_eq!(world.query_from(&filter(&[], &[0]), 0), Some(b));
}

#[test]
fn send_reports_unknown_kinds_and_overflow() {
    let mut world = world_with_kinds();
    assert_eq!(world.declare_event_kind("small".to_string(), Some(1)), Ok(1));
    assert_eq!(world.send(0, 1), Ok(()));
    assert_eq!(world.send(9, 1), Err(SendError::UnknownKind));
    assert_eq!(world.send(1, 1), Ok(()));
    assert_eq!(world.send(1, 2), Err(SendError::Overflow(ChannelOverflow { capacity: 1 })));
    let mut cursor = Cursor::start();
    assert_eq!(world.events(1).unwrap().read(&mut cursor), &[1]);
    // an unbounded channel always has room
    for i in 0..100 {
        assert_eq!(world.send(0, i), Ok(()));
    }
    assert_eq!(world.events(0).unwrap().len(), 101);
}

#[test]
fn advance_moves_every_channel() {
    let mut world = world_with_kinds();
    assert_eq!(world.declare_event_kind("f".to_string(), None), Ok(1));
    world.send(0, 1).unwrap();
    world.send(1, 2).unwrap();
    world.advance_events();
    assert_eq!(world.ticks(), 1);
    assert_eq!(world.events(0).unwrap().tick(), 1);
    assert_eq!(world.events(1).unwrap().tick(), 1);
    assert_eq!(world.events(0).unwrap().pending(Cursor::start()), 1);
    world.advance_events();
    assert_eq!(world.events(0).unwrap().len(), 0);
    assert_eq!(world.events(1).unwrap().len(), 0);
    // a kind declared later joins at the world's tick
    assert_eq!(world.declare_event_kind("late".to_string(), None), Ok(2));
    assert_eq!(world.events(2).unwrap().tick(), 2);
}

#[test]
fn sync_says_what_it_drops_and_why() {
    let mut world = world_with_kinds();
    let e = world.spawn();
    world.record_all(vec![
        Command::Despawn(EntityId { index: 3, generation: 3 }),
        Command::Attach(e, 9, 1),
        Command::Detach(e, 0),
        Command::Despawn(e),
        Command::Attach(e, 0, 1),
    ]);
    assert_eq!(
        world.sync(),
        vec![
            Diagnostic::StaleReference(EntityId { index: 3, generation: 3 }),
            Diagnostic::UnknownKind(e, 9),
            Diagnostic::NotFound(e, 0),
            Diagnostic::StaleReference(e),
        ]
    );
    assert_eq!(world.entity_count(), 0);
}
