use aspect_ecs::audio_aspect::{AudioAspect, AudioAspectType, CreateAudioAspectEvent};
use aspect_ecs::entity::EntityId;
use aspect_ecs::entity_creator::{
    add_audio_aspect, add_graphics_aspect, create_entity, create_entity_and_aspects,
    despawn_entities, is_marked, mysystem, remove_entity_creator_component,
    remove_entity_creator_components, DespawnEntitiesEvent, EntityCreator,
    RemoveEntityCreatorComponentEvent,
};
use aspect_ecs::error::{ConfigurationError, Diagnostic};
use aspect_ecs::event::Cursor;
use aspect_ecs::graphics_aspect::{
    create_graphicsaspect_responder, other_graphicsaspect_event_responder,
    CreateGraphicsAspectEvent, GraphicsAspect, GraphicsAspectSettings, OtherGraphicsAspectEvent,
};
use aspect_ecs::input::{Key, KeyInput};
use aspect_ecs::kinds::{ComponentName, EventName, Kinds};
use aspect_ecs::program::{deliver, App, AspectEvent, AspectWorld, NoSystem, Running};
use aspect_ecs::world::World;

fn program(plugins: &[&str]) -> App<NoSystem> {
    let mut app: App<NoSystem> = App::new();
    for plugin in plugins {
        match *plugin {
            "audio" => app.add_plugin(&AudioAspect).unwrap(),
            "graphics" => app.add_plugin(&GraphicsAspect).unwrap(),
            "creator" => app.add_plugin(&EntityCreator).unwrap(),
            _ => unreachable!(),
        }
    }
    app
}

fn names_in_order(app: &Running<NoSystem>) -> Vec<usize> {
    let mut order = Vec::new();
    let mut position = 0;
    while let Some(index) = app.system_at(position) {
        order.push(index);
        position += 1;
    }
    order
}

fn pressed(key: Key) -> KeyInput {
    let mut input = KeyInput::new();
    input.press(key);
    input
}

/// A world with every kind of the program, and the table of their numbers.
fn world_and_kinds() -> (AspectWorld, Kinds) {
    let app = program(&["audio", "graphics", "creator"]);
    let kinds = app.kind_table();
    let mut world: AspectWorld = World::new();
    for name in ["AudioAspectComponent", "GraphicsAspectComponent", "EntityCreatorComponent"] {
        world.declare_component_kind(name.to_string()).unwrap();
    }
    for name in [
        "CreateAudioAspectEvent",
        "CreateGraphicsAspectEvent",
        "OtherGraphicsAspectEvent",
        "RemoveEntityCreatorComponentEvent",
        "DespawnEntitiesEvent",
    ] {
        world.declare_event_kind(name.to_string(), None).unwrap();
    }
    (world, kinds)
}

#[test]
fn plugins_declare_their_kinds() {
    let app = program(&["audio", "graphics", "creator"]);
    let kinds = app.kind_table();
    assert_eq!(kinds.audio_aspect, Some(0));
    assert_eq!(kinds.graphics_aspect, Some(1));
    assert_eq!(kinds.entity_creator, Some(2));
    assert_eq!(kinds.create_audio, Some(0));
    assert_eq!(kinds.create_graphics, Some(1));
    assert_eq!(kinds.other_graphics, Some(2));
    assert_eq!(kinds.remove_entity_creator, Some(3));
    assert_eq!(kinds.despawn_entities, Some(4));
    assert_eq!(kinds.event_kind(EventName::DespawnEntities), Some(4));
    assert_eq!(kinds.component_kind(ComponentName::EntityCreator), Some(2));
    assert!(app.event_declared(EventName::CreateAudioAspect));
    assert!(app.component_declared(ComponentName::GraphicsAspect));
    assert_eq!(
        app.world().event_kind(&"RemoveEntityCreatorComponentEvent".to_string()),
        Some(3)
    );
    assert_eq!(app.world().component_kind(&"EntityCreatorComponent".to_string()), Some(2));
}

#[test]
fn plugins_can_come_in_any_order() {
    let app = program(&["creator", "audio", "graphics"]);
    let kinds = app.kind_table();
    assert_eq!(kinds.entity_creator, Some(0));
    assert_eq!(kinds.remove_entity_creator, Some(0));
    assert_eq!(kinds.despawn_entities, Some(1));
    assert_eq!(kinds.create_audio, Some(2));
    assert_eq!(kinds.create_graphics, Some(3));
    let mut app = app.finish().unwrap();
    app.update(&pressed(Key::C));
    assert_eq!(app.world().entity_count(), 1);
}

#[test]
fn a_plugin_added_twice_is_refused_and_changes_nothing() {
    let mut app = program(&["audio", "graphics", "creator"]);
    let before = app.kind_table();
    assert_eq!(app.add_plugin(&AudioAspect), Err(ConfigurationError::DuplicateKind));
    assert_eq!(app.add_plugin(&GraphicsAspect), Err(ConfigurationError::DuplicateKind));
    assert_eq!(app.add_plugin(&EntityCreator), Err(ConfigurationError::DuplicateKind));
    assert_eq!(app.add_event(EventName::DespawnEntities), Err(ConfigurationError::DuplicateKind));
    assert_eq!(
        app.add_component(ComponentName::AudioAspect),
        Err(ConfigurationError::DuplicateKind)
    );
    let after = app.kind_table();
    assert_eq!(after.despawn_entities, before.despawn_entities);
    assert_eq!(after.audio_aspect, before.audio_aspect);
    let app = app.finish().unwrap();
    // still six systems
    assert_eq!(names_in_order(&app).len(), 6);
}

#[test]
fn a_plugin_is_refused_when_one_of_its_kinds_is_taken() {
    let mut app: App<NoSystem> = App::new();
    assert_eq!(app.add_event(EventName::OtherGraphicsAspect), Ok(0));
    assert_eq!(app.add_plugin(&GraphicsAspect), Err(ConfigurationError::DuplicateKind));
    assert!(!app.event_declared(EventName::CreateGraphicsAspect));
    assert!(!app.component_declared(ComponentName::GraphicsAspect));
    assert_eq!(app.finish().map(|app| names_in_order(&app)), Ok(Vec::new()));
}

#[test]
fn marker_removal_runs_after_the_key_system() {
    // registered as: mysystem, remove_entity_creator_components (after
    // mysystem), despawn_entities
    let app = program(&["creator"]).finish().unwrap();
    assert_eq!(names_in_order(&app), vec![0, 1, 2]);
}

#[test]
fn a_cycle_among_the_hosts_systems_stops_the_setup() {
    let mut app = program(&["creator"]);
    app.add_custom_system("first".to_string(), vec!["second".to_string()], NoSystem);
    app.add_custom_system("second".to_string(), vec!["first".to_string()], NoSystem);
    assert_eq!(app.finish().err(), Some(ConfigurationError::CyclicOrder));
}

#[test]
fn key_input() {
    let mut input = KeyInput::new();
    assert!(!input.just_pressed(Key::C));
    assert!(!input.just_pressed(Key::D));
    input.press(Key::D);
    assert!(input.just_pressed(Key::D));
    assert!(!input.just_pressed(Key::C));
    input.press(Key::C);
    assert!(input.just_pressed(Key::C));
    input.clear();
    assert_eq!(input, KeyInput::new());
}

#[test]
fn defaults() {
    assert_eq!(AudioAspectType::default(), AudioAspectType);
    assert_eq!(
        CreateAudioAspectEvent::default(),
        CreateAudioAspectEvent { entity: None, audiotype: AudioAspectType }
    );
    let graphics = CreateGraphicsAspectEvent::default();
    assert_eq!(graphics.entity, None);
    assert_eq!(graphics.name, "");
    assert_eq!(OtherGraphicsAspectEvent::default().shimmer_value, 0.0f32.to_bits());
    assert_eq!(GraphicsAspectSettings::default(), GraphicsAspectSettings);
}

#[test]
fn create_entity_reserves_and_marks() {
    let (mut world, kinds) = world_and_kinds();
    let e = create_entity(&mut world, &kinds);
    assert_eq!(e, EntityId { index: 0, generation: 0 });
    assert!(!world.is_live(e));
    assert_eq!(world.pending_commands(), 2);
    assert_eq!(world.sync(), Vec::new());
    assert!(world.is_live(e));
    assert!(is_marked(&world, &kinds, e));
    assert_eq!(world.store().count_for(e), 1);
    // without a declared marker the entity is spawned bare
    let bare = create_entity(&mut world, &Kinds::new());
    assert_eq!(world.pending_commands(), 1);
    world.sync();
    assert!(world.is_live(bare));
    assert!(!is_marked(&world, &kinds, bare));
}

#[test]
fn the_aspects_are_asked_by_events() {
    let (mut world, kinds) = world_and_kinds();
    let e = EntityId { index: 4, generation: 2 };
    add_audio_aspect(&mut world, &kinds, e, AudioAspectType::default());
    add_graphics_aspect(&mut world, &kinds, e, "dee".to_string());
    remove_entity_creator_component(e, &mut world, &kinds);
    let mut cursor = Cursor::start();
    match world.events(kinds.create_audio.unwrap()).unwrap().read(&mut cursor) {
        [AspectEvent::CreateAudioAspect(event)] => {
            assert_eq!(*event, CreateAudioAspectEvent { entity: Some(e), audiotype: AudioAspectType });
        }
        other => panic!("{} audio events", other.len()),
    }
    let mut cursor = Cursor::start();
    match world.events(kinds.create_graphics.unwrap()).unwrap().read(&mut cursor) {
        [AspectEvent::CreateGraphicsAspect(event)] => {
            assert_eq!(event.entity, Some(e));
            assert_eq!(event.name, "dee");
        }
        other => panic!("{} graphics events", other.len()),
    }
    let mut cursor = Cursor::start();
    match world.events(kinds.remove_entity_creator.unwrap()).unwrap().read(&mut cursor) {
        [AspectEvent::RemoveEntityCreatorComponent(event)] => {
            assert_eq!(*event, RemoveEntityCreatorComponentEvent { entity: e });
        }
        other => panic!("{} removal events", other.len()),
    }
    // nothing was recorded: the aspects do the attaching
    assert_eq!(world.pending_commands(), 0);
}

#[test]
fn events_of_undeclared_kinds_go_nowhere() {
    let (mut world, _) = world_and_kinds();
    let nothing = Kinds::new();
    let e = EntityId { index: 0, generation: 0 };
    add_audio_aspect(&mut world, &nothing, e, AudioAspectType);
    add_graphics_aspect(&mut world, &nothing, e, "dee".to_string());
    for kind in 0..5 {
        assert_eq!(world.events(kind).unwrap().len(), 0);
    }
    assert!(!deliver(&mut world, None, AspectEvent::CreateAudioAspect(Default::default())));
    assert!(!deliver(&mut world, Some(99), AspectEvent::CreateAudioAspect(Default::default())));
    assert!(deliver(&mut world, Some(0), AspectEvent::CreateAudioAspect(Default::default())));
}

#[test]
fn create_entity_and_aspects_sends_one_audio_and_two_graphics_events() {
    let (mut world, kinds) = world_and_kinds();
    create_entity_and_aspects(&mut world, &kinds);
    let e = EntityId { index: 0, generation: 0 };
    assert_eq!(world.events(kinds.create_audio.unwrap()).unwrap().len(), 1);
    let mut cursor = Cursor::start();
    let graphics = world.events(kinds.create_graphics.unwrap()).unwrap().read(&mut cursor);
    let named: Vec<(Option<EntityId>, &str)> = graphics
        .iter()
        .map(|event| match event {
            AspectEvent::CreateGraphicsAspect(event) => (event.entity, event.name.as_str()),
            _ => panic!("another event on the graphics channel"),
        })
        .collect();
    assert_eq!(named, vec![(Some(e), "bee"), (Some(e), "cee")]);
    assert_eq!(world.pending_commands(), 2);
}

#[test]
fn mysystem_reacts_to_c_only() {
    let (mut world, kinds) = world_and_kinds();
    mysystem(&KeyInput::new(), &mut world, &kinds);
    mysystem(&pressed(Key::D), &mut world, &kinds);
    assert_eq!(world.pending_commands(), 0);
    assert_eq!(world.events(kinds.create_audio.unwrap()).unwrap().len(), 0);
    mysystem(&pressed(Key::C), &mut world, &kinds);
    assert_eq!(world.pending_commands(), 2);
    assert_eq!(world.events(kinds.create_graphics.unwrap()).unwrap().len(), 2);
    world.sync();
    assert_eq!(world.entity_count(), 1);
}

#[test]
fn despawn_entities_answers_for_live_entities_only() {
    let (mut world, kinds) = world_and_kinds();
    let a = world.spawn();
    let b = world.spawn();
    world.sync();
    let pending = world.spawn();
    let stale = EntityId { index: a.index, generation: a.generation + 1 };
    let kind = kinds.despawn_entities.unwrap();
    let event = |entities: Vec<EntityId>| AspectEvent::DespawnEntities(DespawnEntitiesEvent { entities });
    world.send(kind, event(vec![stale, b, pending])).unwrap();
    world.send(kind, event(Vec::new())).unwrap();
    world.send(kind, event(vec![a, a])).unwrap();
    let mut cursor = Cursor::start();
    despawn_entities(&mut world, &kinds, &mut cursor);
    assert_eq!(cursor, Cursor { tick: 0, offset: 3 });
    // the spawn, then b, a, a
    assert_eq!(world.pending_commands(), 4);
    // the second despawn of a finds it dead
    assert_eq!(world.sync(), vec![Diagnostic::StaleReference(a)]);
    assert!(!world.is_live(a));
    assert!(!world.is_live(b));
    assert!(world.is_live(pending));
    // read once: the same events are not answered again
    despawn_entities(&mut world, &kinds, &mut cursor);
    assert_eq!(world.pending_commands(), 0);
    // an undeclared kind: nothing to read, the cursor stays
    let mut other = Cursor { tick: 5, offset: 5 };
    despawn_entities(&mut world, &Kinds::new(), &mut other);
    assert_eq!(other, Cursor { tick: 5, offset: 5 });
}

#[test]
fn remove_entity_creator_components_takes_the_marker_from_marked_entities() {
    let (mut world, kinds) = world_and_kinds();
    let marked = create_entity(&mut world, &kinds);
    let bare = world.spawn();
    world.sync();
    remove_entity_creator_component(bare, &mut world, &kinds);
    remove_entity_creator_component(marked, &mut world, &kinds);
    remove_entity_creator_component(EntityId { index: 9, generation: 0 }, &mut world, &kinds);
    let mut cursor = Cursor::start();
    remove_entity_creator_components(&mut world, &kinds, &mut cursor);
    assert_eq!(world.pending_commands(), 1);
    assert!(is_marked(&world, &kinds, marked));
    assert_eq!(world.sync(), Vec::new());
    assert!(!is_marked(&world, &kinds, marked));
    assert!(world.is_live(marked));
    assert_eq!(world.store().count_for(marked), 0);
}

#[test]
fn create_graphicsaspect_responder_attaches_to_marked_entities() {
    let (mut world, kinds) = world_and_kinds();
    let marked = create_entity(&mut world, &kinds);
    let bare = world.spawn();
    world.sync();
    let kind = kinds.create_graphics.unwrap();
    let event = |entity: Option<EntityId>| {
        AspectEvent::CreateGraphicsAspect(CreateGraphicsAspectEvent { entity, name: "n".to_string() })
    };
    world.send(kind, event(None)).unwrap();
    world.send(kind, event(Some(bare))).unwrap();
    world.send(kind, event(Some(marked))).unwrap();
    world.send(kind, event(Some(marked))).unwrap();
    let mut settings = GraphicsAspectSettings::default();
    let mut cursor = Cursor::start();
    create_graphicsaspect_responder(&mut settings, &mut world, &kinds, &mut cursor);
    assert_eq!(world.pending_commands(), 2);
    assert_eq!(world.sync(), Vec::new());
    let graphics = kinds.graphics_aspect.unwrap();
    assert!(world.has(marked, graphics));
    assert!(!world.has(bare, graphics));
    assert_eq!(world.store().count_for(marked), 2);
}

#[test]
fn other_graphics_events_are_noted() {
    let (mut world, kinds) = world_and_kinds();
    let kind = kinds.other_graphics.unwrap();
    let shimmer = OtherGraphicsAspectEvent { shimmer_value: 0.5f32.to_bits() };
    world.send(kind, AspectEvent::OtherGraphicsAspect(shimmer)).unwrap();
    let mut settings = GraphicsAspectSettings::default();
    let mut cursor = Cursor::start();
    other_graphicsaspect_event_responder(&mut settings, &world, &kinds, &mut cursor);
    assert_eq!(cursor, Cursor { tick: 0, offset: 1 });
    assert_eq!(world.pending_commands(), 0);
    match world.events(kind).unwrap().read(&mut Cursor::start()) {
        [AspectEvent::OtherGraphicsAspect(event)] => {
            assert_eq!(f32::from_bits(event.shimmer_value), 0.5);
        }
        other => panic!("{} events", other.len()),
    }
}

#[test]
fn the_graphics_aspect_attaches_in_the_tick_after_the_creation() {
    let mut app = program(&["audio", "graphics", "creator"]).finish().unwrap();
    let kinds = app.kind_table();
    app.update(&pressed(Key::C));
    let e = EntityId { index: 0, generation: 0 };
    assert!(app.world().is_live(e));
    assert!(is_marked(app.world(), &kinds, e));
    assert!(!app.world().has(e, kinds.graphics_aspect.unwrap()));
    assert_eq!(app.world().store().count_for(e), 1);
    assert_eq!(app.update(&KeyInput::new()), Vec::new());
    assert!(app.world().has(e, kinds.graphics_aspect.unwrap()));
    assert_eq!(app.world().store().count_for(e), 2);
    // the creation events are gone for a reader that starts now
    assert_eq!(app.world().ticks(), 2);
    let graphics = app.world().events(kinds.create_graphics.unwrap()).unwrap();
    assert_eq!(graphics.pending(Cursor::start()), 0);
    assert!(app.can_update());
}

#[test]
fn an_event_read_before_its_entity_lives_is_lost() {
    // with the creator set up first its key system runs before the graphics
    // responder, which reads the events in the tick of the creation, finds
    // the entity not alive yet, and does not see the events again
    let mut app = program(&["creator", "audio", "graphics"]).finish().unwrap();
    let kinds = app.kind_table();
    app.update(&pressed(Key::C));
    app.update(&KeyInput::new());
    app.update(&KeyInput::new());
    let e = EntityId { index: 0, generation: 0 };
    assert!(app.world().is_live(e));
    assert!(!app.world().has(e, kinds.graphics_aspect.unwrap()));
}

#[test]
fn the_host_can_ask_for_the_marker_to_be_removed() {
    let mut app = program(&["audio", "graphics", "creator"]).finish().unwrap();
    let kinds = app.kind_table();
    app.update(&pressed(Key::C));
    let e = EntityId { index: 0, generation: 0 };
    assert!(app.send_event(
        EventName::RemoveEntityCreatorComponent,
        AspectEvent::RemoveEntityCreatorComponent(RemoveEntityCreatorComponentEvent { entity: e }),
    ));
    app.update(&KeyInput::new());
    assert!(app.world().is_live(e));
    assert!(!is_marked(app.world(), &kinds, e));
    // the graphics aspect answered in the same tick, while the marker was there
    assert!(app.world().has(e, kinds.graphics_aspect.unwrap()));
}

#[test]
fn send_event_needs_a_declared_kind() {
    let mut app = program(&["audio"]).finish().unwrap();
    assert!(!app.send_event(
        EventName::DespawnEntities,
        AspectEvent::DespawnEntities(DespawnEntitiesEvent { entities: Vec::new() }),
    ));
    assert!(app.send_event(
        EventName::CreateAudioAspect,
        AspectEvent::CreateAudioAspect(CreateAudioAspectEvent::default()),
    ));
    assert_eq!(app.world().events(0).unwrap().len(), 1);
}

#[test]
fn thousand_spawn_despawn_cycles_through_the_program() {
    let mut app = program(&["audio", "graphics", "creator"]).finish().unwrap();
    for cycle in 0..1000u64 {
        app.update(&pressed(Key::C));
        let e = EntityId { index: 0, generation: cycle };
        assert!(app.world().is_live(e));
        assert!(app.send_event(
            EventName::DespawnEntities,
            AspectEvent::DespawnEntities(DespawnEntitiesEvent { entities: vec![e] }),
        ));
        app.update(&KeyInput::new());
        assert_eq!(app.world().entity_count(), 0);
    }
    assert_eq!(app.world().registry().slot_count(), 1);
    assert_eq!(app.world().ticks(), 2000);
}
