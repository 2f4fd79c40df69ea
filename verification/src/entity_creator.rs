//! The entity creator: spawns an entity on request and asks the aspects, by
//! events, to add what is theirs; despawns entities and removes its own
//! marker when it is told to.

use crate::audio_aspect::{AudioAspectType, CreateAudioAspectEvent};
use crate::command::Command;
use crate::entity::EntityId;
use crate::error::ConfigurationError;
use crate::event::Cursor;
use crate::graphics_aspect::CreateGraphicsAspectEvent;
use crate::input::{Key, KeyInput};
use crate::kinds::{component_name, event_name, ComponentName, EventName, Kinds};
use crate::program::{
    deliver, delivered, App, AppSystem, AspectComponent, AspectEvent, AspectSystem, AspectView,
    AspectWorld, Frame, Plugin,
};
use crate::schedule::System;
use vstd::prelude::*;

verus! {

/// Marks the entities that this plugin has spawned, so that the aspects know
/// which entities a creation event may speak of.
#[derive(Clone, Copy, Debug, PartialEq, Eq, Structural)]
pub struct EntityCreatorComponent;

/// Asks for the marker to be taken from an entity.
#[derive(Clone, Copy, Debug, PartialEq, Eq, Structural)]
pub struct RemoveEntityCreatorComponentEvent {
    pub entity: EntityId,
}

/// Asks for entities to be despawned.
#[derive(Debug)]
pub struct DespawnEntitiesEvent {
    pub entities: Vec<EntityId>,
}

/// The plugin of the entity creator.
#[derive(Clone, Copy, Debug, PartialEq, Eq, Structural)]
pub struct EntityCreator;

/// The command that marks `id`, if the marker's kind is declared.
pub open spec fn marker_commands(kinds: Kinds, id: EntityId) -> Seq<Command<AspectComponent>> {
    match kinds.entity_creator {
        Some(k) => seq![
            Command::Attach(id, k, AspectComponent::EntityCreator(EntityCreatorComponent)),
        ],
        None => Seq::empty(),
    }
}

/// The world after the creation of an entity was requested: a spawn is
/// recorded, and behind it the command that marks the new entity.
pub open spec fn entity_created(view: AspectView, kinds: Kinds) -> AspectView {
    view.spawned().recorded_all(marker_commands(kinds, view.next_id()))
}

/// The world after an entity and its aspects were requested: the entity is
/// created, then one audio event and two graphics events that name it go out.
pub open spec fn aspects_requested(
    view: AspectView,
    kinds: Kinds,
    first: String,
    second: String,
) -> AspectView {
    let e = view.next_id();
    let created = entity_created(view, kinds);
    let with_audio = delivered(
        created,
        kinds.create_audio,
        AspectEvent::CreateAudioAspect(
            CreateAudioAspectEvent { entity: Some(e), audiotype: AudioAspectType },
        ),
    );
    let with_first = delivered(
        with_audio,
        kinds.create_graphics,
        AspectEvent::CreateGraphicsAspect(CreateGraphicsAspectEvent { entity: Some(e), name: first }),
    );
    delivered(
        with_first,
        kinds.create_graphics,
        AspectEvent::CreateGraphicsAspect(
            CreateGraphicsAspectEvent { entity: Some(e), name: second },
        ),
    )
}

/// The events of `kind` that a reader at `cursor` has yet to see; none when
/// the kind is not declared.
pub open spec fn unread(view: AspectView, kind: Option<usize>, cursor: Cursor) -> Seq<AspectEvent> {
    match kind {
        Some(k) => if k < view.channels.len() {
            view.channels[k as int].visible_to(cursor)
        } else {
            Seq::empty()
        },
        None => Seq::empty(),
    }
}

/// Where a reader of `kind` stands after it has read everything: behind the
/// newest event, or where it was when the kind is not declared.
pub open spec fn caught_up(view: AspectView, kind: Option<usize>, before: Cursor) -> Cursor {
    match kind {
        Some(k) => if k < view.channels.len() {
            Cursor {
                tick: view.channels[k as int].tick as u64,
                offset: view.channels[k as int].newer.len() as usize,
            }
        } else {
            before
        },
        None => before,
    }
}

/// One despawn command for each of `ids` that is alive, in order.
pub open spec fn despawns(view: AspectView, ids: Seq<EntityId>) -> Seq<Command<AspectComponent>>
    decreases ids.len(),
{
    if ids.len() == 0 {
        Seq::empty()
    } else {
        despawns(view, ids.drop_last()) + if view.committed.alive(ids.last()) {
            seq![Command::Despawn(ids.last())]
        } else {
            Seq::empty()
        }
    }
}

/// The despawn commands that answer `events`, in order.
pub open spec fn despawn_responses(view: AspectView, events: Seq<AspectEvent>) -> Seq<
    Command<AspectComponent>,
>
    decreases events.len(),
{
    if events.len() == 0 {
        Seq::empty()
    } else {
        despawn_responses(view, events.drop_last()) + match events.last() {
            AspectEvent::DespawnEntities(ev) => despawns(view, ev.entities@),
            _ => Seq::empty(),
        }
    }
}

/// Whether `id` is alive and carries the creator's marker.
pub open spec fn marked(view: AspectView, kinds: Kinds, id: EntityId) -> bool {
    match kinds.entity_creator {
        Some(k) => view.committed.alive(id) && view.committed.has(id, k),
        None => false,
    }
}

/// The commands that answer `events` by taking the marker from every marked
/// entity that a removal event names.
pub open spec fn removal_responses(view: AspectView, kinds: Kinds, events: Seq<AspectEvent>) -> Seq<
    Command<AspectComponent>,
>
    decreases events.len(),
{
    if events.len() == 0 {
        Seq::empty()
    } else {
        removal_responses(view, kinds, events.drop_last()) + match events.last() {
            AspectEvent::RemoveEntityCreatorComponent(ev) => if marked(view, kinds, ev.entity) {
                seq![Command::Detach(ev.entity, kinds.entity_creator->Some_0)]
            } else {
                Seq::empty()
            },
            _ => Seq::empty(),
        }
    }
}

/// Whether `id` is alive and carries the creator's marker, as of the last
/// sync point.
pub fn is_marked(world: &AspectWorld, kinds: &Kinds, id: EntityId) -> (found: bool)
    ensures
        found == marked(world@, *kinds, id),
{
    match kinds.entity_creator {
        Some(k) => world.is_live(id) && world.has(id, k),
        None => false,
    }
}

/// Whether `after` is what the answer to the keys makes of `before`: with
/// `C` down an entity and its aspects are requested, the graphics aspect
/// under the names "bee" and "cee"; else nothing changes.
pub open spec fn keys_answered(
    keys: KeyInput,
    kinds: Kinds,
    before: AspectView,
    after: AspectView,
) -> bool {
    if keys.pressed(Key::C) {
        exists|bee: String, cee: String|
            bee@ == "bee"@ && cee@ == "cee"@ && after == #[trigger] aspects_requested(
                before,
                kinds,
                bee,
                cee,
            )
    } else {
        after == before
    }
}

/// Reacts to the keys: `C` requests an entity with its aspects.
pub fn mysystem(input: &KeyInput, world: &mut AspectWorld, kinds: &Kinds)
    requires
        old(world).wf(),
    ensures
        final(world).wf(),
        final(world)@.extends(old(world)@),
        keys_answered(*input, *kinds, old(world)@, final(world)@),
{
    if input.just_pressed(Key::C) {
        create_entity_and_aspects(world, kinds);
    } else {
        proof {
            world@.lemma_extends_self();
        }
    }
}

/// Requests an entity and, for it, the audio aspect once and the graphics
/// aspect twice, under the names "bee" and "cee".
pub fn create_entity_and_aspects(world: &mut AspectWorld, kinds: &Kinds)
    requires
        old(world).wf(),
    ensures
        final(world).wf(),
        final(world)@.extends(old(world)@),
        exists|bee: String, cee: String|
            bee@ == "bee"@ && cee@ == "cee"@ && final(world)@ == #[trigger] aspects_requested(
                old(world)@,
                *kinds,
                bee,
                cee,
            ),
{
    let e = create_entity(world, kinds);
    let ghost created = world@;
    add_audio_aspect(world, kinds, e, AudioAspectType::default());
    let ghost with_audio = world@;
    let bee = "bee".to_owned();
    let cee = "cee".to_owned();
    let ghost bee_name = bee;
    let ghost cee_name = cee;
    add_graphics_aspect(world, kinds, e, bee);
    let ghost with_first = world@;
    add_graphics_aspect(world, kinds, e, cee);
    proof {
        with_audio.lemma_extends_trans(created, old(world)@);
        with_first.lemma_extends_trans(with_audio, old(world)@);
        world@.lemma_extends_trans(with_first, old(world)@);
        assert(world@ == aspects_requested(old(world)@, *kinds, bee_name, cee_name));
    }
}

/// Requests a new entity that carries the creator's marker. The identifier
/// is reserved at once; the entity comes to life at the sync point.
pub fn create_entity(world: &mut AspectWorld, kinds: &Kinds) -> (e: EntityId)
    requires
        old(world).wf(),
    ensures
        final(world).wf(),
        final(world)@.extends(old(world)@),
        e == old(world)@.next_id(),
        final(world)@ == entity_created(old(world)@, *kinds),
{
    let e = world.spawn();
    let ghost spawned = world@;
    match kinds.entity_creator {
        Some(k) => {
            world.record(
                Command::Attach(e, k, AspectComponent::EntityCreator(EntityCreatorComponent)),
            );
            proof {
                world@.lemma_extends_trans(spawned, old(world)@);
                assert(world@.commands =~= spawned.commands + marker_commands(*kinds, e));
            }
        },
        None => {
            proof {
                assert(world@.commands =~= spawned.commands + marker_commands(*kinds, e));
            }
        },
    }
    e
}

/// Asks, by an event, for the creator's marker to be taken from `entity`.
pub fn remove_entity_creator_component(entity: EntityId, world: &mut AspectWorld, kinds: &Kinds)
    requires
        old(world).wf(),
    ensures
        final(world).wf(),
        final(world)@.extends(old(world)@),
        final(world)@ == delivered(
            old(world)@,
            kinds.remove_entity_creator,
            AspectEvent::RemoveEntityCreatorComponent(RemoveEntityCreatorComponentEvent { entity }),
        ),
{
    let _ = deliver(
        world,
        kinds.remove_entity_creator,
        AspectEvent::RemoveEntityCreatorComponent(RemoveEntityCreatorComponentEvent { entity }),
    );
}

/// Asks the audio aspect, by an event, to take care of `entity`.
pub fn add_audio_aspect(
    world: &mut AspectWorld,
    kinds: &Kinds,
    entity: EntityId,
    audiotype: AudioAspectType,
)
    requires
        old(world).wf(),
    ensures
        final(world).wf(),
        final(world)@.extends(old(world)@),
        final(world)@ == delivered(
            old(world)@,
            kinds.create_audio,
            AspectEvent::CreateAudioAspect(
                CreateAudioAspectEvent { entity: Some(entity), audiotype },
            ),
        ),
{
    let _ = deliver(
        world,
        kinds.create_audio,
        AspectEvent::CreateAudioAspect(CreateAudioAspectEvent { entity: Some(entity), audiotype }),
    );
}

/// Asks the graphics aspect, by an event, to take care of `entity` under
/// `name`.
pub fn add_graphics_aspect(world: &mut AspectWorld, kinds: &Kinds, entity: EntityId, name: String)
    requires
        old(world).wf(),
    ensures
        final(world).wf(),
        final(world)@.extends(old(world)@),
        final(world)@ == delivered(
            old(world)@,
            kinds.create_graphics,
            AspectEvent::CreateGraphicsAspect(
                CreateGraphicsAspectEvent { entity: Some(entity), name },
            ),
        ),
{
    let _ = deliver(
        world,
        kinds.create_graphics,
        AspectEvent::CreateGraphicsAspect(CreateGraphicsAspectEvent { entity: Some(entity), name }),
    );
}

/// Answers the despawn events that the reader has yet to see: records a
/// despawn for every entity they name that is alive as of the last sync
/// point, in the order of the events and of the names in them.
pub fn despawn_entities(world: &mut AspectWorld, kinds: &Kinds, cursor: &mut Cursor)
    requires
        old(world).wf(),
    ensures
        final(world).wf(),
        final(world)@.extends(old(world)@),
        final(world)@ == old(world)@.recorded_all(
            despawn_responses(
                old(world)@,
                unread(old(world)@, kinds.despawn_entities, *old(cursor)),
            ),
        ),
        *final(cursor) == caught_up(old(world)@, kinds.despawn_entities, *old(cursor)),
{
    let mut commands: Vec<Command<AspectComponent>> = Vec::new();
    let ghost view = world@;
    match kinds.despawn_entities {
        Some(k) => {
            match world.events(k) {
                Some(channel) => {
                    let events = channel.read(cursor);
                    let mut i: usize = 0;
                    while i < events.len()
                        invariant
                            i <= events@.len(),
                            view == world@,
                            commands@ == despawn_responses(view, events@.take(i as int)),
                        decreases events.len() - i,
                    {
                        proof {
                            assert(events@.take(i + 1).drop_last() =~= events@.take(i as int));
                        }
                        match &events[i] {
                            AspectEvent::DespawnEntities(ev) => {
                                let ghost so_far = commands@;
                                let mut j: usize = 0;
                                while j < ev.entities.len()
                                    invariant
                                        j <= ev.entities@.len(),
                                        view == world@,
                                        commands@ == so_far + despawns(
                                            view,
                                            ev.entities@.take(j as int),
                                        ),
                                    decreases ev.entities.len() - j,
                                {
                                    proof {
                                        assert(ev.entities@.take(j + 1).drop_last()
                                            =~= ev.entities@.take(j as int));
                                    }
                                    let de = ev.entities[j];
                                    if world.is_live(de) {
                                        commands.push(Command::Despawn(de));
                                    }
                                    proof {
                                        assert(commands@ =~= so_far + despawns(
                                            view,
                                            ev.entities@.take(j + 1),
                                        ));
                                    }
                                    j = j + 1;
                                }
                                proof {
                                    assert(ev.entities@.take(j as int) =~= ev.entities@);
                                }
                            },
                            _ => {
                                proof {
                                    assert(commands@ + Seq::<Command<AspectComponent>>::empty()
                                        =~= commands@);
                                }
                            },
                        }
                        i = i + 1;
                    }
                    proof {
                        assert(events@.take(i as int) =~= events@);
                    }
                },
                None => {},
            }
        },
        None => {},
    }
    world.record_all(commands);
}

/// Answers the removal events that the reader has yet to see: records, for
/// every marked entity they name, the command that takes its marker.
pub fn remove_entity_creator_components(
    world: &mut AspectWorld,
    kinds: &Kinds,
    cursor: &mut Cursor,
)
    requires
        old(world).wf(),
    ensures
        final(world).wf(),
        final(world)@.extends(old(world)@),
        final(world)@ == old(world)@.recorded_all(
            removal_responses(
                old(world)@,
                *kinds,
                unread(old(world)@, kinds.remove_entity_creator, *old(cursor)),
            ),
        ),
        *final(cursor) == caught_up(old(world)@, kinds.remove_entity_creator, *old(cursor)),
{
    let mut commands: Vec<Command<AspectComponent>> = Vec::new();
    let ghost view = world@;
    match kinds.remove_entity_creator {
        Some(k) => {
            match world.events(k) {
                Some(channel) => {
                    let events = channel.read(cursor);
                    let mut i: usize = 0;
                    while i < events.len()
                        invariant
                            i <= events@.len(),
                            view == world@,
                            commands@ == removal_responses(view, *kinds, events@.take(i as int)),
                        decreases events.len() - i,
                    {
                        proof {
                            assert(events@.take(i + 1).drop_last() =~= events@.take(i as int));
                        }
                        let ghost so_far = commands@;
                        match &events[i] {
                            AspectEvent::RemoveEntityCreatorComponent(ev) => {
                                if is_marked(world, kinds, ev.entity) {
                                    match kinds.entity_creator {
                                        Some(marker) => {
                                            commands.push(Command::Detach(ev.entity, marker));
                                        },
                                        None => {},
                                    }
                                }
                            },
                            _ => {},
                        }
                        proof {
                            assert(commands@ =~= removal_responses(
                                view,
                                *kinds,
                                events@.take(i + 1),
                            ));
                        }
                        i = i + 1;
                    }
                    proof {
                        assert(events@.take(i as int) =~= events@);
                    }
                },
                None => {},
            }
        },
        None => {},
    }
    world.record_all(commands);
}

impl<X: System<Frame, AspectEvent, AspectComponent>> Plugin<X> for EntityCreator {
    /// Whether `outcome` and the program `after` are what the plugin makes
    /// of the program `before`.
    open spec fn builds(
        &self,
        before: App<X>,
        after: App<X>,
        outcome: Result<(), ConfigurationError>,
    ) -> bool {
        &&& outcome is Ok <==> {
            &&& !before.component_taken(ComponentName::EntityCreator)
            &&& !before.event_taken(EventName::RemoveEntityCreatorComponent)
            &&& !before.event_taken(EventName::DespawnEntities)
        }
        &&& outcome is Ok ==> {
            &&& after.world_view() == before.world_view().with_component_kind(
                component_name(ComponentName::EntityCreator),
            ).with_event_kind(
                event_name(EventName::RemoveEntityCreatorComponent),
                None,
            ).with_event_kind(event_name(EventName::DespawnEntities), None)
            &&& after.kinds() == before.kinds().with_component(
                ComponentName::EntityCreator,
                before.world_view().committed.store.kinds.len() as usize,
            ).with_event(
                EventName::RemoveEntityCreatorComponent,
                before.world_view().event_kinds.len() as usize,
            ).with_event(
                EventName::DespawnEntities,
                (before.world_view().event_kinds.len() + 1) as usize,
            )
            &&& after.constraints().names == before.constraints().names.push(
                "mysystem"@,
            ).push("remove_entity_creator_components"@).push("despawn_entities"@)
            &&& after.constraints().after == before.constraints().after.push(
                Seq::empty(),
            ).push(seq!["mysystem"@]).push(Seq::empty())
            &&& after.systems() == before.systems().push(
                AppSystem::Aspect(AspectSystem::MySystem),
            ).push(
                AppSystem::Aspect(
                    AspectSystem::RemoveEntityCreatorComponents(Cursor { tick: 0, offset: 0 }),
                ),
            ).push(
                AppSystem::Aspect(AspectSystem::DespawnEntities(Cursor { tick: 0, offset: 0 })),
            )
        }
        &&& outcome is Ok ==> forall|other: EventName|
            after.event_taken(other) == (other == EventName::RemoveEntityCreatorComponent || other == EventName::DespawnEntities
                || before.event_taken(other))
        &&& outcome is Ok ==> forall|other: ComponentName|
            after.component_taken(other) == (other == ComponentName::EntityCreator
                || before.component_taken(other))
        &&& outcome is Err ==> after == before && outcome == Err::<(), ConfigurationError>(
            ConfigurationError::DuplicateKind,
        )
    }

    /// Declares the marker's component kind and the kinds of the removal and
    /// the despawn events, and registers the plugin's systems: the one that
    /// reacts to the keys, behind it the one that removes markers, and the
    /// one that despawns. Fails, with the program left as it was, when one of
    /// the kinds has been declared before.
    fn build(&self, app: &mut App<X>) -> (outcome: Result<(), ConfigurationError>) {
        if app.component_declared(ComponentName::EntityCreator) || app.event_declared(
            EventName::RemoveEntityCreatorComponent,
        ) || app.event_declared(EventName::DespawnEntities) {
            return Err(ConfigurationError::DuplicateKind);
        }
        proof {
            crate::kinds::lemma_names_differ();
        }
        let _ = app.add_component(ComponentName::EntityCreator);
        let ghost declared = *app;
        let _ = app.add_system("mysystem".to_owned(), Vec::new(), AspectSystem::MySystem);
        assert(forall|other: EventName| app.event_taken(other) == declared.event_taken(other));
        let _ = app.add_event(EventName::RemoveEntityCreatorComponent);
        let ghost with_removal = *app;
        let mut after: Vec<String> = Vec::new();
        after.push("mysystem".to_owned());
        let _ = app.add_system(
            "remove_entity_creator_components".to_owned(),
            after,
            AspectSystem::RemoveEntityCreatorComponents(Cursor::start()),
        );
        assert(forall|other: EventName| app.event_taken(other) == with_removal.event_taken(other));
        let _ = app.add_event(EventName::DespawnEntities);
        let _ = app.add_system(
            "despawn_entities".to_owned(),
            Vec::new(),
            AspectSystem::DespawnEntities(Cursor::start()),
        );
        proof {
            let declared = old(app).constraints().after.push(Seq::empty()).push(
                seq!["mysystem"@],
            ).push(Seq::empty());
            assert(app.constraints().after.len() == declared.len());
            assert forall|i: int| 0 <= i < declared.len() implies #[trigger] app.constraints().after[i]
                =~= declared[i] by {}
            assert(app.constraints().after =~= declared);
        }
        Ok(())
    }
}

} // verus!
