//! The graphics aspect: answers creation events by attaching its component
//! to the entities that the entity creator has marked.

use crate::command::Command;
use crate::entity::EntityId;
use crate::entity_creator::{caught_up, is_marked, marked, unread};
use crate::error::ConfigurationError;
use crate::event::Cursor;
use crate::kinds::{component_name, event_name, ComponentName, EventName, Kinds};
use crate::program::{
    App, AppSystem, AspectComponent, AspectEvent, AspectSystem, AspectView, AspectWorld, Frame,
    Plugin,
};
use crate::schedule::System;
use vstd::prelude::*;

verus! {

/// Marks an entity that has the graphics aspect.
#[derive(Clone, Copy, Debug, PartialEq, Eq, Structural)]
pub struct GraphicsAspectComponent;

/// Asks the graphics aspect to take care of an entity.
#[derive(Debug)]
pub struct CreateGraphicsAspectEvent {
    /// The entity that aspires to the aspect.
    pub entity: Option<EntityId>,
    pub name: String,
}

impl Default for CreateGraphicsAspectEvent {
    fn default() -> (event: Self)
        ensures
            event.entity is None,
            event.name@ == Seq::<char>::empty(),
    {
        CreateGraphicsAspectEvent { entity: None, name: String::new() }
    }
}

/// Tells the graphics aspect of a change in shimmer. The value travels as
/// the bit pattern of a single-precision number.
#[derive(Clone, Copy, Debug, PartialEq, Eq, Structural)]
pub struct OtherGraphicsAspectEvent {
    pub shimmer_value: u32,
}

impl Default for OtherGraphicsAspectEvent {
    fn default() -> (event: Self)
        ensures
            event == (OtherGraphicsAspectEvent { shimmer_value: 0 }),
    {
        OtherGraphicsAspectEvent { shimmer_value: 0 }
    }
}

/// The settings that the aspect's systems keep between ticks.
#[derive(Clone, Copy, Debug, PartialEq, Eq, Structural)]
pub struct GraphicsAspectSettings;

impl Default for GraphicsAspectSettings {
    fn default() -> (settings: Self)
        ensures
            settings == GraphicsAspectSettings,
    {
        GraphicsAspectSettings
    }
}

/// The plugin of the graphics aspect.
#[derive(Clone, Copy, Debug, PartialEq, Eq, Structural)]
pub struct GraphicsAspect;

/// The commands that answer `events` by attaching the graphics component to
/// every marked entity that a creation event names. An event without an
/// entity, or for an entity that is not marked, is passed over.
pub open spec fn graphics_responses(view: AspectView, kinds: Kinds, events: Seq<AspectEvent>) -> Seq<
    Command<AspectComponent>,
>
    decreases events.len(),
{
    if events.len() == 0 {
        Seq::empty()
    } else {
        graphics_responses(view, kinds, events.drop_last()) + match events.last() {
            AspectEvent::CreateGraphicsAspect(ev) => if ev.entity is Some && marked(
                view,
                kinds,
                ev.entity->Some_0,
            ) && kinds.graphics_aspect is Some {
                seq![
                    Command::Attach(
                        ev.entity->Some_0,
                        kinds.graphics_aspect->Some_0,
                        AspectComponent::GraphicsAspect(GraphicsAspectComponent),
                    ),
                ]
            } else {
                Seq::empty()
            },
            _ => Seq::empty(),
        }
    }
}

/// The aspect's own system; it has nothing to do yet.
pub fn graphicsaspect_system(settings: &mut GraphicsAspectSettings, world: &AspectWorld)
    ensures
        *final(settings) == *old(settings),
{
}

/// Answers the creation events that the reader has yet to see: records, for
/// every marked entity they name, the command that attaches the graphics
/// component.
pub fn create_graphicsaspect_responder(
    settings: &mut GraphicsAspectSettings,
    world: &mut AspectWorld,
    kinds: &Kinds,
    cursor: &mut Cursor,
)
    requires
        old(world).wf(),
    ensures
        final(world).wf(),
        final(world)@.extends(old(world)@),
        final(world)@ == old(world)@.recorded_all(
            graphics_responses(
                old(world)@,
                *kinds,
                unread(old(world)@, kinds.create_graphics, *old(cursor)),
            ),
        ),
        *final(cursor) == caught_up(old(world)@, kinds.create_graphics, *old(cursor)),
        *final(settings) == *old(settings),
{
    let mut commands: Vec<Command<AspectComponent>> = Vec::new();
    let ghost view = world@;
    match kinds.create_graphics {
        Some(k) => {
            match world.events(k) {
                Some(channel) => {
                    let events = channel.read(cursor);
                    let mut i: usize = 0;
                    while i < events.len()
                        invariant
                            i <= events@.len(),
                            view == world@,
                            commands@ == graphics_responses(view, *kinds, events@.take(i as int)),
                        decreases events.len() - i,
                    {
                        proof {
                            assert(events@.take(i + 1).drop_last() =~= events@.take(i as int));
                        }
                        match &events[i] {
                            AspectEvent::CreateGraphicsAspect(ev) => {
                                match (ev.entity, kinds.graphics_aspect) {
                                    (Some(entity), Some(graphics)) => {
                                        if is_marked(world, kinds, entity) {
                                            commands.push(
                                                Command::Attach(
                                                    entity,
                                                    graphics,
                                                    AspectComponent::GraphicsAspect(
                                                        GraphicsAspectComponent,
                                                    ),
                                                ),
                                            );
                                        }
                                    },
                                    _ => {},
                                }
                            },
                            _ => {},
                        }
                        proof {
                            assert(commands@ =~= graphics_responses(
                                view,
                                *kinds,
                                events@.take(i + 1),
                            ));
                        }
                        i = i + 1;
                    }
                    proof {
                        assert(events@.take(i as int) =~= events@);
                    }
                },
                None => {},
            }
        },
        None => {},
    }
    world.record_all(commands);
}

/// Takes note of the other graphics events: moves the reader behind the
/// newest of them. Nothing else is done with them yet.
pub fn other_graphicsaspect_event_responder(
    settings: &mut GraphicsAspectSettings,
    world: &AspectWorld,
    kinds: &Kinds,
    cursor: &mut Cursor,
)
    requires
        world.wf(),
    ensures
        *final(cursor) == caught_up(world@, kinds.other_graphics, *old(cursor)),
        *final(settings) == *old(settings),
{
    match kinds.other_graphics {
        Some(k) => {
            match world.events(k) {
                Some(channel) => {
                    let _ = channel.read(cursor);
                },
                None => {},
            }
        },
        None => {},
    }
}

impl<X: System<Frame, AspectEvent, AspectComponent>> Plugin<X> for GraphicsAspect {
    /// Whether `outcome` and the program `after` are what the plugin makes
    /// of the program `before`.
    open spec fn builds(
        &self,
        before: App<X>,
        after: App<X>,
        outcome: Result<(), ConfigurationError>,
    ) -> bool {
        &&& outcome is Ok <==> {
            &&& !before.component_taken(ComponentName::GraphicsAspect)
            &&& !before.event_taken(EventName::CreateGraphicsAspect)
            &&& !before.event_taken(EventName::OtherGraphicsAspect)
        }
        &&& outcome is Ok ==> {
            &&& after.world_view() == before.world_view().with_component_kind(
                component_name(ComponentName::GraphicsAspect),
            ).with_event_kind(event_name(EventName::CreateGraphicsAspect), None).with_event_kind(
                event_name(EventName::OtherGraphicsAspect),
                None,
            )
            &&& after.kinds() == before.kinds().with_component(
                ComponentName::GraphicsAspect,
                before.world_view().committed.store.kinds.len() as usize,
            ).with_event(
                EventName::CreateGraphicsAspect,
                before.world_view().event_kinds.len() as usize,
            ).with_event(
                EventName::OtherGraphicsAspect,
                (before.world_view().event_kinds.len() + 1) as usize,
            )
            &&& after.constraints().names == before.constraints().names.push(
                "graphicsaspect_system"@,
            ).push("create_graphicsaspect_responder"@).push(
                "other_graphicsaspect_event_responder"@,
            )
            &&& after.constraints().after == before.constraints().after.push(
                Seq::empty(),
            ).push(Seq::empty()).push(Seq::empty())
            &&& after.systems() == before.systems().push(
                AppSystem::Aspect(AspectSystem::GraphicsAspectSystem(GraphicsAspectSettings)),
            ).push(
                AppSystem::Aspect(
                    AspectSystem::CreateGraphicsAspectResponder(
                        GraphicsAspectSettings,
                        Cursor { tick: 0, offset: 0 },
                    ),
                ),
            ).push(
                AppSystem::Aspect(
                    AspectSystem::OtherGraphicsAspectEventResponder(
                        GraphicsAspectSettings,
                        Cursor { tick: 0, offset: 0 },
                    ),
                ),
            )
        }
        &&& outcome is Ok ==> forall|other: EventName|
            after.event_taken(other) == (other == EventName::CreateGraphicsAspect || other == EventName::OtherGraphicsAspect
                || before.event_taken(other))
        &&& outcome is Ok ==> forall|other: ComponentName|
            after.component_taken(other) == (other == ComponentName::GraphicsAspect
                || before.component_taken(other))
        &&& outcome is Err ==> after == before && outcome == Err::<(), ConfigurationError>(
            ConfigurationError::DuplicateKind,
        )
    }

    /// Declares the aspect's component kind and its two event kinds, and
    /// registers its three systems. Fails, with the program left as it was,
    /// when one of the kinds has been declared before.
    fn build(&self, app: &mut App<X>) -> (outcome: Result<(), ConfigurationError>) {
        if app.component_declared(ComponentName::GraphicsAspect) || app.event_declared(
            EventName::CreateGraphicsAspect,
        ) || app.event_declared(EventName::OtherGraphicsAspect) {
            return Err(ConfigurationError::DuplicateKind);
        }
        proof {
            crate::kinds::lemma_names_differ();
        }
        let _ = app.add_component(ComponentName::GraphicsAspect);
        let _ = app.add_event(EventName::CreateGraphicsAspect);
        let _ = app.add_event(EventName::OtherGraphicsAspect);
        let _ = app.add_system(
            "graphicsaspect_system".to_owned(),
            Vec::new(),
            AspectSystem::GraphicsAspectSystem(GraphicsAspectSettings::default()),
        );
        let _ = app.add_system(
            "create_graphicsaspect_responder".to_owned(),
            Vec::new(),
            AspectSystem::CreateGraphicsAspectResponder(
                GraphicsAspectSettings::default(),
                Cursor::start(),
            ),
        );
        let _ = app.add_system(
            "other_graphicsaspect_event_responder".to_owned(),
            Vec::new(),
            AspectSystem::OtherGraphicsAspectEventResponder(
                GraphicsAspectSettings::default(),
                Cursor::start(),
            ),
        );
        proof {
            let declared = old(app).constraints().after.push(Seq::empty()).push(
                Seq::empty(),
            ).push(Seq::empty());
            assert(app.constraints().after.len() == declared.len());
            assert forall|i: int| 0 <= i < declared.len() implies #[trigger] app.constraints().after[i]
                =~= declared[i] by {}
            assert(app.constraints().after =~= declared);
        }
        Ok(())
    }
}

} // verus!
