//! The program that the aspects are plugged into: its world, its kinds of
//! components and events, its systems, and the step from setup to running.

use crate::audio_aspect::{AudioAspectComponent, CreateAudioAspectEvent};
use crate::entity_creator::{
    DespawnEntitiesEvent, EntityCreatorComponent, RemoveEntityCreatorComponentEvent,
};
use crate::error::{ConfigurationError, Diagnostic};
use crate::event::Cursor;
use crate::graphics_aspect::{
    CreateGraphicsAspectEvent, GraphicsAspectComponent, GraphicsAspectSettings,
    OtherGraphicsAspectEvent,
};
use crate::input::KeyInput;
use crate::kinds::{
    component_name, component_name_of, event_name, event_name_of, lemma_names_differ,
    lemma_pushed_contains, ComponentName, EventName, Kinds,
};
use crate::schedule::{Schedule, ScheduleBuilder, System};
use crate::world::{World, WorldView};
use vstd::prelude::*;

verus! {

/// The payloads that the program attaches to entities.
pub enum AspectComponent {
    EntityCreator(EntityCreatorComponent),
    AudioAspect(AudioAspectComponent),
    GraphicsAspect(GraphicsAspectComponent),
}

/// The events that the program sends.
pub enum AspectEvent {
    CreateAudioAspect(CreateAudioAspectEvent),
    CreateGraphicsAspect(CreateGraphicsAspectEvent),
    OtherGraphicsAspect(OtherGraphicsAspectEvent),
    RemoveEntityCreatorComponent(RemoveEntityCreatorComponentEvent),
    DespawnEntities(DespawnEntitiesEvent),
}

pub type AspectWorld = World<AspectEvent, AspectComponent>;

pub type AspectView = WorldView<AspectEvent, AspectComponent>;

/// What a tick of the program hands to its systems.
#[derive(Clone, Copy, Debug)]
pub struct Frame {
    pub keys: KeyInput,
    pub kinds: Kinds,
}

/// The world after `event` went out on the channel of `kind`, if that kind
/// is declared and its channel has room; else the world as it is.
pub open spec fn delivered(view: AspectView, kind: Option<usize>, event: AspectEvent) -> AspectView {
    match kind {
        Some(k) => if k < view.channels.len() && view.channels[k as int].has_room() {
            view.sent(k, event)
        } else {
            view
        },
        None => view,
    }
}

/// Sends `event` on the channel of `kind` where that can be done. Returns
/// whether the event went out.
pub fn deliver(world: &mut AspectWorld, kind: Option<usize>, event: AspectEvent) -> (sent: bool)
    requires
        old(world).wf(),
    ensures
        final(world).wf(),
        final(world)@ == delivered(old(world)@, kind, event),
        final(world)@.extends(old(world)@),
        sent == match kind {
            Some(k) => k < old(world)@.channels.len() && old(world)@.channels[k as int].has_room(),
            None => false,
        },
{
    match kind {
        Some(k) => {
            match world.send(k, event) {
                Ok(_) => true,
                Err(_) => false,
            }
        },
        None => {
            proof {
                world@.lemma_extends_self();
            }
            false
        },
    }
}

/// The systems that the plugins bring. Each holds what it keeps between
/// ticks: its settings, and its place in the channel that it reads.
pub enum AspectSystem {
    MySystem,
    RemoveEntityCreatorComponents(Cursor),
    DespawnEntities(Cursor),
    GraphicsAspectSystem(GraphicsAspectSettings),
    CreateGraphicsAspectResponder(GraphicsAspectSettings, Cursor),
    OtherGraphicsAspectEventResponder(GraphicsAspectSettings, Cursor),
}

impl System<Frame, AspectEvent, AspectComponent> for AspectSystem {
    /// Each system does what the function of its name does, and keeps its
    /// settings; a reader ends behind the newest event of its channel.
    open spec fn step(
        &self,
        input: &Frame,
        before: AspectView,
        later: &Self,
        after: AspectView,
    ) -> bool {
        match (*self, *later) {
            (AspectSystem::MySystem, AspectSystem::MySystem) => crate::entity_creator::keys_answered(
                input.keys,
                input.kinds,
                before,
                after,
            ),
            (
                AspectSystem::RemoveEntityCreatorComponents(cursor),
                AspectSystem::RemoveEntityCreatorComponents(moved),
            ) => {
                &&& after == before.recorded_all(
                    crate::entity_creator::removal_responses(
                        before,
                        input.kinds,
                        crate::entity_creator::unread(
                            before,
                            input.kinds.remove_entity_creator,
                            cursor,
                        ),
                    ),
                )
                &&& moved == crate::entity_creator::caught_up(
                    before,
                    input.kinds.remove_entity_creator,
                    cursor,
                )
            },
            (AspectSystem::DespawnEntities(cursor), AspectSystem::DespawnEntities(moved)) => {
                &&& after == before.recorded_all(
                    crate::entity_creator::despawn_responses(
                        before,
                        crate::entity_creator::unread(before, input.kinds.despawn_entities, cursor),
                    ),
                )
                &&& moved == crate::entity_creator::caught_up(
                    before,
                    input.kinds.despawn_entities,
                    cursor,
                )
            },
            (
                AspectSystem::GraphicsAspectSystem(settings),
                AspectSystem::GraphicsAspectSystem(kept),
            ) => after == before && kept == settings,
            (
                AspectSystem::CreateGraphicsAspectResponder(settings, cursor),
                AspectSystem::CreateGraphicsAspectResponder(kept, moved),
            ) => {
                &&& after == before.recorded_all(
                    crate::graphics_aspect::graphics_responses(
                        before,
                        input.kinds,
                        crate::entity_creator::unread(before, input.kinds.create_graphics, cursor),
                    ),
                )
                &&& moved == crate::entity_creator::caught_up(
                    before,
                    input.kinds.create_graphics,
                    cursor,
                )
                &&& kept == settings
            },
            (
                AspectSystem::OtherGraphicsAspectEventResponder(settings, cursor),
                AspectSystem::OtherGraphicsAspectEventResponder(kept, moved),
            ) => {
                &&& after == before
                &&& moved == crate::entity_creator::caught_up(
                    before,
                    input.kinds.other_graphics,
                    cursor,
                )
                &&& kept == settings
            },
            _ => false,
        }
    }

    fn run(&mut self, input: &Frame, world: &mut AspectWorld) {
        match self {
            AspectSystem::MySystem => {
                crate::entity_creator::mysystem(&input.keys, world, &input.kinds);
            },
            AspectSystem::RemoveEntityCreatorComponents(cursor) => {
                crate::entity_creator::remove_entity_creator_components(
                    world,
                    &input.kinds,
                    cursor,
                );
            },
            AspectSystem::DespawnEntities(cursor) => {
                crate::entity_creator::despawn_entities(world, &input.kinds, cursor);
            },
            AspectSystem::GraphicsAspectSystem(settings) => {
                crate::graphics_aspect::graphicsaspect_system(settings, world);
                proof {
                    world@.lemma_extends_self();
                }
            },
            AspectSystem::CreateGraphicsAspectResponder(settings, cursor) => {
                crate::graphics_aspect::create_graphicsaspect_responder(
                    settings,
                    world,
                    &input.kinds,
                    cursor,
                );
            },
            AspectSystem::OtherGraphicsAspectEventResponder(settings, cursor) => {
                crate::graphics_aspect::other_graphicsaspect_event_responder(
                    settings,
                    world,
                    &input.kinds,
                    cursor,
                );
                proof {
                    world@.lemma_extends_self();
                }
            },
        }
    }
}

/// A system that does nothing: the host's system of a program that has none
/// of its own.
#[derive(Clone, Copy, Debug, PartialEq, Eq, Structural)]
pub struct NoSystem;

impl System<Frame, AspectEvent, AspectComponent> for NoSystem {
    /// Nothing changes.
    open spec fn step(
        &self,
        input: &Frame,
        before: AspectView,
        later: &Self,
        after: AspectView,
    ) -> bool {
        after == before
    }

    fn run(&mut self, input: &Frame, world: &mut AspectWorld) {
        proof {
            world@.lemma_extends_self();
        }
    }
}

/// A system of the program: one that a plugin brought, or one of the host's.
pub enum AppSystem<X> {
    Aspect(AspectSystem),
    Custom(X),
}

impl<X: System<Frame, AspectEvent, AspectComponent>> System<
    Frame,
    AspectEvent,
    AspectComponent,
> for AppSystem<X> {
    /// The step of the system that is inside.
    open spec fn step(
        &self,
        input: &Frame,
        before: AspectView,
        later: &Self,
        after: AspectView,
    ) -> bool {
        match (*self, *later) {
            (AppSystem::Aspect(system), AppSystem::Aspect(moved)) => system.step(
                input,
                before,
                &moved,
                after,
            ),
            (AppSystem::Custom(system), AppSystem::Custom(moved)) => system.step(
                input,
                before,
                &moved,
                after,
            ),
            _ => false,
        }
    }

    fn run(&mut self, input: &Frame, world: &mut AspectWorld) {
        match self {
            AppSystem::Aspect(system) => {
                system.run(input, world);
            },
            AppSystem::Custom(system) => {
                system.run(input, world);
            },
        }
    }
}

/// Something that sets up its part of a program: declares its kinds and
/// registers its systems.
pub trait Plugin<X> {
    /// Whether `outcome` and the program `after` are what the plugin makes
    /// of the program `before`. A plugin that does not say what it does may
    /// do whatever a plugin can.
    open spec fn builds(
        &self,
        before: App<X>,
        after: App<X>,
        outcome: Result<(), ConfigurationError>,
    ) -> bool {
        true
    }

    fn build(&self, app: &mut App<X>) -> (outcome: Result<(), ConfigurationError>)
        requires
            old(app).wf(),
        ensures
            final(app).wf(),
            self.builds(*old(app), *final(app), outcome),
    ;
}

/// A program that is being set up: plugins and the host declare kinds and
/// register systems. No tick runs before the setup is finished.
pub struct App<X> {
    world: AspectWorld,
    builder: ScheduleBuilder<AppSystem<X>>,
    kinds: Kinds,
}

impl<X> App<X> {
    /// The program's world.
    pub closed spec fn world_view(&self) -> AspectView {
        self.world@
    }

    /// The numbers of the kinds declared so far.
    pub closed spec fn kinds(&self) -> Kinds {
        self.kinds
    }

    /// The names and "runs after" declarations of the systems registered so
    /// far.
    pub closed spec fn constraints(&self) -> crate::schedule::Constraints {
        self.builder.constraints()
    }

    /// The systems registered so far.
    pub closed spec fn systems(&self) -> Seq<AppSystem<X>> {
        self.builder.systems()
    }

    pub open spec fn system_count(&self) -> nat {
        self.systems().len()
    }

    pub closed spec fn wf(&self) -> bool {
        &&& self.world.wf()
        &&& self.builder.wf()
    }

    /// Whether the event kind has been declared.
    pub open spec fn event_taken(&self, which: EventName) -> bool {
        self.world_view().declares_event(event_name(which))
    }

    /// Whether the component kind has been declared.
    pub open spec fn component_taken(&self, which: ComponentName) -> bool {
        self.world_view().committed.store.declares(component_name(which))
    }

    /// A program without kinds, systems or entities.
    pub fn new() -> (app: Self)
        ensures
            app.wf(),
            app.system_count() == 0,
            forall|which: EventName| !app.event_taken(which),
            forall|which: ComponentName| !app.component_taken(which),
            forall|which: EventName| app.kinds().event(which) is None,
            forall|which: ComponentName| app.kinds().component(which) is None,
            app.world_view().ticks == 0,
            app.world_view().committed.slots == Seq::<crate::entity::Slot>::empty(),
            app.world_view().committed.store.kinds == Seq::<Seq<char>>::empty(),
            app.world_view().committed.store.cells == Map::<
                (usize, usize),
                crate::component::Stored<AspectComponent>,
            >::empty(),
            app.world_view().commands == Seq::<crate::command::Command<AspectComponent>>::empty(),
            app.world_view().channels == Seq::<crate::event::ChannelView<AspectEvent>>::empty(),
            app.world_view().event_kinds == Seq::<Seq<char>>::empty(),
            app.constraints().names == Seq::<Seq<char>>::empty(),
            app.constraints().after == Seq::<Seq<Seq<char>>>::empty(),
            app.systems() == Seq::<AppSystem<X>>::empty(),
    {
        App { world: World::new(), builder: ScheduleBuilder::new(), kinds: Kinds::new() }
    }

    /// The world, to read.
    pub fn world(&self) -> (world: &AspectWorld)
        ensures
            world@ == self.world_view(),
            self.wf() ==> world.wf(),
    {
        &self.world
    }

    /// The numbers of the kinds declared so far.
    pub fn kind_table(&self) -> (kinds: Kinds)
        ensures
            kinds == self.kinds(),
    {
        self.kinds
    }

    /// Whether the event kind has been declared.
    pub fn event_declared(&self, which: EventName) -> (taken: bool)
        ensures
            taken == self.event_taken(which),
    {
        let name = event_name_of(which);
        self.world.event_kind(&name).is_some()
    }

    /// Whether the component kind has been declared.
    pub fn component_declared(&self, which: ComponentName) -> (taken: bool)
        ensures
            taken == self.component_taken(which),
    {
        let name = component_name_of(which);
        self.world.component_kind(&name).is_some()
    }

    /// Declares an event kind of the program, with an unbounded channel, and
    /// notes its number. A kind that is declared already is refused.
    pub fn add_event(&mut self, which: EventName) -> (outcome: Result<usize, ConfigurationError>)
        requires
            old(self).wf(),
        ensures
            final(self).wf(),
            match outcome {
                Ok(kind) => {
                    &&& !old(self).event_taken(which)
                    &&& kind == old(self).world_view().event_kinds.len()
                    &&& final(self).world_view() == old(self).world_view().with_event_kind(
                        event_name(which),
                        None,
                    )
                    &&& final(self).kinds() == old(self).kinds().with_event(which, kind)
                    &&& final(self).constraints() == old(self).constraints()
                    &&& final(self).systems() == old(self).systems()
                    &&& forall|other: EventName|
                        final(self).event_taken(other) == (other == which
                            || old(self).event_taken(other))
                    &&& forall|other: ComponentName|
                        final(self).component_taken(other) == old(self).component_taken(other)
                },
                Err(e) => {
                    &&& old(self).event_taken(which)
                    &&& e == ConfigurationError::DuplicateKind
                    &&& *final(self) == *old(self)
                },
            },
    {
        let name = event_name_of(which);
        if self.world.event_kind(&name).is_some() {
            return Err(ConfigurationError::DuplicateKind);
        }
        match self.world.declare_event_kind(name, None) {
            Ok(kind) => {
                self.kinds.set_event(which, kind);
                proof {
                    lemma_names_differ();
                    let before = old(self).world_view().event_kinds;
                    assert(self.world_view().event_kinds == before.push(event_name(which)));
                    assert forall|other: EventName|
                        self.event_taken(other) == (other == which || old(self).event_taken(other)) by {
                        lemma_pushed_contains(before, event_name(which), event_name(other));
                    }
                }
                Ok(kind)
            },
            Err(e) => Err(e),
        }
    }

    /// Declares a component kind of the program and notes its number. A kind
    /// that is declared already is refused.
    pub fn add_component(&mut self, which: ComponentName) -> (outcome: Result<
        usize,
        ConfigurationError,
    >)
        requires
            old(self).wf(),
        ensures
            final(self).wf(),
            match outcome {
                Ok(kind) => {
                    &&& !old(self).component_taken(which)
                    &&& kind == old(self).world_view().committed.store.kinds.len()
                    &&& final(self).world_view() == old(self).world_view().with_component_kind(
                        component_name(which),
                    )
                    &&& final(self).kinds() == old(self).kinds().with_component(which, kind)
                    &&& final(self).constraints() == old(self).constraints()
                    &&& final(self).systems() == old(self).systems()
                    &&& forall|other: ComponentName|
                        final(self).component_taken(other) == (other == which
                            || old(self).component_taken(other))
                    &&& forall|other: EventName|
                        final(self).event_taken(other) == old(self).event_taken(other)
                },
                Err(e) => {
                    &&& old(self).component_taken(which)
                    &&& e == ConfigurationError::DuplicateKind
                    &&& *final(self) == *old(self)
                },
            },
    {
        let name = component_name_of(which);
        if self.world.component_kind(&name).is_some() {
            return Err(ConfigurationError::DuplicateKind);
        }
        match self.world.declare_component_kind(name) {
            Ok(kind) => {
                self.kinds.set_component(which, kind);
                proof {
                    lemma_names_differ();
                    let before = old(self).world_view().committed.store.kinds;
                    assert(self.world_view().committed.store.kinds == before.push(
                        component_name(which),
                    ));
                    assert forall|other: ComponentName|
                        self.component_taken(other) == (other == which
                            || old(self).component_taken(other)) by {
                        lemma_pushed_contains(before, component_name(which), component_name(other));
                    }
                }
                Ok(kind)
            },
            Err(e) => Err(e),
        }
    }

    /// Registers one of the plugins' systems under `name`, to run after the
    /// systems named in `after`. Returns the system's number.
    pub fn add_system(&mut self, name: String, after: Vec<String>, system: AspectSystem) -> (index:
        usize)
        requires
            old(self).wf(),
        ensures
            final(self).wf(),
            index == old(self).system_count(),
            final(self).constraints().names == old(self).constraints().names.push(name@),
            final(self).constraints().after == old(self).constraints().after.push(
                Seq::new(after@.len(), |j: int| after@[j]@),
            ),
            final(self).systems() == old(self).systems().push(AppSystem::Aspect(system)),
            final(self).world_view() == old(self).world_view(),
            final(self).kinds() == old(self).kinds(),
    {
        self.builder.register_system(name, after, AppSystem::Aspect(system))
    }

    /// Registers a system of the host's under `name`, to run after the
    /// systems named in `after`. Returns the system's number.
    pub fn add_custom_system(&mut self, name: String, after: Vec<String>, system: X) -> (index:
        usize)
        requires
            old(self).wf(),
        ensures
            final(self).wf(),
            index == old(self).system_count(),
            final(self).constraints().names == old(self).constraints().names.push(name@),
            final(self).constraints().after == old(self).constraints().after.push(
                Seq::new(after@.len(), |j: int| after@[j]@),
            ),
            final(self).systems() == old(self).systems().push(AppSystem::Custom(system)),
            final(self).world_view() == old(self).world_view(),
            final(self).kinds() == old(self).kinds(),
    {
        self.builder.register_system(name, after, AppSystem::Custom(system))
    }

    /// Lets `plugin` set up its part of the program.
    pub fn add_plugin<Pl: Plugin<X>>(&mut self, plugin: &Pl) -> (outcome: Result<
        (),
        ConfigurationError,
    >)
        requires
            old(self).wf(),
        ensures
            final(self).wf(),
            plugin.builds(*old(self), *final(self), outcome),
    {
        plugin.build(self)
    }

    /// Finishes the setup: resolves the order of the systems and hands over
    /// the program, ready to run. Fails when the "runs after" declarations
    /// form a cycle.
    pub fn finish(self) -> (outcome: Result<Running<X>, ConfigurationError>)
        requires
            self.wf(),
        ensures
            match outcome {
                Ok(running) => {
                    &&& running.wf()
                    &&& running.world_view() == self.world_view()
                    &&& running.kinds() == self.kinds()
                    &&& running.constraints() == self.constraints()
                    &&& running.systems() == self.systems()
                    &&& self.constraints().is_resolved_order(running.order())
                },
                Err(e) => e == ConfigurationError::CyclicOrder && !self.constraints().schedulable(),
            },
    {
        match self.builder.close() {
            Ok(schedule) => Ok(Running { world: self.world, schedule, kinds: self.kinds }),
            Err(e) => Err(e),
        }
    }
}

/// A program whose setup is finished: it runs tick by tick.
pub struct Running<X> {
    world: AspectWorld,
    schedule: Schedule<AppSystem<X>>,
    kinds: Kinds,
}

impl<X> Running<X> {
    /// The program's world.
    pub closed spec fn world_view(&self) -> AspectView {
        self.world@
    }

    /// The numbers of the declared kinds.
    pub closed spec fn kinds(&self) -> Kinds {
        self.kinds
    }

    /// The names and "runs after" declarations of the systems.
    pub closed spec fn constraints(&self) -> crate::schedule::Constraints {
        self.schedule.constraints()
    }

    /// The numbers of the systems in the order in which every tick runs them.
    pub closed spec fn order(&self) -> Seq<usize> {
        self.schedule.order()
    }

    /// The systems as they stand, in the order of registration.
    pub closed spec fn systems(&self) -> Seq<AppSystem<X>> {
        self.schedule.systems()
    }

    pub closed spec fn wf(&self) -> bool {
        &&& self.world.wf()
        &&& self.schedule.wf()
    }

    /// The world, to read.
    pub fn world(&self) -> (world: &AspectWorld)
        ensures
            world@ == self.world_view(),
            self.wf() ==> world.wf(),
    {
        &self.world
    }

    /// The numbers of the declared kinds.
    pub fn kind_table(&self) -> (kinds: Kinds)
        ensures
            kinds == self.kinds(),
    {
        self.kinds
    }

    /// The number of the system that runs at `position` of every tick.
    pub fn system_at(&self, position: usize) -> (index: Option<usize>)
        ensures
            index == if position < self.order().len() {
                Some(self.order()[position as int])
            } else {
                None
            },
    {
        self.schedule.system_at(position)
    }

    /// Whether the tick counter has room for another update.
    pub fn can_update(&self) -> (ok: bool)
        ensures
            ok == (self.world_view().ticks < u64::MAX),
    {
        self.world.can_tick()
    }

    /// Sends an event from outside the systems, between two updates. Returns
    /// whether the event went out: its kind is declared and its channel has
    /// room.
    pub fn send_event(&mut self, which: EventName, event: AspectEvent) -> (sent: bool)
        requires
            old(self).wf(),
        ensures
            final(self).wf(),
            final(self).world_view() == delivered(
                old(self).world_view(),
                old(self).kinds().event(which),
                event,
            ),
            final(self).kinds() == old(self).kinds(),
            final(self).constraints() == old(self).constraints(),
            final(self).order() == old(self).order(),
            final(self).systems() == old(self).systems(),
    {
        let kind = self.kinds.event_kind(which);
        deliver(&mut self.world, kind, event)
    }

    /// Runs one tick of the program with the keys that went down since the
    /// last one: every system once in the resolved order, then the sync
    /// point, then the event channels move on. Returns the diagnostics of the
    /// commands that the sync point dropped.
    pub fn update(&mut self, keys: &KeyInput) -> (dropped: Vec<Diagnostic>) where
        X: System<Frame, AspectEvent, AspectComponent>,

        requires
            old(self).wf(),
            old(self).world_view().ticks < u64::MAX,
        ensures
            final(self).wf(),
            final(self).kinds() == old(self).kinds(),
            final(self).constraints() == old(self).constraints(),
            final(self).order() == old(self).order(),
            final(self).world_view().ticks == old(self).world_view().ticks + 1,
            final(self).world_view().commands == Seq::<
                crate::command::Command<AspectComponent>,
            >::empty(),
            exists|stages: Seq<crate::schedule::Stage<AppSystem<X>, AspectEvent, AspectComponent>>|
                {
                    &&& #[trigger] crate::schedule::is_run(
                        old(self).order(),
                        &(Frame { keys: *keys, kinds: old(self).kinds() }),
                        stages,
                    )
                    &&& stages[0] == (crate::schedule::Stage {
                        systems: old(self).systems(),
                        world: old(self).world_view(),
                    })
                    &&& stages.last().systems == final(self).systems()
                    &&& stages.last().world.extends(old(self).world_view())
                    &&& final(self).world_view() == stages.last().world.synced().advanced()
                    &&& dropped@ == stages.last().world.committed.diagnostics(
                        stages.last().world.commands,
                    )
                },
    {
        let frame = Frame { keys: *keys, kinds: self.kinds };
        self.schedule.tick(&frame, &mut self.world)
    }
}

} // verus!
