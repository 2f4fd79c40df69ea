//! The audio aspect: the event by which an entity asks for audio.

use crate::entity::EntityId;
use crate::error::ConfigurationError;
use crate::kinds::{component_name, event_name, ComponentName, EventName};
use crate::program::{App, AspectComponent, AspectEvent, Frame, Plugin};
use crate::schedule::System;
use vstd::prelude::*;

verus! {

/// Marks an entity that has the audio aspect.
#[derive(Clone, Copy, Debug, PartialEq, Eq, Structural)]
pub struct AudioAspectComponent;

/// The sort of audio that an entity asks for.
#[derive(Clone, Copy, Debug, PartialEq, Eq, Structural)]
pub struct AudioAspectType;

impl Default for AudioAspectType {
    fn default() -> (audiotype: Self)
        ensures
            audiotype == AudioAspectType,
    {
        AudioAspectType
    }
}

/// Asks the audio aspect to take care of an entity.
#[derive(Clone, Copy, Debug, PartialEq, Eq, Structural)]
pub struct CreateAudioAspectEvent {
    /// The entity that aspires to the aspect.
    pub entity: Option<EntityId>,
    pub audiotype: AudioAspectType,
}

impl Default for CreateAudioAspectEvent {
    fn default() -> (event: Self)
        ensures
            event == (CreateAudioAspectEvent { entity: None, audiotype: AudioAspectType }),
    {
        CreateAudioAspectEvent { entity: None, audiotype: AudioAspectType::default() }
    }
}

/// The plugin of the audio aspect.
#[derive(Clone, Copy, Debug, PartialEq, Eq, Structural)]
pub struct AudioAspect;

impl<X: System<Frame, AspectEvent, AspectComponent>> Plugin<X> for AudioAspect {
    /// Whether `outcome` and the program `after` are what the plugin makes
    /// of the program `before`.
    open spec fn builds(
        &self,
        before: App<X>,
        after: App<X>,
        outcome: Result<(), ConfigurationError>,
    ) -> bool {
        &&& outcome is Ok <==> {
            &&& !before.component_taken(ComponentName::AudioAspect)
            &&& !before.event_taken(EventName::CreateAudioAspect)
        }
        &&& outcome is Ok ==> {
            &&& after.world_view() == before.world_view().with_component_kind(
                component_name(ComponentName::AudioAspect),
            ).with_event_kind(event_name(EventName::CreateAudioAspect), None)
            &&& after.kinds() == before.kinds().with_component(
                ComponentName::AudioAspect,
                before.world_view().committed.store.kinds.len() as usize,
            ).with_event(
                EventName::CreateAudioAspect,
                before.world_view().event_kinds.len() as usize,
            )
            &&& after.constraints() == before.constraints()
            &&& after.systems() == before.systems()
        }
        &&& outcome is Ok ==> forall|other: EventName|
            after.event_taken(other) == (other == EventName::CreateAudioAspect
                || before.event_taken(other))
        &&& outcome is Ok ==> forall|other: ComponentName|
            after.component_taken(other) == (other == ComponentName::AudioAspect
                || before.component_taken(other))
        &&& outcome is Err ==> after == before && outcome == Err::<(), ConfigurationError>(
            ConfigurationError::DuplicateKind,
        )
    }

    /// Declares the aspect's component kind and the kind of its creation
    /// event. Fails, with the program left as it was, when one of the kinds
    /// has been declared before.
    fn build(&self, app: &mut App<X>) -> (outcome: Result<(), ConfigurationError>) {
        if app.component_declared(ComponentName::AudioAspect) || app.event_declared(
            EventName::CreateAudioAspect,
        ) {
            return Err(ConfigurationError::DuplicateKind);
        }
        let _ = app.add_component(ComponentName::AudioAspect);
        let _ = app.add_event(EventName::CreateAudioAspect);
        Ok(())
    }
}

} // verus!
