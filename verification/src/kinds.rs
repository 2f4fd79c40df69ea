//! The kinds of components and events that the program knows, the names
//! under which they are declared, and the table of their numbers.

use vstd::prelude::*;

verus! {

/// Names the component kinds of the program.
#[derive(Clone, Copy, Debug, PartialEq, Eq, Structural)]
pub enum ComponentName {
    EntityCreator,
    AudioAspect,
    GraphicsAspect,
}

/// Names the event kinds of the program.
#[derive(Clone, Copy, Debug, PartialEq, Eq, Structural)]
pub enum EventName {
    CreateAudioAspect,
    CreateGraphicsAspect,
    OtherGraphicsAspect,
    RemoveEntityCreatorComponent,
    DespawnEntities,
}

/// The name under which a component kind is declared.
pub open spec fn component_name(which: ComponentName) -> Seq<char> {
    match which {
        ComponentName::EntityCreator => "EntityCreatorComponent"@,
        ComponentName::AudioAspect => "AudioAspectComponent"@,
        ComponentName::GraphicsAspect => "GraphicsAspectComponent"@,
    }
}

/// The name under which an event kind is declared.
pub open spec fn event_name(which: EventName) -> Seq<char> {
    match which {
        EventName::CreateAudioAspect => "CreateAudioAspectEvent"@,
        EventName::CreateGraphicsAspect => "CreateGraphicsAspectEvent"@,
        EventName::OtherGraphicsAspect => "OtherGraphicsAspectEvent"@,
        EventName::RemoveEntityCreatorComponent => "RemoveEntityCreatorComponentEvent"@,
        EventName::DespawnEntities => "DespawnEntitiesEvent"@,
    }
}

/// The numbers under which the program's kinds were declared, as far as they
/// have been declared.
#[derive(Clone, Copy, Debug)]
pub struct Kinds {
    pub entity_creator: Option<usize>,
    pub audio_aspect: Option<usize>,
    pub graphics_aspect: Option<usize>,
    pub create_audio: Option<usize>,
    pub create_graphics: Option<usize>,
    pub other_graphics: Option<usize>,
    pub remove_entity_creator: Option<usize>,
    pub despawn_entities: Option<usize>,
}

impl Kinds {
    /// The table of a program that has declared nothing.
    pub fn new() -> (kinds: Self)
        ensures
            forall|which: ComponentName| kinds.component(which) is None,
            forall|which: EventName| kinds.event(which) is None,
    {
        Kinds {
            entity_creator: None,
            audio_aspect: None,
            graphics_aspect: None,
            create_audio: None,
            create_graphics: None,
            other_graphics: None,
            remove_entity_creator: None,
            despawn_entities: None,
        }
    }

    /// The number of a component kind.
    pub open spec fn component(self, which: ComponentName) -> Option<usize> {
        match which {
            ComponentName::EntityCreator => self.entity_creator,
            ComponentName::AudioAspect => self.audio_aspect,
            ComponentName::GraphicsAspect => self.graphics_aspect,
        }
    }

    /// The number of an event kind.
    pub open spec fn event(self, which: EventName) -> Option<usize> {
        match which {
            EventName::CreateAudioAspect => self.create_audio,
            EventName::CreateGraphicsAspect => self.create_graphics,
            EventName::OtherGraphicsAspect => self.other_graphics,
            EventName::RemoveEntityCreatorComponent => self.remove_entity_creator,
            EventName::DespawnEntities => self.despawn_entities,
        }
    }

    /// The table with the number of one component kind set.
    pub open spec fn with_component(self, which: ComponentName, kind: usize) -> Self {
        match which {
            ComponentName::EntityCreator => Kinds { entity_creator: Some(kind), ..self },
            ComponentName::AudioAspect => Kinds { audio_aspect: Some(kind), ..self },
            ComponentName::GraphicsAspect => Kinds { graphics_aspect: Some(kind), ..self },
        }
    }

    /// The table with the number of one event kind set.
    pub open spec fn with_event(self, which: EventName, kind: usize) -> Self {
        match which {
            EventName::CreateAudioAspect => Kinds { create_audio: Some(kind), ..self },
            EventName::CreateGraphicsAspect => Kinds { create_graphics: Some(kind), ..self },
            EventName::OtherGraphicsAspect => Kinds { other_graphics: Some(kind), ..self },
            EventName::RemoveEntityCreatorComponent => Kinds {
                remove_entity_creator: Some(kind),
                ..self
            },
            EventName::DespawnEntities => Kinds { despawn_entities: Some(kind), ..self },
        }
    }

    /// Sets the number of one component kind.
    pub fn set_component(&mut self, which: ComponentName, kind: usize)
        ensures
            *final(self) == old(self).with_component(which, kind),
    {
        match which {
            ComponentName::EntityCreator => {
                self.entity_creator = Some(kind);
            },
            ComponentName::AudioAspect => {
                self.audio_aspect = Some(kind);
            },
            ComponentName::GraphicsAspect => {
                self.graphics_aspect = Some(kind);
            },
        }
    }

    /// Sets the number of one event kind.
    pub fn set_event(&mut self, which: EventName, kind: usize)
        ensures
            *final(self) == old(self).with_event(which, kind),
    {
        match which {
            EventName::CreateAudioAspect => {
                self.create_audio = Some(kind);
            },
            EventName::CreateGraphicsAspect => {
                self.create_graphics = Some(kind);
            },
            EventName::OtherGraphicsAspect => {
                self.other_graphics = Some(kind);
            },
            EventName::RemoveEntityCreatorComponent => {
                self.remove_entity_creator = Some(kind);
            },
            EventName::DespawnEntities => {
                self.despawn_entities = Some(kind);
            },
        }
    }

    /// The number of an event kind, if it is declared.
    pub fn event_kind(&self, which: EventName) -> (kind: Option<usize>)
        ensures
            kind == self.event(which),
    {
        match which {
            EventName::CreateAudioAspect => self.create_audio,
            EventName::CreateGraphicsAspect => self.create_graphics,
            EventName::OtherGraphicsAspect => self.other_graphics,
            EventName::RemoveEntityCreatorComponent => self.remove_entity_creator,
            EventName::DespawnEntities => self.despawn_entities,
        }
    }

    /// The number of a component kind, if it is declared.
    pub fn component_kind(&self, which: ComponentName) -> (kind: Option<usize>)
        ensures
            kind == self.component(which),
    {
        match which {
            ComponentName::EntityCreator => self.entity_creator,
            ComponentName::AudioAspect => self.audio_aspect,
            ComponentName::GraphicsAspect => self.graphics_aspect,
        }
    }
}

/// The names of the program's kinds are all different.
pub proof fn lemma_names_differ()
    ensures
        forall|a: EventName, b: EventName| a != b ==> event_name(a) != event_name(b),
        forall|a: ComponentName, b: ComponentName| a != b ==> component_name(a) != component_name(b),
{
    reveal_strlit("CreateAudioAspectEvent");
    reveal_strlit("CreateGraphicsAspectEvent");
    reveal_strlit("OtherGraphicsAspectEvent");
    reveal_strlit("RemoveEntityCreatorComponentEvent");
    reveal_strlit("DespawnEntitiesEvent");
    reveal_strlit("EntityCreatorComponent");
    reveal_strlit("AudioAspectComponent");
    reveal_strlit("GraphicsAspectComponent");
    assert forall|a: EventName, b: EventName| a != b implies event_name(a) != event_name(b) by {
        assert(event_name(a).len() != event_name(b).len());
    }
    assert forall|a: ComponentName, b: ComponentName| a != b implies component_name(a)
        != component_name(b) by {
        assert(component_name(a).len() != component_name(b).len());
    }
}

/// A list with one more name holds what it held and the new name.
pub proof fn lemma_pushed_contains(names: Seq<Seq<char>>, pushed: Seq<char>, sought: Seq<char>)
    ensures
        (exists|k: int| 0 <= k < names.push(pushed).len() && names.push(pushed)[k] == sought) <==> (
        sought == pushed || exists|k: int| 0 <= k < names.len() && names[k] == sought),
{
    let longer = names.push(pushed);
    if exists|k: int| 0 <= k < longer.len() && longer[k] == sought {
        let k = choose|k: int| 0 <= k < longer.len() && longer[k] == sought;
        if k < names.len() {
            assert(names[k] == sought);
        }
    }
    if sought == pushed {
        assert(longer[names.len() as int] == sought);
    }
    if exists|k: int| 0 <= k < names.len() && names[k] == sought {
        let k = choose|k: int| 0 <= k < names.len() && names[k] == sought;
        assert(longer[k] == sought);
    }
}

/// The name under which a component kind is declared.
pub fn component_name_of(which: ComponentName) -> (name: String)
    ensures
        name@ == component_name(which),
{
    match which {
        ComponentName::EntityCreator => "EntityCreatorComponent".to_owned(),
        ComponentName::AudioAspect => "AudioAspectComponent".to_owned(),
        ComponentName::GraphicsAspect => "GraphicsAspectComponent".to_owned(),
    }
}

/// The name under which an event kind is declared.
pub fn event_name_of(which: EventName) -> (name: String)
    ensures
        name@ == event_name(which),
{
    match which {
        EventName::CreateAudioAspect => "CreateAudioAspectEvent".to_owned(),
        EventName::CreateGraphicsAspect => "CreateGraphicsAspectEvent".to_owned(),
        EventName::OtherGraphicsAspect => "OtherGraphicsAspectEvent".to_owned(),
        EventName::RemoveEntityCreatorComponent => "RemoveEntityCreatorComponentEvent".to_owned(),
        EventName::DespawnEntities => "DespawnEntitiesEvent".to_owned(),
    }
}

} // verus!
