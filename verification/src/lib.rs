//! An entity-component core with deferred structural mutation, buffered event
//! channels and a dependency-ordered tick scheduler, and on top of it a small
//! program in which independent aspects attach what is theirs to the
//! entities that an entity creator spawns.

pub mod audio_aspect;
pub mod command;
pub mod component;
pub mod entity;
pub mod entity_creator;
pub mod error;
pub mod event;
pub mod graphics_aspect;
pub mod input;
pub mod kinds;
pub mod laws;
pub mod program;
pub mod schedule;
pub mod world;
