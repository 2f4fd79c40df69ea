//! The errors that the core reports.

use crate::entity::EntityId;
use vstd::prelude::*;

verus! {

/// A mistake in the setup, found before the first tick runs.
#[derive(Clone, Copy, Debug, PartialEq, Eq, Structural)]
pub enum ConfigurationError {
    /// The "runs after" constraints of the registered systems form a cycle,
    /// so no order can honour all of them.
    CyclicOrder,
    /// A component or event kind was declared twice under one name.
    DuplicateKind,
}

/// Why a command was dropped at a sync point. None of these stops a tick.
#[derive(Clone, Copy, Debug, PartialEq, Eq, Structural)]
pub enum Diagnostic {
    /// The command named an entity that is not alive, or asked to bring to
    /// life an identifier that is not reserved.
    StaleReference(EntityId),
    /// A detach found its entity alive, but without a component of the kind.
    NotFound(EntityId, usize),
    /// An attach named a component kind that was never declared.
    UnknownKind(EntityId, usize),
}

/// The answer to a lookup or a removal of a component that is not there.
#[derive(Clone, Copy, Debug, PartialEq, Eq, Structural)]
pub struct NotFound;

} // verus!
