//! Configuration errors.

use vstd::prelude::*;
use crate::component::ComponentKind;
use crate::entity::Entity;

verus! {

/// A mistake in how the simulation was set up. Each is reported to the
/// caller that made it, before any tick runs.
#[derive(Clone, Copy, Debug, PartialEq, Eq, Structural)]
pub enum ConfigError {
    /// The component type was registered before.
    AlreadyRegistered(ComponentKind),
    /// The component type was used without having been registered.
    UnregisteredComponent(ComponentKind),
    /// The entity was never created by this world.
    UnknownEntity(Entity),
    /// The system's access set conflicts with that of the system at position
    /// `with` of the schedule, which runs in the same stage.
    AccessConflict { with: usize },
}

} // verus!
