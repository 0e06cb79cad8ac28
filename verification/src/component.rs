//! The component types of the simulation.

use vstd::prelude::*;
use crate::vec2::Vec2;

verus! {

/// The current location of an entity.
#[derive(Clone, Copy, Debug, PartialEq, Eq, Structural)]
pub struct Pos(pub Vec2);

/// The change of an entity's position per tick.
#[derive(Clone, Copy, Debug, PartialEq, Eq, Structural)]
pub struct Vel(pub Vec2);

/// The force gathered on an entity. It is never reset: it accumulates over
/// the entity's whole life.
#[derive(Clone, Copy, Debug, PartialEq, Eq, Structural)]
pub struct Force(pub Vec2);

/// A fixed point toward which the attraction law relates an entity.
#[derive(Clone, Copy, Debug, PartialEq, Eq, Structural)]
pub struct Attraction(pub Vec2);

/// Marks an entity as one to be drawn.
#[derive(Clone, Copy, Debug, PartialEq, Eq, Structural)]
pub struct Ren;

/// Names a component type.
#[derive(Clone, Copy, Debug, PartialEq, Eq, Structural)]
pub enum ComponentKind {
    Pos,
    Vel,
    Force,
    Attraction,
    Ren,
}

/// One component value of any type.
#[derive(Clone, Copy, Debug, PartialEq, Eq, Structural)]
pub enum Component {
    Pos(Pos),
    Vel(Vel),
    Force(Force),
    Attraction(Attraction),
    Ren(Ren),
}

impl Component {
    /// The type of this component value.
    pub open spec fn spec_kind(self) -> ComponentKind {
        match self {
            Component::Pos(_) => ComponentKind::Pos,
            Component::Vel(_) => ComponentKind::Vel,
            Component::Force(_) => ComponentKind::Force,
            Component::Attraction(_) => ComponentKind::Attraction,
            Component::Ren(_) => ComponentKind::Ren,
        }
    }

    /// The type of this component value.
    pub fn kind(&self) -> (k: ComponentKind)
        ensures
            k == self.spec_kind(),
    {
        match self {
            Component::Pos(_) => ComponentKind::Pos,
            Component::Vel(_) => ComponentKind::Vel,
            Component::Force(_) => ComponentKind::Force,
            Component::Attraction(_) => ComponentKind::Attraction,
            Component::Ren(_) => ComponentKind::Ren,
        }
    }
}

/// A set of component types.
#[derive(Clone, Copy, Debug, PartialEq, Eq, Structural)]
pub struct KindSet {
    pub pos: bool,
    pub vel: bool,
    pub force: bool,
    pub attraction: bool,
    pub ren: bool,
}

impl KindSet {
    /// Whether `kind` belongs to the set.
    pub open spec fn has(self, kind: ComponentKind) -> bool {
        match kind {
            ComponentKind::Pos => self.pos,
            ComponentKind::Vel => self.vel,
            ComponentKind::Force => self.force,
            ComponentKind::Attraction => self.attraction,
            ComponentKind::Ren => self.ren,
        }
    }

    /// The set without members.
    pub fn empty() -> (s: KindSet)
        ensures
            forall|k: ComponentKind| !s.has(k),
    {
        KindSet { pos: false, vel: false, force: false, attraction: false, ren: false }
    }

    /// Whether `kind` belongs to the set.
    pub fn contains(&self, kind: ComponentKind) -> (b: bool)
        ensures
            b == self.has(kind),
    {
        match kind {
            ComponentKind::Pos => self.pos,
            ComponentKind::Vel => self.vel,
            ComponentKind::Force => self.force,
            ComponentKind::Attraction => self.attraction,
            ComponentKind::Ren => self.ren,
        }
    }

    /// The set with `kind` added.
    pub fn with(self, kind: ComponentKind) -> (s: KindSet)
        ensures
            forall|k: ComponentKind| s.has(k) == (k == kind || self.has(k)),
    {
        let mut s = self;
        match kind {
            ComponentKind::Pos => { s.pos = true; },
            ComponentKind::Vel => { s.vel = true; },
            ComponentKind::Force => { s.force = true; },
            ComponentKind::Attraction => { s.attraction = true; },
            ComponentKind::Ren => { s.ren = true; },
        }
        s
    }
}

} // verus!
