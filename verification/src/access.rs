//! Access sets: which component types a system reads and which it writes.

use vstd::prelude::*;
use crate::component::ComponentKind;
use crate::component::KindSet;

verus! {

/// The component types that a system reads and those that it writes.
#[derive(Clone, Copy, Debug, PartialEq, Eq, Structural)]
pub struct AccessSet {
    pub reads: KindSet,
    pub writes: KindSet,
}

impl AccessSet {
    /// Whether the system reads or writes `kind`.
    pub open spec fn touches(self, kind: ComponentKind) -> bool {
        self.reads.has(kind) || self.writes.has(kind)
    }

    /// Whether the two systems clash on `kind`: one writes it and the other
    /// reads or writes it.
    pub open spec fn conflicts_on(self, other: AccessSet, kind: ComponentKind) -> bool {
        (self.writes.has(kind) && other.touches(kind)) || (other.writes.has(kind) && self.touches(
            kind,
        ))
    }

    /// Whether the two systems clash on some component type. Systems that
    /// only read a type never clash on it.
    pub open spec fn conflicts_with(self, other: AccessSet) -> bool {
        exists|kind: ComponentKind| self.conflicts_on(other, kind)
    }

    /// The first type, in the order of declaration of `ComponentKind`, that
    /// the system touches and that is not in `registered`.
    pub open spec fn missing_from(self, registered: KindSet) -> Option<ComponentKind> {
        if self.touches(ComponentKind::Pos) && !registered.pos {
            Some(ComponentKind::Pos)
        } else if self.touches(ComponentKind::Vel) && !registered.vel {
            Some(ComponentKind::Vel)
        } else if self.touches(ComponentKind::Force) && !registered.force {
            Some(ComponentKind::Force)
        } else if self.touches(ComponentKind::Attraction) && !registered.attraction {
            Some(ComponentKind::Attraction)
        } else if self.touches(ComponentKind::Ren) && !registered.ren {
            Some(ComponentKind::Ren)
        } else {
            None
        }
    }

    /// Nothing is missing exactly where every touched type is registered.
    pub proof fn lemma_missing_from(self, registered: KindSet)
        ensures
            self.missing_from(registered).is_none() <==> forall|k: ComponentKind|
                self.touches(k) ==> registered.has(k),
            self.missing_from(registered).is_some() ==> self.touches(
                self.missing_from(registered).unwrap(),
            ) && !registered.has(self.missing_from(registered).unwrap()),
    {
        if self.missing_from(registered).is_none() {
            assert forall|k: ComponentKind| self.touches(k) implies registered.has(k) by {
                match k {
                    ComponentKind::Pos => {},
                    ComponentKind::Vel => {},
                    ComponentKind::Force => {},
                    ComponentKind::Attraction => {},
                    ComponentKind::Ren => {},
                }
            }
        }
    }

    /// Whether the system reads or writes `kind`.
    pub fn uses(&self, kind: ComponentKind) -> (b: bool)
        ensures
            b == self.touches(kind),
    {
        self.reads.contains(kind) || self.writes.contains(kind)
    }

    /// Whether the two systems clash on `kind`.
    pub fn clashes_on(&self, other: &AccessSet, kind: ComponentKind) -> (b: bool)
        ensures
            b == self.conflicts_on(*other, kind),
    {
        (self.writes.contains(kind) && other.uses(kind)) || (other.writes.contains(kind)
            && self.uses(kind))
    }

    /// Whether the two systems clash on some component type.
    pub fn conflicts(&self, other: &AccessSet) -> (b: bool)
        ensures
            b == self.conflicts_with(*other),
    {
        let b = self.clashes_on(other, ComponentKind::Pos) || self.clashes_on(
            other,
            ComponentKind::Vel,
        ) || self.clashes_on(other, ComponentKind::Force) || self.clashes_on(
            other,
            ComponentKind::Attraction,
        ) || self.clashes_on(other, ComponentKind::Ren);
        proof {
            if self.conflicts_with(*other) {
                let k = choose|k: ComponentKind| self.conflicts_on(*other, k);
                match k {
                    ComponentKind::Pos => {},
                    ComponentKind::Vel => {},
                    ComponentKind::Force => {},
                    ComponentKind::Attraction => {},
                    ComponentKind::Ren => {},
                }
            }
        }
        b
    }

    /// The first touched type that is not in `registered`, if there is one.
    pub fn first_unregistered(&self, registered: &KindSet) -> (r: Option<ComponentKind>)
        ensures
            r == self.missing_from(*registered),
    {
        if self.uses(ComponentKind::Pos) && !registered.pos {
            Some(ComponentKind::Pos)
        } else if self.uses(ComponentKind::Vel) && !registered.vel {
            Some(ComponentKind::Vel)
        } else if self.uses(ComponentKind::Force) && !registered.force {
            Some(ComponentKind::Force)
        } else if self.uses(ComponentKind::Attraction) && !registered.attraction {
            Some(ComponentKind::Attraction)
        } else if self.uses(ComponentKind::Ren) && !registered.ren {
            Some(ComponentKind::Ren)
        } else {
            None
        }
    }
}

} // verus!
