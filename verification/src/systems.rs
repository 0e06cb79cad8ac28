//! The physics pipeline: attraction, reaction and movement.
//!
//! Each system visits the entities that hold every component it works on,
//! in increasing order of index, and passes the others over. A value that
//! leaves the range of the scalars cannot be stored: the system stops at
//! that entity, reports it, and leaves it and all later entities as they
//! were.

use vstd::prelude::*;
use crate::access::AccessSet;
use crate::commit::applied;
use crate::commit::commit;
use crate::commit::first_failure;
use crate::commit::proposal_map;
use crate::commit::lemma_proposal_map;
use crate::commit::lemma_proposal_index;
use crate::component::Attraction;
use crate::component::Force;
use crate::component::KindSet;
use crate::component::Pos;
use crate::component::Vel;
use crate::entity::Entity;
use crate::join::join2;
use crate::join::join3;
use crate::store::pair_keys;
use crate::vec2::Vec2;
use crate::world::World;
use crate::world::WorldView;

verus! {

/// The gain of the attraction law: one tenth.
pub const GAIN: i64 = 100_000;

/// How the run of a system ended.
#[derive(Clone, Copy, Debug, PartialEq, Eq, Structural)]
pub enum SystemOutcome {
    /// Every entity of the join was updated.
    Completed,
    /// The value for `entity` could not be stored; the system was skipped
    /// from there on.
    Failed { entity: Entity },
}

/// The outcome that goes with the first failure of a run, if there was one.
pub open spec fn outcome_of(failure: Option<Entity>) -> SystemOutcome {
    match failure {
        Some(entity) => SystemOutcome::Failed { entity },
        None => SystemOutcome::Completed,
    }
}

/// The force after attraction: `f + (p - a) * GAIN`.
pub open spec fn attract_value(f: Force, a: Attraction, p: Pos) -> Option<Force> {
    match p.0.spec_sub(a.0) {
        None => None,
        Some(d) => match d.spec_scale(GAIN, GAIN) {
            None => None,
            Some(g) => match f.0.spec_add(g) {
                None => None,
                Some(s) => Some(Force(s)),
            },
        },
    }
}

/// The velocity after reaction: `v + f`.
pub open spec fn react_value(v: Vel, f: Force) -> Option<Vel> {
    match v.0.spec_add(f.0) {
        None => None,
        Some(s) => Some(Vel(s)),
    }
}

/// The position after movement: `p + v`.
pub open spec fn move_value(p: Pos, v: Vel) -> Option<Pos> {
    match p.0.spec_add(v.0) {
        None => None,
        Some(s) => Some(Pos(s)),
    }
}

/// Adds to `f` the pull that the attraction law gives at `p` for the point `a`.
pub fn attracted(f: Force, a: Attraction, p: Pos) -> (r: Option<Force>)
    ensures
        r == attract_value(f, a, p),
{
    match p.0.checked_sub(a.0) {
        None => None,
        Some(d) => match d.scale_uni(GAIN) {
            None => None,
            Some(g) => match f.0.checked_add(g) {
                None => None,
                Some(s) => Some(Force(s)),
            },
        },
    }
}

/// Adds the force to the velocity.
pub fn reacted(v: Vel, f: Force) -> (r: Option<Vel>)
    ensures
        r == react_value(v, f),
{
    match v.0.checked_add(f.0) {
        None => None,
        Some(s) => Some(Vel(s)),
    }
}

/// Adds the velocity to the position.
pub fn moved(p: Pos, v: Vel) -> (r: Option<Pos>)
    ensures
        r == move_value(p, v),
{
    match p.0.checked_add(v.0) {
        None => None,
        Some(s) => Some(Pos(s)),
    }
}

/// Pulls on every entity that holds a force, an attraction point and a position.
#[derive(Clone, Copy, Debug, PartialEq, Eq, Structural)]
pub struct AttractSys;

/// Turns the force of every entity that holds a velocity and a force into velocity.
#[derive(Clone, Copy, Debug, PartialEq, Eq, Structural)]
pub struct ReactSys;

/// Moves every entity that holds a position and a velocity.
#[derive(Clone, Copy, Debug, PartialEq, Eq, Structural)]
pub struct MoveSys;

impl AttractSys {
    /// The new force of each entity of the join.
    pub open spec fn proposals(w: WorldView) -> Map<Entity, Option<Force>> {
        Map::new(
            |e: Entity|
                w.force.contains_key(e) && w.attraction.contains_key(e) && w.pos.contains_key(e),
            |e: Entity| attract_value(w.force[e], w.attraction[e], w.pos[e]),
        )
    }

    /// The world after a run.
    pub open spec fn spec_run(w: WorldView) -> WorldView {
        WorldView { force: applied(w.force, Self::proposals(w)), ..w }
    }

    /// How a run ends.
    pub open spec fn spec_outcome(w: WorldView) -> SystemOutcome {
        outcome_of(first_failure(Self::proposals(w)))
    }

    /// What a run reads and writes.
    pub open spec fn spec_access() -> AccessSet {
        AccessSet {
            reads: KindSet { pos: true, vel: false, force: false, attraction: true, ren: false },
            writes: KindSet { pos: false, vel: false, force: true, attraction: false, ren: false },
        }
    }

    /// What a run reads and writes.
    pub fn access(&self) -> (a: AccessSet)
        ensures
            a == Self::spec_access(),
    {
        AccessSet {
            reads: KindSet { pos: true, vel: false, force: false, attraction: true, ren: false },
            writes: KindSet { pos: false, vel: false, force: true, attraction: false, ren: false },
        }
    }

    /// Runs the system once over the world.
    pub fn run(&mut self, world: &mut World) -> (outcome: SystemOutcome)
        requires
            old(world)@.wf(),
        ensures
            final(world)@ == Self::spec_run(old(world)@),
            final(world)@.wf(),
            outcome == Self::spec_outcome(old(world)@),
    {
        let ghost w = world@;
        let mut list: Vec<(Entity, Option<Force>)> = Vec::new();
        let joined = join3(world.read_force(), world.read_attraction(), world.read_pos());
        let mut i: usize = 0;
        while i < joined.len()
            invariant
                i <= joined@.len(),
                list@.len() == i,
                world@ == w,
                forall|e: Entity|
                    joined@.contains(e) <==> w.force.contains_key(e) && w.attraction.contains_key(e)
                        && w.pos.contains_key(e),
                forall|k: int|
                    0 <= k < i ==> (#[trigger] list@[k]).0 == joined@[k] && list@[k].1
                        == attract_value(
                        w.force[joined@[k]],
                        w.attraction[joined@[k]],
                        w.pos[joined@[k]],
                    ),
            decreases joined@.len() - i,
        {
            let e = joined[i];
            assert(joined@.contains(e));
            match (world.read_force().get(e), world.read_attraction().get(e), world.read_pos().get(e)) {
                (Some(f), Some(a), Some(p)) => {
                    list.push((e, attracted(*f, *a, *p)));
                },
                _ => {
                    assert(false);
                },
            }
            i += 1;
        }
        proof {
            assert(pair_keys(list@) =~= joined@);
            assert forall|e: Entity| #[trigger]
                proposal_map(list@).contains_key(e) implies Self::proposals(w).contains_key(e)
                && proposal_map(list@)[e] == Self::proposals(w)[e] by {
                let k = lemma_proposal_index(list@, e);
                lemma_proposal_map(list@, k);
                assert(joined@.contains(joined@[k]));
            }
            assert(proposal_map(list@) =~= Self::proposals(w));
            assert forall|k: int| 0 <= k < list@.len() implies w.force.contains_key(
                (#[trigger] list@[k]).0,
            ) by {
                assert(joined@.contains(joined@[k]));
            }
        }
        let failed = commit(world.write_force(), &list);
        proof {
            assert(world@.force.dom() =~= w.force.dom());
            lemma_store_update_wf(w, world@);
        }
        match failed {
            Some(entity) => SystemOutcome::Failed { entity },
            None => SystemOutcome::Completed,
        }
    }
}

impl ReactSys {
    /// The new velocity of each entity of the join.
    pub open spec fn proposals(w: WorldView) -> Map<Entity, Option<Vel>> {
        Map::new(
            |e: Entity| w.vel.contains_key(e) && w.force.contains_key(e),
            |e: Entity| react_value(w.vel[e], w.force[e]),
        )
    }

    /// The world after a run.
    pub open spec fn spec_run(w: WorldView) -> WorldView {
        WorldView { vel: applied(w.vel, Self::proposals(w)), ..w }
    }

    /// How a run ends.
    pub open spec fn spec_outcome(w: WorldView) -> SystemOutcome {
        outcome_of(first_failure(Self::proposals(w)))
    }

    /// What a run reads and writes.
    pub open spec fn spec_access() -> AccessSet {
        AccessSet {
            reads: KindSet { pos: false, vel: false, force: true, attraction: false, ren: false },
            writes: KindSet { pos: false, vel: true, force: false, attraction: false, ren: false },
        }
    }

    /// What a run reads and writes.
    pub fn access(&self) -> (a: AccessSet)
        ensures
            a == Self::spec_access(),
    {
        AccessSet {
            reads: KindSet { pos: false, vel: false, force: true, attraction: false, ren: false },
            writes: KindSet { pos: false, vel: true, force: false, attraction: false, ren: false },
        }
    }

    /// Runs the system once over the world.
    pub fn run(&mut self, world: &mut World) -> (outcome: SystemOutcome)
        requires
            old(world)@.wf(),
        ensures
            final(world)@ == Self::spec_run(old(world)@),
            final(world)@.wf(),
            outcome == Self::spec_outcome(old(world)@),
    {
        let ghost w = world@;
        let mut list: Vec<(Entity, Option<Vel>)> = Vec::new();
        let joined = join2(world.read_vel(), world.read_force());
        let mut i: usize = 0;
        while i < joined.len()
            invariant
                i <= joined@.len(),
                list@.len() == i,
                world@ == w,
                forall|e: Entity|
                    joined@.contains(e) <==> w.vel.contains_key(e) && w.force.contains_key(e),
                forall|k: int|
                    0 <= k < i ==> (#[trigger] list@[k]).0 == joined@[k] && list@[k].1
                        == Self::proposals(w)[joined@[k]],
            decreases joined@.len() - i,
        {
            let e = joined[i];
            assert(joined@.contains(e));
            match (world.read_vel().get(e), world.read_force().get(e)) {
                (Some(t), Some(s)) => {
                    list.push((e, reacted(*t, *s)));
                },
                _ => {
                    assert(false);
                },
            }
            i += 1;
        }
        proof {
            assert(pair_keys(list@) =~= joined@);
            assert forall|e: Entity| #[trigger]
                proposal_map(list@).contains_key(e) implies Self::proposals(w).contains_key(e)
                && proposal_map(list@)[e] == Self::proposals(w)[e] by {
                let k = lemma_proposal_index(list@, e);
                lemma_proposal_map(list@, k);
                assert(joined@.contains(joined@[k]));
            }
            assert(proposal_map(list@) =~= Self::proposals(w));
            assert forall|k: int| 0 <= k < list@.len() implies w.vel.contains_key(
                (#[trigger] list@[k]).0,
            ) by {
                assert(joined@.contains(joined@[k]));
            }
        }
        let failed = commit(world.write_vel(), &list);
        proof {
            assert(world@.vel.dom() =~= w.vel.dom());
            lemma_store_update_wf(w, world@);
        }
        match failed {
            Some(entity) => SystemOutcome::Failed { entity },
            None => SystemOutcome::Completed,
        }
    }
}

impl MoveSys {
    /// The new position of each entity of the join.
    pub open spec fn proposals(w: WorldView) -> Map<Entity, Option<Pos>> {
        Map::new(
            |e: Entity| w.pos.contains_key(e) && w.vel.contains_key(e),
            |e: Entity| move_value(w.pos[e], w.vel[e]),
        )
    }

    /// The world after a run.
    pub open spec fn spec_run(w: WorldView) -> WorldView {
        WorldView { pos: applied(w.pos, Self::proposals(w)), ..w }
    }

    /// How a run ends.
    pub open spec fn spec_outcome(w: WorldView) -> SystemOutcome {
        outcome_of(first_failure(Self::proposals(w)))
    }

    /// What a run reads and writes.
    pub open spec fn spec_access() -> AccessSet {
        AccessSet {
            reads: KindSet { pos: false, vel: true, force: false, attraction: false, ren: false },
            writes: KindSet { pos: true, vel: false, force: false, attraction: false, ren: false },
        }
    }

    /// What a run reads and writes.
    pub fn access(&self) -> (a: AccessSet)
        ensures
            a == Self::spec_access(),
    {
        AccessSet {
            reads: KindSet { pos: false, vel: true, force: false, attraction: false, ren: false },
            writes: KindSet { pos: true, vel: false, force: false, attraction: false, ren: false },
        }
    }

    /// Runs the system once over the world.
    pub fn run(&mut self, world: &mut World) -> (outcome: SystemOutcome)
        requires
            old(world)@.wf(),
        ensures
            final(world)@ == Self::spec_run(old(world)@),
            final(world)@.wf(),
            outcome == Self::spec_outcome(old(world)@),
    {
        let ghost w = world@;
        let mut list: Vec<(Entity, Option<Pos>)> = Vec::new();
        let joined = join2(world.read_pos(), world.read_vel());
        let mut i: usize = 0;
        while i < joined.len()
            invariant
                i <= joined@.len(),
                list@.len() == i,
                world@ == w,
                forall|e: Entity|
                    joined@.contains(e) <==> w.pos.contains_key(e) && w.vel.contains_key(e),
                forall|k: int|
                    0 <= k < i ==> (#[trigger] list@[k]).0 == joined@[k] && list@[k].1
                        == Self::proposals(w)[joined@[k]],
            decreases joined@.len() - i,
        {
            let e = joined[i];
            assert(joined@.contains(e));
            match (world.read_pos().get(e), world.read_vel().get(e)) {
                (Some(t), Some(s)) => {
                    list.push((e, moved(*t, *s)));
                },
                _ => {
                    assert(false);
                },
            }
            i += 1;
        }
        proof {
            assert(pair_keys(list@) =~= joined@);
            assert forall|e: Entity| #[trigger]
                proposal_map(list@).contains_key(e) implies Self::proposals(w).contains_key(e)
                && proposal_map(list@)[e] == Self::proposals(w)[e] by {
                let k = lemma_proposal_index(list@, e);
                lemma_proposal_map(list@, k);
                assert(joined@.contains(joined@[k]));
            }
            assert(proposal_map(list@) =~= Self::proposals(w));
            assert forall|k: int| 0 <= k < list@.len() implies w.pos.contains_key(
                (#[trigger] list@[k]).0,
            ) by {
                assert(joined@.contains(joined@[k]));
            }
        }
        let failed = commit(world.write_pos(), &list);
        proof {
            assert(world@.pos.dom() =~= w.pos.dom());
            lemma_store_update_wf(w, world@);
        }
        match failed {
            Some(entity) => SystemOutcome::Failed { entity },
            None => SystemOutcome::Completed,
        }
    }
}

/// A system of the pipeline.
#[derive(Clone, Copy, Debug, PartialEq, Eq, Structural)]
pub enum System {
    Attract(AttractSys),
    React(ReactSys),
    Move(MoveSys),
}

impl System {
    /// The world after a run of the system.
    pub open spec fn spec_run(self, w: WorldView) -> WorldView {
        match self {
            System::Attract(_) => AttractSys::spec_run(w),
            System::React(_) => ReactSys::spec_run(w),
            System::Move(_) => MoveSys::spec_run(w),
        }
    }

    /// How a run of the system ends.
    pub open spec fn spec_outcome(self, w: WorldView) -> SystemOutcome {
        match self {
            System::Attract(_) => AttractSys::spec_outcome(w),
            System::React(_) => ReactSys::spec_outcome(w),
            System::Move(_) => MoveSys::spec_outcome(w),
        }
    }

    /// What the system reads and writes.
    pub open spec fn spec_access(self) -> AccessSet {
        match self {
            System::Attract(_) => AttractSys::spec_access(),
            System::React(_) => ReactSys::spec_access(),
            System::Move(_) => MoveSys::spec_access(),
        }
    }

    /// What the system reads and writes.
    pub fn access(&self) -> (a: AccessSet)
        ensures
            a == self.spec_access(),
    {
        match self {
            System::Attract(s) => s.access(),
            System::React(s) => s.access(),
            System::Move(s) => s.access(),
        }
    }

    /// Runs the system once over the world.
    pub fn run(&mut self, world: &mut World) -> (outcome: SystemOutcome)
        requires
            old(world)@.wf(),
        ensures
            final(world)@ == old(self).spec_run(old(world)@),
            final(world)@.wf(),
            outcome == old(self).spec_outcome(old(world)@),
            *final(self) == *old(self),
    {
        match self {
            System::Attract(s) => s.run(world),
            System::React(s) => s.run(world),
            System::Move(s) => s.run(world),
        }
    }
}

/// A world stays well formed where its stores keep their entities and
/// nothing else changes.
pub proof fn lemma_store_update_wf(before: WorldView, after: WorldView)
    requires
        before.wf(),
        after.registered == before.registered,
        after.live == before.live,
        after.pos.dom() == before.pos.dom(),
        after.vel.dom() == before.vel.dom(),
        after.force.dom() == before.force.dom(),
        after.attraction.dom() == before.attraction.dom(),
        after.ren.dom() == before.ren.dom(),
    ensures
        after.wf(),
{
    assert forall|kind: crate::component::ComponentKind, e: Entity| #[trigger]
        after.holders(kind).contains(e) implies after.registered.has(kind) && after.is_live(e) by {
        assert(before.holders(kind).contains(e));
    }
}

} // verus!
