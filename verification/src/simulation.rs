//! The simulation as a whole: the initial world, the pipeline, and the two
//! calls that drive it.

use vstd::prelude::*;
use crate::component::Attraction;
use crate::component::Component;
use crate::component::ComponentKind;
use crate::component::Force;
use crate::component::KindSet;
use crate::component::Pos;
use crate::component::Ren;
use crate::component::Vel;
use crate::entity::Entity;
use crate::entity::ascending;
use crate::scheduler::Scheduler;
use crate::scheduler::Slot;
use crate::scheduler::TickReport;
use crate::scheduler::conflict_at;
use crate::scheduler::insertion_point;
use crate::scheduler::tick_failures;
use crate::scheduler::tick_world;
use crate::store::pair_keys;
use crate::systems::AttractSys;
use crate::systems::MoveSys;
use crate::systems::ReactSys;
use crate::systems::System;
use crate::vec2::Vec2;
use crate::world::World;
use crate::world::WorldView;

verus! {

/// The world at the start: one entity for each velocity, at rest at the
/// origin of positions and forces, moving with its velocity, and drawn. No
/// entity has an attraction point.
pub open spec fn initial_world(velocities: Seq<Vec2>) -> WorldView {
    WorldView {
        registered: KindSet { pos: true, vel: true, force: true, attraction: true, ren: true },
        live: velocities.len(),
        pos: Map::new(
            |e: Entity| e.index < velocities.len(),
            |e: Entity| Pos(Vec2 { x: 0, y: 0 }),
        ),
        vel: Map::new(
            |e: Entity| e.index < velocities.len(),
            |e: Entity| Vel(velocities[e.index as int]),
        ),
        force: Map::new(
            |e: Entity| e.index < velocities.len(),
            |e: Entity| Force(Vec2 { x: 0, y: 0 }),
        ),
        attraction: Map::<Entity, Attraction>::empty(),
        ren: Map::new(|e: Entity| e.index < velocities.len(), |e: Entity| Ren),
    }
}

/// The schedule of the pipeline: attraction in stage 0, reaction in stage 1,
/// movement in stage 2.
pub open spec fn pipeline_slots() -> Seq<Slot> {
    seq![
        Slot { system: System::Attract(AttractSys), name: "attract system"@, stage: 0 },
        Slot { system: System::React(ReactSys), name: "react system"@, stage: 1 },
        Slot { system: System::Move(MoveSys), name: "move system"@, stage: 2 },
    ]
}

/// A world in which the five component types are registered and nothing else is.
fn registered_world() -> (w: World)
    ensures
        w@ == initial_world(Seq::<Vec2>::empty()),
        w@.wf(),
{
    let mut w = World::new();
    let ghost start = w@;
    let _ = w.register(ComponentKind::Pos);
    let _ = w.register(ComponentKind::Vel);
    let _ = w.register(ComponentKind::Force);
    let _ = w.register(ComponentKind::Attraction);
    let _ = w.register(ComponentKind::Ren);
    proof {
        let target = initial_world(Seq::<Vec2>::empty());
        assert(!start.registered.has(ComponentKind::Pos));
        assert(!start.registered.has(ComponentKind::Vel));
        assert(!start.registered.has(ComponentKind::Force));
        assert(!start.registered.has(ComponentKind::Attraction));
        assert(!start.registered.has(ComponentKind::Ren));
        assert(start.holders(ComponentKind::Pos) == Set::<Entity>::empty());
        assert(start.holders(ComponentKind::Vel) == Set::<Entity>::empty());
        assert(start.holders(ComponentKind::Force) == Set::<Entity>::empty());
        assert(start.holders(ComponentKind::Attraction) == Set::<Entity>::empty());
        assert(start.holders(ComponentKind::Ren) == Set::<Entity>::empty());
        assert(w@.pos =~= target.pos);
        assert(w@.vel =~= target.vel);
        assert(w@.force =~= target.force);
        assert(w@.attraction =~= target.attraction);
        assert(w@.ren =~= target.ren);
    }
    w
}

/// Creates one entity at rest at the origin with the given velocity.
fn spawn(world: &mut World, velocity: Vec2, Ghost(created): Ghost<Seq<Vec2>>)
    requires
        old(world)@ == initial_world(created),
        old(world)@.wf(),
        created.len() < usize::MAX,
    ensures
        final(world)@ == initial_world(created.push(velocity)),
        final(world)@.wf(),
{
    let e = world.create_now();
    let _ = world.insert(e, Component::Pos(Pos(Vec2::null_vec())));
    let _ = world.insert(e, Component::Vel(Vel(velocity)));
    let _ = world.insert(e, Component::Force(Force(Vec2::null_vec())));
    let _ = world.insert(e, Component::Ren(Ren));
    proof {
        let target = initial_world(created.push(velocity));
        assert(world@.pos =~= target.pos);
        assert(world@.vel =~= target.vel);
        assert(world@.force =~= target.force);
        assert(world@.attraction =~= target.attraction);
        assert(world@.ren =~= target.ren);
    }
}

/// The simulation: a world of moving, drawn entities and the pipeline that
/// advances it.
pub struct App {
    planner: Scheduler,
}

impl App {
    /// The scheduler of the simulation.
    pub closed spec fn spec_planner(&self) -> Scheduler {
        self.planner
    }

    /// The invariant of a simulation: that of its scheduler.
    pub open spec fn wf(&self) -> bool {
        self.spec_planner().wf()
    }

    /// Sets the simulation up: registers the component types, creates one
    /// entity for each of `velocities`, and registers the three systems in
    /// the stages that their order needs.
    pub fn new(velocities: &Vec<Vec2>) -> (a: App)
        ensures
            a.wf(),
            a.spec_planner().world_view() == initial_world(velocities@),
            a.spec_planner().slots() == pipeline_slots(),
    {
        let mut world = registered_world();
        let mut i: usize = 0;
        assert(velocities@.take(0) =~= Seq::<Vec2>::empty());
        while i < velocities.len()
            invariant
                i <= velocities@.len(),
                world@ == initial_world(velocities@.take(i as int)),
                world@.wf(),
            decreases velocities@.len() - i,
        {
            spawn(&mut world, velocities[i], Ghost(velocities@.take(i as int)));
            proof {
                assert(velocities@.take(i as int).push(velocities@[i as int]) =~= velocities@.take(
                    i + 1,
                ));
            }
            i += 1;
        }
        proof {
            assert(velocities@.take(i as int) =~= velocities@);
        }
        let mut planner = Scheduler::new(world);
        let ghost none = planner.slots();
        let first = planner.add_system(System::Attract(AttractSys), "attract system", 0);
        let ghost one = planner.slots();
        let second = planner.add_system(System::React(ReactSys), "react system", 1);
        let ghost two = planner.slots();
        let third = planner.add_system(System::Move(MoveSys), "move system", 2);
        proof {
            let slots = pipeline_slots();
            assert(first.is_ok());
            assert(one =~= seq![slots[0]]);
            assert(forall|j: int| !conflict_at(one, j, ReactSys::spec_access(), 1));
            assert(second.is_ok());
            let p = choose|p: int|
                insertion_point(one, 1, p) && two == one.insert(
                    p,
                    Slot { system: System::React(ReactSys), name: "react system"@, stage: 1 },
                );
            assert(p == 1) by {
                if p < 1 {
                    assert(one[0].stage > 1);
                }
            }
            assert(two =~= seq![slots[0], slots[1]]);
            assert(forall|j: int| !conflict_at(two, j, MoveSys::spec_access(), 2));
            assert(third.is_ok());
            let q = choose|q: int|
                insertion_point(two, 2, q) && planner.slots() == two.insert(
                    q,
                    Slot { system: System::Move(MoveSys), name: "move system"@, stage: 2 },
                );
            assert(q == 2) by {
                if q < 2 {
                    assert(two[1].stage > 2);
                }
            }
            assert(planner.slots() =~= slots);
        }
        App { planner }
    }

    /// Advances the simulation by one tick.
    pub fn update(&mut self) -> (report: TickReport)
        requires
            old(self).wf(),
        ensures
            final(self).wf(),
            final(self).spec_planner().slots() == old(self).spec_planner().slots(),
            final(self).spec_planner().world_view() == tick_world(
                old(self).spec_planner().slots(),
                old(self).spec_planner().world_view(),
            ),
            report.failures@ == tick_failures(
                old(self).spec_planner().slots(),
                old(self).spec_planner().world_view(),
            ),
    {
        self.planner.advance()
    }

    /// The positions to draw: one pair for each entity that holds both a
    /// position and the drawing marker, in increasing order of index. The
    /// simulation is only read.
    pub fn render(&self) -> (r: Vec<(Entity, Pos)>)
        ensures
            ascending(pair_keys(r@)),
            forall|k: int|
                0 <= k < r@.len() ==> (#[trigger] r@[k]).1
                    == self.spec_planner().world_view().pos[r@[k].0],
            forall|e: Entity|
                self.spec_planner().world_view().drawn(e) <==> pair_keys(r@).contains(e),
    {
        self.planner.world().drawables()
    }

    /// The scheduler, for reading.
    pub fn planner(&self) -> (p: &Scheduler)
        ensures
            *p == self.spec_planner(),
    {
        &self.planner
    }

    /// The scheduler, for changing the simulation between ticks.
    pub fn mut_planner(&mut self) -> (p: &mut Scheduler)
        ensures
            *p == old(self).spec_planner(),
            final(self).spec_planner() == *final(p),
    {
        &mut self.planner
    }
}

} // verus!
