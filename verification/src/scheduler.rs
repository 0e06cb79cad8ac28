//! The scheduler: an ordered list of systems and the world they run on.
//!
//! Systems are kept in non-decreasing order of stage. A tick runs them one
//! after another in that order, so every system of a stage has finished
//! before any system of a later stage starts. Two systems may share a stage
//! only where their access sets do not conflict; for such systems the order
//! inside the stage makes no difference to the result.

use vstd::prelude::*;
use crate::access::AccessSet;
use crate::component::ComponentKind;
use crate::entity::Entity;
use crate::error::ConfigError;
use crate::systems::System;
use crate::systems::SystemOutcome;
use crate::world::World;
use crate::world::WorldView;

verus! {

/// A registered system, as plain mathematical data.
pub struct Slot {
    pub system: System,
    /// The name under which the system was registered; it tells nothing
    /// about what the system does.
    pub name: Seq<char>,
    pub stage: u32,
}

/// A registered system.
pub struct SystemEntry {
    pub system: System,
    pub name: String,
    pub stage: u32,
}

impl View for SystemEntry {
    type V = Slot;

    open spec fn view(&self) -> Slot {
        Slot { system: self.system, name: self.name@, stage: self.stage }
    }
}

/// A system that could not finish its run in a tick.
#[derive(Clone, Copy, Debug, PartialEq, Eq, Structural)]
pub struct Failure {
    /// The position of the system in the schedule.
    pub position: usize,
    /// The entity at which the system stopped.
    pub entity: Entity,
}

/// What a tick reports: the systems that were skipped part of the way.
pub struct TickReport {
    pub failures: Vec<Failure>,
}

impl TickReport {
    /// Whether every system finished its run.
    pub fn is_success(&self) -> (b: bool)
        ensures
            b == (self.failures@.len() == 0),
    {
        self.failures.len() == 0
    }
}

/// Whether the schedule runs its stages in non-decreasing order.
pub open spec fn staged(slots: Seq<Slot>) -> bool {
    forall|i: int, j: int| 0 <= i < j < slots.len() ==> slots[i].stage <= slots[j].stage
}

/// Whether no two systems of one stage conflict.
pub open spec fn conflict_free(slots: Seq<Slot>) -> bool {
    forall|i: int, j: int|
        0 <= i < j < slots.len() && slots[i].stage == slots[j].stage
            ==> !slots[i].system.spec_access().conflicts_with(slots[j].system.spec_access())
}

/// Whether every component type that a system touches is registered.
pub open spec fn all_registered(slots: Seq<Slot>, w: WorldView) -> bool {
    forall|i: int, k: ComponentKind|
        0 <= i < slots.len() && #[trigger] slots[i].system.spec_access().touches(k)
            ==> w.registered.has(k)
}

/// Whether the system at position `i` runs in `stage` and conflicts with `access`.
pub open spec fn conflict_at(slots: Seq<Slot>, i: int, access: AccessSet, stage: u32) -> bool {
    0 <= i < slots.len() && slots[i].stage == stage && slots[i].system.spec_access().conflicts_with(
        access,
    )
}

/// Whether `i` is the first position of a system that runs in `stage` and
/// conflicts with `access`.
pub open spec fn first_conflict_at(slots: Seq<Slot>, i: int, access: AccessSet, stage: u32) -> bool {
    conflict_at(slots, i, access, stage) && forall|j: int|
        0 <= j < i ==> !conflict_at(slots, j, access, stage)
}

/// Whether `p` is where a system of `stage` is put: behind every system of
/// that stage or an earlier one, before every system of a later stage.
pub open spec fn insertion_point(slots: Seq<Slot>, stage: u32, p: int) -> bool {
    &&& 0 <= p <= slots.len()
    &&& forall|j: int| 0 <= j < p ==> (#[trigger] slots[j]).stage <= stage
    &&& forall|j: int| p <= j < slots.len() ==> (#[trigger] slots[j]).stage > stage
}

/// The world after the systems ran on it one after another.
pub open spec fn tick_world(systems: Seq<Slot>, w: WorldView) -> WorldView
    decreases systems.len(),
{
    if systems.len() == 0 {
        w
    } else {
        systems.last().system.spec_run(tick_world(systems.drop_last(), w))
    }
}

/// The failures of the systems that ran one after another, in that order.
pub open spec fn tick_failures(systems: Seq<Slot>, w: WorldView) -> Seq<Failure>
    decreases systems.len(),
{
    if systems.len() == 0 {
        Seq::empty()
    } else {
        let earlier = tick_failures(systems.drop_last(), w);
        match systems.last().system.spec_outcome(tick_world(systems.drop_last(), w)) {
            SystemOutcome::Completed => earlier,
            SystemOutcome::Failed { entity } => earlier.push(
                Failure { position: (systems.len() - 1) as usize, entity },
            ),
        }
    }
}

/// Owns the world and the systems, and runs the ticks.
pub struct Scheduler {
    world: World,
    systems: Vec<SystemEntry>,
}

impl Scheduler {
    /// The world of the scheduler.
    pub closed spec fn world_view(&self) -> WorldView {
        self.world@
    }

    /// The registered systems, in the order in which a tick runs them.
    pub closed spec fn slots(&self) -> Seq<Slot> {
        Seq::new(self.systems@.len(), |i: int| self.systems@[i]@)
    }

    /// The invariant of a scheduler: the world is well formed, the stages
    /// are in order, no two systems of one stage conflict, and every system
    /// touches registered component types only.
    pub open spec fn wf(&self) -> bool {
        &&& self.world_view().wf()
        &&& staged(self.slots())
        &&& conflict_free(self.slots())
        &&& all_registered(self.slots(), self.world_view())
    }

    /// A scheduler for `world`, without systems.
    pub fn new(world: World) -> (s: Scheduler)
        requires
            world@.wf(),
        ensures
            s.wf(),
            s.world_view() == world@,
            s.slots() == Seq::<Slot>::empty(),
    {
        let s = Scheduler { world, systems: Vec::new() };
        assert(s.slots() =~= Seq::<Slot>::empty());
        s
    }

    /// Registers `system` under `name` to run in `stage`.
    ///
    /// Refused, with the scheduler unchanged, where the system touches a
    /// component type that is not registered, and else where its access set
    /// conflicts with that of a system of the same stage. Accepted
    /// otherwise: the system is put behind the systems of its stage and of
    /// earlier stages.
    pub fn add_system(&mut self, system: System, name: &str, stage: u32) -> (r: Result<
        (),
        ConfigError,
    >)
        requires
            old(self).wf(),
        ensures
            final(self).wf(),
            final(self).world_view() == old(self).world_view(),
            r.is_err() ==> final(self).slots() == old(self).slots(),
            system.spec_access().missing_from(old(self).world_view().registered) matches Some(k)
                ==> r == Err::<(), ConfigError>(ConfigError::UnregisteredComponent(k)),
            system.spec_access().missing_from(old(self).world_view().registered).is_none() ==> (
            match r {
                Ok(()) => (forall|i: int|
                    !conflict_at(old(self).slots(), i, system.spec_access(), stage)) && exists|
                    p: int,
                |
                    insertion_point(old(self).slots(), stage, p) && final(self).slots() == old(
                        self,
                    ).slots().insert(p, Slot { system, name: name@, stage }),
                Err(ConfigError::AccessConflict { with }) => first_conflict_at(
                    old(self).slots(),
                    with as int,
                    system.spec_access(),
                    stage,
                ),
                Err(_) => false,
            }),
    {
        let access = system.access();
        match access.first_unregistered(&self.world.registered_kinds()) {
            Some(k) => {
                return Err(ConfigError::UnregisteredComponent(k));
            },
            None => {},
        }
        proof {
            access.lemma_missing_from(self.world@.registered);
        }
        let ghost before = self.slots();
        let mut i: usize = 0;
        while i < self.systems.len()
            invariant
                i <= self.systems@.len(),
                *self == *old(self),
                old(self).wf(),
                access.missing_from(old(self).world_view().registered).is_none(),
                self.slots() == before,
                before.len() == self.systems@.len(),
                access == system.spec_access(),
                forall|j: int| 0 <= j < i ==> !conflict_at(before, j, access, stage),
            decreases self.systems@.len() - i,
        {
            if self.systems[i].stage == stage {
                let other = self.systems[i].system.access();
                if other.conflicts(&access) {
                    assert(before[i as int] == self.systems@[i as int]@);
                    return Err(ConfigError::AccessConflict { with: i });
                }
            }
            assert(before[i as int] == self.systems@[i as int]@);
            i += 1;
        }
        let mut p: usize = 0;
        while p < self.systems.len() && self.systems[p].stage <= stage
            invariant
                p <= self.systems@.len(),
                *self == *old(self),
                self.slots() == before,
                before.len() == self.systems@.len(),
                forall|j: int| 0 <= j < p ==> (#[trigger] before[j]).stage <= stage,
            decreases self.systems@.len() - p,
        {
            assert(before[p as int] == self.systems@[p as int]@);
            p += 1;
        }
        let entry = SystemEntry { system, name: name.to_owned(), stage };
        let ghost slot = Slot { system, name: name@, stage };
        proof {
            assert(entry@ == slot);
            if p < before.len() {
                assert(before[p as int] == self.systems@[p as int]@);
                assert(before[p as int].stage > stage);
            }
            assert forall|j: int| p <= j < before.len() implies (#[trigger] before[j]).stage
                > stage by {
                if j > p {
                    assert(before[p as int].stage <= before[j].stage);
                }
            }
            assert(insertion_point(before, stage, p as int));
        }
        self.systems.insert(p, entry);
        proof {
            let after = self.slots();
            assert(after =~= before.insert(p as int, slot));
            lemma_insert_keeps_order(before, slot, p as int, self.world@);
        }
        Ok(())
    }

    /// Runs one tick: every system once, in the order of the schedule. A
    /// system that cannot finish is skipped from where it stopped and
    /// listed in the report; the systems behind it still run.
    pub fn advance(&mut self) -> (report: TickReport)
        requires
            old(self).wf(),
        ensures
            final(self).wf(),
            final(self).slots() == old(self).slots(),
            final(self).world_view() == tick_world(old(self).slots(), old(self).world_view()),
            report.failures@ == tick_failures(old(self).slots(), old(self).world_view()),
    {
        let ghost slots = self.slots();
        let ghost w = self.world@;
        let mut failures: Vec<Failure> = Vec::new();
        let mut i: usize = 0;
        while i < self.systems.len()
            invariant
                i <= self.systems@.len(),
                self.slots() == slots,
                slots.len() == self.systems@.len(),
                self.world@.wf(),
                self.world@.registered == w.registered,
                self.world@ == tick_world(slots.take(i as int), w),
                failures@ == tick_failures(slots.take(i as int), w),
            decreases self.systems@.len() - i,
        {
            let mut system = self.systems[i].system;
            proof {
                assert(slots[i as int] == self.systems@[i as int]@);
                assert(slots.take(i + 1).drop_last() =~= slots.take(i as int));
                assert(slots.take(i + 1).last() == slots[i as int]);
            }
            match system.run(&mut self.world) {
                SystemOutcome::Completed => {},
                SystemOutcome::Failed { entity } => {
                    failures.push(Failure { position: i, entity });
                },
            }
            i += 1;
        }
        proof {
            assert(slots.take(i as int) =~= slots);
        }
        TickReport { failures }
    }

    /// The world, for reading.
    pub fn world(&self) -> (w: &World)
        ensures
            w@ == self.world_view(),
    {
        &self.world
    }

    /// The world, for changing it between ticks. What the caller leaves in
    /// it becomes the world of the scheduler; the systems stay as they are.
    pub fn mut_world(&mut self) -> (w: &mut World)
        ensures
            w@ == old(self).world_view(),
            final(self).world_view() == final(w)@,
            final(self).slots() == old(self).slots(),
    {
        &mut self.world
    }

    /// How many systems are registered.
    pub fn system_count(&self) -> (n: usize)
        ensures
            n == self.slots().len(),
    {
        self.systems.len()
    }

    /// The system at position `i` of the schedule, if there is one.
    pub fn system(&self, i: usize) -> (e: Option<&SystemEntry>)
        ensures
            e.is_some() == (i < self.slots().len()),
            e.is_some() ==> e.unwrap()@ == self.slots()[i as int],
    {
        if i < self.systems.len() {
            Some(&self.systems[i])
        } else {
            None
        }
    }
}

/// Putting a system at its insertion point keeps the schedule in order,
/// free of conflicts and within the registered types, where the system
/// itself conflicts with none of its stage and touches registered types only.
pub proof fn lemma_insert_keeps_order(slots: Seq<Slot>, slot: Slot, p: int, w: WorldView)
    requires
        staged(slots),
        conflict_free(slots),
        all_registered(slots, w),
        insertion_point(slots, slot.stage, p),
        forall|i: int| !conflict_at(slots, i, slot.system.spec_access(), slot.stage),
        forall|k: ComponentKind| slot.system.spec_access().touches(k) ==> w.registered.has(k),
    ensures
        staged(slots.insert(p, slot)),
        conflict_free(slots.insert(p, slot)),
        all_registered(slots.insert(p, slot), w),
{
    let after = slots.insert(p, slot);
    assert forall|i: int, j: int| 0 <= i < j < after.len() implies after[i].stage
        <= after[j].stage by {
        if i < p && j > p {
            assert(slots[i].stage <= slots[j - 1].stage);
        }
    }
    assert forall|i: int, j: int|
        0 <= i < j < after.len() && after[i].stage == after[j].stage implies !after[i].system.spec_access().conflicts_with(
        after[j].system.spec_access(),
    ) by {
        let a = after[i].system.spec_access();
        let b = after[j].system.spec_access();
        if i == p {
            assert(!conflict_at(slots, j - 1, slot.system.spec_access(), slot.stage));
            lemma_conflict_symmetric(a, b);
        } else if j == p {
            assert(!conflict_at(slots, i, slot.system.spec_access(), slot.stage));
        } else {
            let i0 = if i < p { i } else { i - 1 };
            let j0 = if j < p { j } else { j - 1 };
            assert(slots[i0].stage == slots[j0].stage);
        }
    }
    assert forall|i: int, k: ComponentKind|
        0 <= i < after.len() && #[trigger] after[i].system.spec_access().touches(
            k,
        ) implies w.registered.has(k) by {
        if i < p {
            assert(slots[i].system.spec_access().touches(k));
        } else if i > p {
            assert(slots[i - 1].system.spec_access().touches(k));
        }
    }
}

/// Conflict is symmetric.
pub proof fn lemma_conflict_symmetric(a: AccessSet, b: AccessSet)
    ensures
        a.conflicts_with(b) == b.conflicts_with(a),
{
    if a.conflicts_with(b) {
        let k = choose|k: ComponentKind| a.conflicts_on(b, k);
        assert(b.conflicts_on(a, k));
    }
    if b.conflicts_with(a) {
        let k = choose|k: ComponentKind| b.conflicts_on(a, k);
        assert(a.conflicts_on(b, k));
    }
}

} // verus!
