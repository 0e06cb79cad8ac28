//! Laws of the runtime and of the pipeline.

use vstd::prelude::*;
use crate::access::AccessSet;
use crate::commit::applied;
use crate::commit::fails;
use crate::commit::first_failure;
use crate::commit::is_first_failure;
use crate::commit::reached;
use crate::component::ComponentKind;
use crate::component::Pos;
use crate::entity::Entity;
use crate::entity::ascending;
use crate::entity::lemma_ascending_unique;
use crate::scheduler::Slot;
use crate::scheduler::lemma_conflict_symmetric;
use crate::scheduler::tick_failures;
use crate::scheduler::tick_world;
use crate::store::pair_keys;
use crate::systems::AttractSys;
use crate::systems::MoveSys;
use crate::systems::ReactSys;
use crate::systems::System;
use crate::systems::SystemOutcome;
use crate::systems::attract_value;
use crate::systems::GAIN;
use crate::vec2::fixed_mul;
use crate::vec2::trunc_div;
use crate::world::WorldView;

verus! {

/// Scaling by the gain is division by ten, rounded toward zero.
pub proof fn lemma_gain_is_tenth(d: int)
    ensures
        fixed_mul(d, GAIN as int) == trunc_div(d, 10),
{
    if d >= 0 {
        assert((d * 100_000) / 1_000_000 == d / 10) by (nonlinear_arith)
            requires
                d >= 0,
        ;
    } else {
        let m = -d;
        assert((m * 100_000) / 1_000_000 == m / 10) by (nonlinear_arith)
            requires
                m >= 0,
        ;
        assert(-(d * 100_000) == m * 100_000) by (nonlinear_arith)
            requires
                m == -d,
        ;
        assert(d * 100_000 < 0) by (nonlinear_arith)
            requires
                d < 0,
        ;
    }
}

/// A run without failure reaches every entity of its join.
pub proof fn lemma_completed_reaches_all<T>(proposals: Map<Entity, Option<T>>, e: Entity)
    requires
        first_failure(proposals).is_none(),
        proposals.contains_key(e),
    ensures
        reached(proposals, e),
        proposals[e].is_some(),
{
    assert forall|x: Entity| !fails(proposals, x) by {
        if fails(proposals, x) {
            lemma_least_failure(proposals, x, x.index as nat);
        }
    }
    assert(!fails(proposals, e));
}

/// Where some proposal fails, one fails first.
pub proof fn lemma_least_failure<T>(proposals: Map<Entity, Option<T>>, x: Entity, bound: nat)
    requires
        fails(proposals, x),
        x.index <= bound,
    ensures
        exists|e: Entity| is_first_failure(proposals, e),
    decreases bound,
{
    if forall|y: Entity| #[trigger] fails(proposals, y) ==> x.index <= y.index {
        assert(is_first_failure(proposals, x));
    } else {
        let y = choose|y: Entity| #[trigger] fails(proposals, y) && !(x.index <= y.index);
        lemma_least_failure(proposals, y, (bound - 1) as nat);
    }
}

/// The attraction system passes over every entity that lacks an attraction
/// point: whatever its position, its force stays as it was. The same holds
/// of an entity that lacks a position.
pub proof fn law_attraction_join_filter(w: WorldView, e: Entity)
    requires
        w.force.contains_key(e),
        !w.attraction.contains_key(e) || !w.pos.contains_key(e),
    ensures
        AttractSys::spec_run(w).force.contains_key(e),
        AttractSys::spec_run(w).force[e] == w.force[e],
{
}

/// The attraction system changes nothing but forces, and gives no entity a
/// force that had none.
pub proof fn law_attraction_frame(w: WorldView)
    ensures
        AttractSys::spec_run(w).pos == w.pos,
        AttractSys::spec_run(w).vel == w.vel,
        AttractSys::spec_run(w).attraction == w.attraction,
        AttractSys::spec_run(w).ren == w.ren,
        AttractSys::spec_run(w).registered == w.registered,
        AttractSys::spec_run(w).live == w.live,
        AttractSys::spec_run(w).force.dom() == w.force.dom(),
{
    assert(AttractSys::spec_run(w).force.dom() =~= w.force.dom());
}

/// An entity with position `p`, attraction point `a` and force `f` has,
/// after a run of the attraction system that reached it, the force
/// `f + (p - a) / 10`, each quotient rounded toward zero.
pub proof fn law_attraction_accumulates(w: WorldView, e: Entity)
    requires
        w.force.contains_key(e),
        w.attraction.contains_key(e),
        w.pos.contains_key(e),
        reached(AttractSys::proposals(w), e),
    ensures
        AttractSys::spec_run(w).force[e].0.x == w.force[e].0.x + trunc_div(
            w.pos[e].0.x - w.attraction[e].0.x,
            10,
        ),
        AttractSys::spec_run(w).force[e].0.y == w.force[e].0.y + trunc_div(
            w.pos[e].0.y - w.attraction[e].0.y,
            10,
        ),
{
    let proposals = AttractSys::proposals(w);
    assert(proposals.contains_key(e));
    if proposals[e].is_none() {
        assert(fails(proposals, e));
        assert(false);
    }
    lemma_gain_is_tenth(w.pos[e].0.x - w.attraction[e].0.x);
    lemma_gain_is_tenth(w.pos[e].0.y - w.attraction[e].0.y);
}

/// In a run of the attraction system that ends without failure, every
/// entity of the join gets the force `f + (p - a) / 10`.
pub proof fn law_attraction_completed(w: WorldView, e: Entity)
    requires
        w.force.contains_key(e),
        w.attraction.contains_key(e),
        w.pos.contains_key(e),
        AttractSys::spec_outcome(w) == SystemOutcome::Completed,
    ensures
        AttractSys::spec_run(w).force[e].0.x == w.force[e].0.x + trunc_div(
            w.pos[e].0.x - w.attraction[e].0.x,
            10,
        ),
        AttractSys::spec_run(w).force[e].0.y == w.force[e].0.y + trunc_div(
            w.pos[e].0.y - w.attraction[e].0.y,
            10,
        ),
{
    lemma_completed_reaches_all(AttractSys::proposals(w), e);
    law_attraction_accumulates(w, e);
}

/// Whether `list` is what drawing reads from the world `w`.
pub open spec fn is_drawing(w: WorldView, list: Seq<(Entity, Pos)>) -> bool {
    &&& ascending(pair_keys(list))
    &&& forall|k: int| 0 <= k < list.len() ==> (#[trigger] list[k]).1 == w.pos[list[k].0]
    &&& forall|e: Entity| w.drawn(e) <==> pair_keys(list).contains(e)
}

/// What drawing reads is fixed by the world: reading twice from the same
/// world gives the same list.
pub proof fn law_render_repeatable(w: WorldView, first: Seq<(Entity, Pos)>, second: Seq<
    (Entity, Pos),
>)
    requires
        is_drawing(w, first),
        is_drawing(w, second),
    ensures
        first == second,
{
    assert forall|e: Entity| pair_keys(first).contains(e) <==> pair_keys(second).contains(
        e,
    ) by {
        assert(w.drawn(e) <==> pair_keys(first).contains(e));
        assert(w.drawn(e) <==> pair_keys(second).contains(e));
    }
    lemma_ascending_unique(pair_keys(first), pair_keys(second));
    assert(first.len() == pair_keys(first).len());
    assert(second.len() == pair_keys(second).len());
    assert forall|k: int| 0 <= k < first.len() implies first[k] == second[k] by {
        assert(pair_keys(first)[k] == first[k].0);
        assert(pair_keys(second)[k] == second[k].0);
    }
    assert(first =~= second);
}

/// Whether two worlds hold the same components of type `kind`.
pub open spec fn same_store(a: WorldView, b: WorldView, kind: ComponentKind) -> bool {
    match kind {
        ComponentKind::Pos => a.pos == b.pos,
        ComponentKind::Vel => a.vel == b.vel,
        ComponentKind::Force => a.force == b.force,
        ComponentKind::Attraction => a.attraction == b.attraction,
        ComponentKind::Ren => a.ren == b.ren,
    }
}

/// Whether two worlds hold the same components of every type that `access` touches.
pub open spec fn agree_on(a: WorldView, b: WorldView, access: AccessSet) -> bool {
    forall|k: ComponentKind| access.touches(k) ==> same_store(a, b, k)
}

/// Whether `effect` keeps to `access`: it changes only components of types
/// that it may write, and what it writes depends only on components of
/// types that it may read or write.
pub open spec fn respects(effect: spec_fn(WorldView) -> WorldView, access: AccessSet) -> bool {
    &&& forall|w: WorldView|
        (#[trigger] effect(w)).registered == w.registered && effect(w).live == w.live
    &&& forall|w: WorldView, k: ComponentKind|
        !access.writes.has(k) ==> #[trigger] same_store(effect(w), w, k)
    &&& forall|w1: WorldView, w2: WorldView, k: ComponentKind|
        agree_on(w1, w2, access) && access.writes.has(k) ==> #[trigger] same_store(
            effect(w1),
            effect(w2),
            k,
        )
}

/// Two effects that keep to access sets without conflict give the same
/// world in either order.
pub proof fn law_nonconflicting_commute(
    f: spec_fn(WorldView) -> WorldView,
    g: spec_fn(WorldView) -> WorldView,
    a: AccessSet,
    b: AccessSet,
    w: WorldView,
)
    requires
        respects(f, a),
        respects(g, b),
        !a.conflicts_with(b),
    ensures
        f(g(w)) == g(f(w)),
{
    let fg = f(g(w));
    let gf = g(f(w));
    assert forall|k: ComponentKind| !a.conflicts_on(b, k) by {}
    assert(agree_on(g(w), w, a)) by {
        assert forall|j: ComponentKind| a.touches(j) implies same_store(g(w), w, j) by {
            assert(!a.conflicts_on(b, j));
        }
    }
    assert(agree_on(f(w), w, b)) by {
        assert forall|j: ComponentKind| b.touches(j) implies same_store(f(w), w, j) by {
            assert(!a.conflicts_on(b, j));
        }
    }
    assert forall|k: ComponentKind| same_store(fg, gf, k) by {
        assert(!a.conflicts_on(b, k));
        if a.writes.has(k) {
            assert(same_store(f(g(w)), f(w), k));
            assert(same_store(g(f(w)), f(w), k));
        } else if b.writes.has(k) {
            assert(same_store(g(f(w)), g(w), k));
            assert(same_store(f(g(w)), g(w), k));
        } else {
            assert(same_store(f(g(w)), g(w), k));
            assert(same_store(g(w), w, k));
            assert(same_store(g(f(w)), f(w), k));
            assert(same_store(f(w), w, k));
        }
    }
    assert(same_store(fg, gf, ComponentKind::Pos));
    assert(same_store(fg, gf, ComponentKind::Vel));
    assert(same_store(fg, gf, ComponentKind::Force));
    assert(same_store(fg, gf, ComponentKind::Attraction));
    assert(same_store(fg, gf, ComponentKind::Ren));
    assert(fg.registered == g(w).registered);
    assert(gf.registered == f(w).registered);
    assert(fg.live == g(w).live);
    assert(gf.live == f(w).live);
}

/// A system as the laws of order see it: what it does to a world, and the
/// access set that it declares.
pub struct Declared {
    pub effect: spec_fn(WorldView) -> WorldView,
    pub access: AccessSet,
}

/// The world after the systems ran one after another, the first of the
/// sequence first.
pub open spec fn run_all(systems: Seq<Declared>, w: WorldView) -> WorldView
    decreases systems.len(),
{
    if systems.len() == 0 {
        w
    } else {
        (systems.last().effect)(run_all(systems.drop_last(), w))
    }
}

/// Whether every system keeps to the access set that it declares.
pub open spec fn well_declared(systems: Seq<Declared>) -> bool {
    forall|i: int| 0 <= i < systems.len() ==> respects(#[trigger] systems[i].effect, systems[i].access)
}

/// Whether no two of the systems conflict.
pub open spec fn pairwise_free(systems: Seq<Declared>) -> bool {
    forall|i: int, j: int|
        0 <= i < j < systems.len() ==> !(#[trigger] systems[i]).access.conflicts_with(
            (#[trigger] systems[j]).access,
        )
}

/// The sequence in which the systems at `i` and `i + 1` changed places.
pub open spec fn swapped(systems: Seq<Declared>, i: int) -> Seq<Declared> {
    systems.update(i, systems[i + 1]).update(i + 1, systems[i])
}

/// Two neighbours without conflict can change places and the result stays
/// the same.
pub proof fn law_neighbours_change_places(systems: Seq<Declared>, i: int, w: WorldView)
    requires
        well_declared(systems),
        0 <= i,
        i + 1 < systems.len(),
        !systems[i].access.conflicts_with(systems[i + 1].access),
    ensures
        run_all(swapped(systems, i), w) == run_all(systems, w),
    decreases systems.len(),
{
    let other = swapped(systems, i);
    if i + 2 == systems.len() {
        let head = systems.drop_last().drop_last();
        assert(other.drop_last().drop_last() =~= head);
        assert(other.last() == systems[i]);
        assert(other.drop_last().last() == systems[i + 1]);
        assert(systems.last() == systems[i + 1]);
        assert(systems.drop_last().last() == systems[i]);
        let base = run_all(head, w);
        assert(run_all(systems.drop_last(), w) == (systems[i].effect)(base));
        assert(run_all(other.drop_last(), w) == (systems[i + 1].effect)(base));
        law_nonconflicting_commute(
            systems[i].effect,
            systems[i + 1].effect,
            systems[i].access,
            systems[i + 1].access,
            base,
        );
    } else {
        assert(other.drop_last() =~= swapped(systems.drop_last(), i));
        assert(other.last() == systems.last());
        assert forall|j: int| 0 <= j < systems.drop_last().len() implies respects(
            #[trigger] systems.drop_last()[j].effect,
            systems.drop_last()[j].access,
        ) by {
            assert(systems.drop_last()[j] == systems[j]);
        }
        law_neighbours_change_places(systems.drop_last(), i, w);
    }
}

/// Among systems without conflict, one can be moved behind all others and
/// the result stays the same.
pub proof fn lemma_move_to_end(systems: Seq<Declared>, i: int, w: WorldView)
    requires
        well_declared(systems),
        pairwise_free(systems),
        0 <= i < systems.len(),
    ensures
        run_all(systems.remove(i).push(systems[i]), w) == run_all(systems, w),
    decreases systems.len() - i,
{
    if i + 1 == systems.len() {
        assert(systems.remove(i).push(systems[i]) =~= systems);
    } else {
        let other = swapped(systems, i);
        law_neighbours_change_places(systems, i, w);
        assert forall|a: int, b: int| 0 <= a < b < other.len() implies !(#[trigger] other[a]).access.conflicts_with(
            (#[trigger] other[b]).access,
        ) by {
            let a0 = if a == i { i + 1 } else if a == i + 1 { i } else { a };
            let b0 = if b == i { i + 1 } else if b == i + 1 { i } else { b };
            assert(other[a] == systems[a0]);
            assert(other[b] == systems[b0]);
            if a0 < b0 {
                assert(!systems[a0].access.conflicts_with(systems[b0].access));
            } else {
                assert(!systems[b0].access.conflicts_with(systems[a0].access));
                lemma_conflict_symmetric(systems[a0].access, systems[b0].access);
            }
        }
        assert forall|j: int| 0 <= j < other.len() implies respects(
            #[trigger] other[j].effect,
            other[j].access,
        ) by {
            let j0 = if j == i { i + 1 } else if j == i + 1 { i } else { j };
            assert(other[j] == systems[j0]);
        }
        lemma_move_to_end(other, i + 1, w);
        assert(other.remove(i + 1).push(other[i + 1]) =~= systems.remove(i).push(systems[i]));
    }
}

/// Systems that keep to their access sets and do not conflict with each
/// other give the same world in every order: where two sequences hold the
/// same systems, each as often as the other, running one is running the
/// other.
pub proof fn law_any_order_within_stage(first: Seq<Declared>, second: Seq<Declared>, w: WorldView)
    requires
        well_declared(first),
        pairwise_free(first),
        first.to_multiset() == second.to_multiset(),
    ensures
        run_all(first, w) == run_all(second, w),
    decreases second.len(),
{
    vstd::seq_lib::to_multiset_len(first);
    vstd::seq_lib::to_multiset_len(second);
    if second.len() == 0 {
    } else {
        let x = second.last();
        let rest = second.drop_last();
        assert(second.contains(x)) by {
            assert(second[second.len() - 1] == x);
        }
        vstd::seq_lib::to_multiset_contains(second, x);
        vstd::seq_lib::to_multiset_contains(first, x);
        assert(first.contains(x));
        let i = choose|i: int| 0 <= i < first.len() && first[i] == x;
        let others = first.remove(i);
        lemma_move_to_end(first, i, w);
        assert(others.push(x).drop_last() =~= others);
        assert(others.push(x).last() == x);
        assert(run_all(first, w) == (x.effect)(run_all(others, w)));
        vstd::seq_lib::to_multiset_remove(first, i);
        vstd::seq_lib::to_multiset_remove(second, second.len() - 1);
        assert(second.remove(second.len() - 1) =~= rest);
        assert(others.to_multiset() == rest.to_multiset());
        assert forall|j: int| 0 <= j < others.len() implies respects(
            #[trigger] others[j].effect,
            others[j].access,
        ) by {
            let j0 = if j < i { j } else { j + 1 };
            assert(others[j] == first[j0]);
        }
        assert forall|a: int, b: int| 0 <= a < b < others.len() implies !(#[trigger] others[a]).access.conflicts_with(
            (#[trigger] others[b]).access,
        ) by {
            let a0 = if a < i { a } else { a + 1 };
            let b0 = if b < i { b } else { b + 1 };
            assert(others[a] == first[a0]);
            assert(others[b] == first[b0]);
        }
        law_any_order_within_stage(others, rest, w);
    }
}

/// A registered system as the laws of order see it.
pub open spec fn declared(slot: Slot) -> Declared {
    Declared { effect: |w: WorldView| slot.system.spec_run(w), access: slot.system.spec_access() }
}

/// A tick is the run of the registered systems in the order of the
/// schedule, and each of them keeps to the access set that it declares.
pub proof fn law_tick_runs_declared_systems(slots: Seq<Slot>, w: WorldView)
    ensures
        tick_world(slots, w) == run_all(slots.map_values(|s: Slot| declared(s)), w),
        well_declared(slots.map_values(|s: Slot| declared(s))),
    decreases slots.len(),
{
    let systems = slots.map_values(|s: Slot| declared(s));
    assert forall|i: int| 0 <= i < systems.len() implies respects(
        #[trigger] systems[i].effect,
        systems[i].access,
    ) by {
        law_systems_respect_access(slots[i].system);
        assert(systems[i] == declared(slots[i]));
    }
    if slots.len() > 0 {
        law_tick_runs_declared_systems(slots.drop_last(), w);
        assert(systems.drop_last() =~= slots.drop_last().map_values(|s: Slot| declared(s)));
        assert(systems.last() == declared(slots.last()));
    }
}

/// Every system of the pipeline keeps to the access set that it declares.
pub proof fn law_systems_respect_access(system: System)
    ensures
        respects(|w: WorldView| system.spec_run(w), system.spec_access()),
{
    let effect = |w: WorldView| system.spec_run(w);
    let access = system.spec_access();
    assert forall|w: WorldView|
        (#[trigger] effect(w)).registered == w.registered && effect(w).live == w.live by {}
    assert forall|w: WorldView, k: ComponentKind| !access.writes.has(k) implies #[trigger] same_store(
        effect(w),
        w,
        k,
    ) by {}
    assert forall|w1: WorldView, w2: WorldView, k: ComponentKind|
        agree_on(w1, w2, access) && access.writes.has(k) implies #[trigger] same_store(
        effect(w1),
        effect(w2),
        k,
    ) by {
        assert(access.touches(ComponentKind::Pos) ==> same_store(w1, w2, ComponentKind::Pos));
        assert(access.touches(ComponentKind::Vel) ==> same_store(w1, w2, ComponentKind::Vel));
        assert(access.touches(ComponentKind::Force) ==> same_store(w1, w2, ComponentKind::Force));
        assert(access.touches(ComponentKind::Attraction) ==> same_store(
            w1,
            w2,
            ComponentKind::Attraction,
        ));
        match system {
            System::Attract(_) => {
                assert(AttractSys::proposals(w1) =~= AttractSys::proposals(w2));
            },
            System::React(_) => {
                assert(ReactSys::proposals(w1) =~= ReactSys::proposals(w2));
            },
            System::Move(_) => {
                assert(MoveSys::proposals(w1) =~= MoveSys::proposals(w2));
            },
        }
    }
}

/// Whether `slots` is the pipeline: attraction, then reaction, then movement.
pub open spec fn is_pipeline(slots: Seq<Slot>) -> bool {
    &&& slots.len() == 3
    &&& slots[0].system == System::Attract(AttractSys)
    &&& slots[1].system == System::React(ReactSys)
    &&& slots[2].system == System::Move(MoveSys)
}

/// A tick of the pipeline is attraction, then reaction on what attraction
/// left, then movement on what reaction left.
pub proof fn law_pipeline_tick(slots: Seq<Slot>, w: WorldView)
    requires
        is_pipeline(slots),
    ensures
        tick_world(slots, w) == MoveSys::spec_run(ReactSys::spec_run(AttractSys::spec_run(w))),
        tick_failures(slots, w).len() == 0 <==> {
            &&& AttractSys::spec_outcome(w) == SystemOutcome::Completed
            &&& ReactSys::spec_outcome(AttractSys::spec_run(w)) == SystemOutcome::Completed
            &&& MoveSys::spec_outcome(ReactSys::spec_run(AttractSys::spec_run(w)))
                == SystemOutcome::Completed
        },
{
    let two = slots.drop_last();
    let one = two.drop_last();
    let none = one.drop_last();
    assert(none.len() == 0);
    assert(one.last() == slots[0]);
    assert(two.last() == slots[1]);
    assert(slots.last() == slots[2]);
    assert(tick_world(none, w) == w);
    assert(tick_world(one, w) == AttractSys::spec_run(w));
    assert(tick_world(two, w) == ReactSys::spec_run(AttractSys::spec_run(w)));
    assert(tick_failures(none, w).len() == 0);
    assert(tick_failures(one, w).len() == 0 <==> AttractSys::spec_outcome(w)
        == SystemOutcome::Completed);
    assert(tick_failures(one, w).len() <= tick_failures(two, w).len());
    assert(tick_failures(two, w).len() <= tick_failures(slots, w).len());
}

/// In a tick of the pipeline that ends without failure, each stage works on
/// what the stage before it has just written: an entity with position `p`,
/// velocity `v` and force `f` ends the tick with the force `f'`, the
/// velocity `v + f'` and the position `p + v + f'`, where `f'` is
/// `f + (p - a) / 10` for an entity with the attraction point `a`, and `f`
/// for an entity without one. The force is not reset: it carries over to
/// the next tick.
pub proof fn law_tick_uses_fresh_values(w: WorldView, e: Entity)
    requires
        w.pos.contains_key(e),
        w.vel.contains_key(e),
        w.force.contains_key(e),
        AttractSys::spec_outcome(w) == SystemOutcome::Completed,
        ReactSys::spec_outcome(AttractSys::spec_run(w)) == SystemOutcome::Completed,
        MoveSys::spec_outcome(ReactSys::spec_run(AttractSys::spec_run(w)))
            == SystemOutcome::Completed,
    ensures
        ({
            let after = MoveSys::spec_run(ReactSys::spec_run(AttractSys::spec_run(w)));
            let pull_x = if w.attraction.contains_key(e) {
                trunc_div(w.pos[e].0.x - w.attraction[e].0.x, 10)
            } else {
                0
            };
            let pull_y = if w.attraction.contains_key(e) {
                trunc_div(w.pos[e].0.y - w.attraction[e].0.y, 10)
            } else {
                0
            };
            &&& after.force[e].0.x == w.force[e].0.x + pull_x
            &&& after.force[e].0.y == w.force[e].0.y + pull_y
            &&& after.vel[e].0.x == w.vel[e].0.x + after.force[e].0.x
            &&& after.vel[e].0.y == w.vel[e].0.y + after.force[e].0.y
            &&& after.pos[e].0.x == w.pos[e].0.x + after.vel[e].0.x
            &&& after.pos[e].0.y == w.pos[e].0.y + after.vel[e].0.y
        }),
{
    let w1 = AttractSys::spec_run(w);
    let w2 = ReactSys::spec_run(w1);
    let w3 = MoveSys::spec_run(w2);
    if w.attraction.contains_key(e) {
        law_attraction_completed(w, e);
    } else {
        law_attraction_join_filter(w, e);
    }
    assert(w1.force.contains_key(e));
    assert(w1.vel.contains_key(e));
    assert(ReactSys::proposals(w1).contains_key(e));
    lemma_completed_reaches_all(ReactSys::proposals(w1), e);
    assert(w2.vel.contains_key(e));
    assert(w2.pos.contains_key(e));
    assert(MoveSys::proposals(w2).contains_key(e));
    lemma_completed_reaches_all(MoveSys::proposals(w2), e);
}

} // verus!
