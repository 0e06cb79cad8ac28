use particle_ecs::component::Attraction;
use particle_ecs::component::Component;
use particle_ecs::component::ComponentKind;
use particle_ecs::component::Force;
use particle_ecs::component::KindSet;
use particle_ecs::component::Pos;
use particle_ecs::component::Ren;
use particle_ecs::component::Vel;
use particle_ecs::entity::Entity;
use particle_ecs::error::ConfigError;
use particle_ecs::scheduler::Failure;
use particle_ecs::scheduler::Scheduler;
use particle_ecs::simulation::App;
use particle_ecs::systems::attracted;
use particle_ecs::systems::moved;
use particle_ecs::systems::reacted;
use particle_ecs::systems::AttractSys;
use particle_ecs::systems::MoveSys;
use particle_ecs::systems::ReactSys;
use particle_ecs::systems::System;
use particle_ecs::systems::SystemOutcome;
use particle_ecs::systems::GAIN;
use particle_ecs::vec2::Vec2;
use particle_ecs::vec2::UNIT;
use particle_ecs::world::World;

fn fixed(x: f64, y: f64) -> Vec2 {
    Vec2::new((x * UNIT as f64).round() as i64, (y * UNIT as f64).round() as i64)
}

fn full_world() -> World {
    let mut w = World::new();
    for k in [
        ComponentKind::Pos,
        ComponentKind::Vel,
        ComponentKind::Force,
        ComponentKind::Attraction,
        ComponentKind::Ren,
    ] {
        assert_eq!(w.register(k), Ok(()));
    }
    w
}

fn body(w: &mut World, p: Vec2, v: Vec2, f: Vec2, a: Option<Vec2>) -> Entity {
    let e = w.create_now();
    assert_eq!(w.insert(e, Component::Pos(Pos(p))), Ok(()));
    assert_eq!(w.insert(e, Component::Vel(Vel(v))), Ok(()));
    assert_eq!(w.insert(e, Component::Force(Force(f))), Ok(()));
    if let Some(a) = a {
        assert_eq!(w.insert(e, Component::Attraction(Attraction(a))), Ok(()));
    }
    e
}

fn pipeline(w: World) -> Scheduler {
    let mut s = Scheduler::new(w);
    assert_eq!(s.add_system(System::Attract(AttractSys), "attract system", 0), Ok(()));
    assert_eq!(s.add_system(System::React(ReactSys), "react system", 1), Ok(()));
    assert_eq!(s.add_system(System::Move(MoveSys), "move system", 2), Ok(()));
    s
}

fn pos_of(w: &World, e: Entity) -> Vec2 {
    w.read_pos().get(e).unwrap().0
}

fn vel_of(w: &World, e: Entity) -> Vec2 {
    w.read_vel().get(e).unwrap().0
}

fn force_of(w: &World, e: Entity) -> Vec2 {
    w.read_force().get(e).unwrap().0
}

#[test]
fn gain_is_one_tenth() {
    assert_eq!(GAIN * 10, UNIT);
}

#[test]
fn attraction_formula_is_exact() {
    let f = Force(fixed(0.5, -0.25));
    let a = Attraction(fixed(1.0, 1.0));
    let p = Pos(fixed(3.0, 4.0));
    assert_eq!(attracted(f, a, p), Some(Force(Vec2::new(700_000, 50_000))));
}

#[test]
fn attraction_rounds_toward_zero() {
    let zero = Force(Vec2::null_vec());
    assert_eq!(
        attracted(zero, Attraction(Vec2::new(15, -15)), Pos(Vec2::null_vec())),
        Some(Force(Vec2::new(-1, 1)))
    );
    assert_eq!(
        attracted(zero, Attraction(Vec2::new(9, -9)), Pos(Vec2::null_vec())),
        Some(Force(Vec2::null_vec()))
    );
}

#[test]
fn attraction_out_of_range_is_none() {
    let far = Pos(Vec2::new(i64::MAX, 0));
    assert_eq!(attracted(Force(Vec2::null_vec()), Attraction(Vec2::new(-1, 0)), far), None);
    assert_eq!(
        attracted(Force(Vec2::new(i64::MAX, 0)), Attraction(Vec2::null_vec()), Pos(Vec2::new(10, 0))),
        None
    );
    assert_eq!(
        attracted(Force(Vec2::new(i64::MAX, 0)), Attraction(Vec2::null_vec()), Pos(Vec2::new(9, 0))),
        Some(Force(Vec2::new(i64::MAX, 0)))
    );
}

#[test]
fn reaction_and_movement_formulas() {
    assert_eq!(reacted(Vel(Vec2::new(1, 2)), Force(Vec2::new(10, 20))), Some(Vel(Vec2::new(11, 22))));
    assert_eq!(moved(Pos(Vec2::new(1, 2)), Vel(Vec2::new(-10, -20))), Some(Pos(Vec2::new(-9, -18))));
    assert_eq!(reacted(Vel(Vec2::new(i64::MAX, 0)), Force(Vec2::new(1, 0))), None);
    assert_eq!(moved(Pos(Vec2::new(0, i64::MIN)), Vel(Vec2::new(0, -1))), None);
}

#[test]
fn declared_access_sets() {
    let a = AttractSys.access();
    assert_eq!(a.reads, KindSet::empty().with(ComponentKind::Pos).with(ComponentKind::Attraction));
    assert_eq!(a.writes, KindSet::empty().with(ComponentKind::Force));
    let r = ReactSys.access();
    assert_eq!(r.reads, KindSet::empty().with(ComponentKind::Force));
    assert_eq!(r.writes, KindSet::empty().with(ComponentKind::Vel));
    let m = MoveSys.access();
    assert_eq!(m.reads, KindSet::empty().with(ComponentKind::Vel));
    assert_eq!(m.writes, KindSet::empty().with(ComponentKind::Pos));
    assert_eq!(System::Attract(AttractSys).access(), a);
    assert_eq!(System::React(ReactSys).access(), r);
    assert_eq!(System::Move(MoveSys).access(), m);
    assert!(a.conflicts(&r));
    assert!(r.conflicts(&m));
    assert!(a.conflicts(&m));
}

#[test]
fn join_filter_leaves_force_without_attraction_point() {
    let mut w = full_world();
    let plain = body(&mut w, fixed(7.0, -3.0), fixed(0.0, 0.0), fixed(0.25, 0.5), None);
    let pulled = body(&mut w, fixed(7.0, -3.0), fixed(0.0, 0.0), fixed(0.25, 0.5), Some(fixed(2.0, 2.0)));
    let elsewhere = body(&mut w, fixed(-100.0, 100.0), fixed(0.0, 0.0), fixed(1.0, 1.0), None);
    assert_eq!(AttractSys.run(&mut w), SystemOutcome::Completed);
    assert_eq!(force_of(&w, plain), fixed(0.25, 0.5));
    assert_eq!(force_of(&w, elsewhere), fixed(1.0, 1.0));
    assert_eq!(force_of(&w, pulled), fixed(0.75, 0.0));
}

#[test]
fn join_filter_needs_force_and_position_too() {
    let mut w = full_world();
    let no_pos = w.create_now();
    assert_eq!(w.insert(no_pos, Component::Force(Force(fixed(1.0, 1.0)))), Ok(()));
    assert_eq!(w.insert(no_pos, Component::Attraction(Attraction(fixed(5.0, 5.0)))), Ok(()));
    let no_force = w.create_now();
    assert_eq!(w.insert(no_force, Component::Pos(Pos(fixed(1.0, 1.0)))), Ok(()));
    assert_eq!(w.insert(no_force, Component::Attraction(Attraction(fixed(5.0, 5.0)))), Ok(()));
    assert_eq!(AttractSys.run(&mut w), SystemOutcome::Completed);
    assert_eq!(force_of(&w, no_pos), fixed(1.0, 1.0));
    assert_eq!(w.get(no_force, ComponentKind::Force), None);
}

#[test]
fn attraction_accumulates_onto_the_force() {
    let mut w = full_world();
    let e = body(&mut w, fixed(3.0, 4.0), fixed(9.0, 9.0), fixed(0.5, -0.25), Some(fixed(1.0, 1.0)));
    assert_eq!(AttractSys.run(&mut w), SystemOutcome::Completed);
    assert_eq!(force_of(&w, e), Vec2::new(700_000, 50_000));
    assert_eq!(pos_of(&w, e), fixed(3.0, 4.0));
    assert_eq!(vel_of(&w, e), fixed(9.0, 9.0));
    assert_eq!(AttractSys.run(&mut w), SystemOutcome::Completed);
    assert_eq!(force_of(&w, e), Vec2::new(900_000, 350_000));
}

#[test]
fn single_tick_integration() {
    let mut w = full_world();
    let e = body(&mut w, fixed(0.0, 0.0), fixed(1.0, 0.0), fixed(0.0, 0.0), None);
    let mut s = pipeline(w);
    assert!(s.advance().is_success());
    assert_eq!(force_of(s.world(), e), fixed(0.0, 0.0));
    assert_eq!(vel_of(s.world(), e), fixed(1.0, 0.0));
    assert_eq!(pos_of(s.world(), e), fixed(1.0, 0.0));
    assert!(s.advance().is_success());
    assert_eq!(pos_of(s.world(), e), fixed(2.0, 0.0));
    assert_eq!(vel_of(s.world(), e), fixed(1.0, 0.0));
    assert_eq!(force_of(s.world(), e), fixed(0.0, 0.0));
}

#[test]
fn stages_use_fresh_values_within_one_tick() {
    let mut w = full_world();
    let e = body(&mut w, fixed(0.0, 0.0), fixed(0.0, 0.0), fixed(0.0, 0.0), Some(fixed(5.0, 0.0)));
    let mut s = pipeline(w);
    assert!(s.advance().is_success());
    assert_eq!(force_of(s.world(), e), fixed(-0.5, 0.0));
    assert_eq!(vel_of(s.world(), e), fixed(-0.5, 0.0));
    assert_eq!(pos_of(s.world(), e), fixed(-0.5, 0.0));
    assert_eq!(force_of(s.world(), e), Vec2::new(-500_000, 0));
}

#[test]
fn force_is_not_reset_between_ticks() {
    let mut w = full_world();
    let e = body(&mut w, fixed(0.0, 0.0), fixed(0.0, 0.0), fixed(0.0, 0.0), Some(fixed(5.0, 0.0)));
    let mut s = pipeline(w);
    assert!(s.advance().is_success());
    assert!(s.advance().is_success());
    assert_eq!(force_of(s.world(), e), Vec2::new(-1_050_000, 0));
    assert_eq!(vel_of(s.world(), e), Vec2::new(-1_550_000, 0));
    assert_eq!(pos_of(s.world(), e), Vec2::new(-2_050_000, 0));
}

#[test]
fn registration_order_does_not_change_stage_order() {
    let mut w = full_world();
    let e = body(&mut w, fixed(0.0, 0.0), fixed(0.0, 0.0), fixed(0.0, 0.0), Some(fixed(5.0, 0.0)));
    let mut s = Scheduler::new(w);
    assert_eq!(s.add_system(System::Move(MoveSys), "move system", 2), Ok(()));
    assert_eq!(s.add_system(System::Attract(AttractSys), "attract system", 0), Ok(()));
    assert_eq!(s.add_system(System::React(ReactSys), "react system", 1), Ok(()));
    assert_eq!(s.system_count(), 3);
    assert!(s.system(3).is_none());
    assert_eq!(s.system(0).unwrap().system, System::Attract(AttractSys));
    assert_eq!(s.system(0).unwrap().stage, 0);
    assert_eq!(s.system(0).unwrap().name, "attract system");
    assert_eq!(s.system(1).unwrap().system, System::React(ReactSys));
    assert_eq!(s.system(2).unwrap().system, System::Move(MoveSys));
    assert_eq!(s.system(2).unwrap().name, "move system");
    assert!(s.advance().is_success());
    assert_eq!(force_of(s.world(), e), fixed(-0.5, 0.0));
    assert_eq!(vel_of(s.world(), e), fixed(-0.5, 0.0));
    assert_eq!(pos_of(s.world(), e), fixed(-0.5, 0.0));
}

#[test]
fn reversed_stages_give_the_stale_result() {
    let mut w = full_world();
    let e = body(&mut w, fixed(0.0, 0.0), fixed(0.0, 0.0), fixed(0.0, 0.0), Some(fixed(5.0, 0.0)));
    let mut s = Scheduler::new(w);
    assert_eq!(s.add_system(System::Move(MoveSys), "move system", 0), Ok(()));
    assert_eq!(s.add_system(System::React(ReactSys), "react system", 1), Ok(()));
    assert_eq!(s.add_system(System::Attract(AttractSys), "attract system", 2), Ok(()));
    assert!(s.advance().is_success());
    assert_eq!(force_of(s.world(), e), fixed(-0.5, 0.0));
    assert_eq!(vel_of(s.world(), e), fixed(0.0, 0.0));
    assert_eq!(pos_of(s.world(), e), fixed(0.0, 0.0));
}

#[test]
fn conflicting_systems_cannot_share_a_stage() {
    let mut s = Scheduler::new(full_world());
    assert_eq!(s.add_system(System::Move(MoveSys), "move system", 0), Ok(()));
    assert_eq!(s.add_system(System::Attract(AttractSys), "first", 1), Ok(()));
    assert_eq!(
        s.add_system(System::React(ReactSys), "react system", 0),
        Err(ConfigError::AccessConflict { with: 0 })
    );
    assert_eq!(
        s.add_system(System::React(ReactSys), "react system", 1),
        Err(ConfigError::AccessConflict { with: 1 })
    );
    assert_eq!(
        s.add_system(System::Attract(AttractSys), "second", 1),
        Err(ConfigError::AccessConflict { with: 1 })
    );
    assert_eq!(s.system_count(), 2);
    assert_eq!(s.add_system(System::React(ReactSys), "react system", 2), Ok(()));
    assert_eq!(s.system_count(), 3);
}

#[test]
fn system_on_unregistered_kind_is_refused() {
    let mut w = World::new();
    assert_eq!(w.register(ComponentKind::Pos), Ok(()));
    assert_eq!(w.register(ComponentKind::Force), Ok(()));
    let mut s = Scheduler::new(w);
    assert_eq!(
        s.add_system(System::Attract(AttractSys), "attract system", 0),
        Err(ConfigError::UnregisteredComponent(ComponentKind::Attraction))
    );
    assert_eq!(
        s.add_system(System::Move(MoveSys), "move system", 0),
        Err(ConfigError::UnregisteredComponent(ComponentKind::Vel))
    );
    assert_eq!(s.system_count(), 0);
    assert_eq!(s.mut_world().register(ComponentKind::Vel), Ok(()));
    assert_eq!(s.add_system(System::Move(MoveSys), "move system", 0), Ok(()));
    assert_eq!(s.system_count(), 1);
}

#[test]
fn unregistered_kind_is_reported_before_conflict() {
    let mut w = World::new();
    assert_eq!(w.register(ComponentKind::Pos), Ok(()));
    assert_eq!(w.register(ComponentKind::Vel), Ok(()));
    let mut s = Scheduler::new(w);
    assert_eq!(s.add_system(System::Move(MoveSys), "move system", 0), Ok(()));
    assert_eq!(
        s.add_system(System::React(ReactSys), "react system", 0),
        Err(ConfigError::UnregisteredComponent(ComponentKind::Force))
    );
}

#[test]
fn empty_schedule_changes_nothing() {
    let mut w = full_world();
    let e = body(&mut w, fixed(1.0, 1.0), fixed(1.0, 1.0), fixed(1.0, 1.0), Some(fixed(0.0, 0.0)));
    let mut s = Scheduler::new(w);
    let report = s.advance();
    assert!(report.is_success());
    assert_eq!(report.failures, vec![]);
    assert_eq!(pos_of(s.world(), e), fixed(1.0, 1.0));
    assert_eq!(vel_of(s.world(), e), fixed(1.0, 1.0));
    assert_eq!(force_of(s.world(), e), fixed(1.0, 1.0));
}

#[test]
fn failing_system_is_skipped_and_reported() {
    let mut w = full_world();
    let first = body(&mut w, fixed(0.0, 0.0), Vec2::new(1, 0), Vec2::new(2, 0), None);
    let stuck = body(&mut w, fixed(0.0, 0.0), Vec2::new(i64::MAX, 0), Vec2::new(1, 0), None);
    let later = body(&mut w, fixed(0.0, 0.0), Vec2::new(5, 0), Vec2::new(7, 0), None);
    let mut s = pipeline(w);
    let report = s.advance();
    assert!(!report.is_success());
    assert_eq!(report.failures, vec![Failure { position: 1, entity: stuck }]);
    assert_eq!(vel_of(s.world(), first), Vec2::new(3, 0));
    assert_eq!(vel_of(s.world(), stuck), Vec2::new(i64::MAX, 0));
    assert_eq!(vel_of(s.world(), later), Vec2::new(5, 0));
    assert_eq!(pos_of(s.world(), first), Vec2::new(3, 0));
    assert_eq!(pos_of(s.world(), stuck), Vec2::new(i64::MAX, 0));
    assert_eq!(pos_of(s.world(), later), Vec2::new(5, 0));
}

#[test]
fn system_run_reports_the_first_failing_entity() {
    let mut w = full_world();
    let fine = body(&mut w, Vec2::new(1, 1), Vec2::new(1, 1), Vec2::null_vec(), None);
    let stuck = body(&mut w, Vec2::new(i64::MIN, 0), Vec2::new(-1, 0), Vec2::null_vec(), None);
    let also_stuck = body(&mut w, Vec2::new(0, i64::MAX), Vec2::new(0, 1), Vec2::null_vec(), None);
    let mut m = System::Move(MoveSys);
    assert_eq!(m.run(&mut w), SystemOutcome::Failed { entity: stuck });
    assert_eq!(pos_of(&w, fine), Vec2::new(2, 2));
    assert_eq!(pos_of(&w, stuck), Vec2::new(i64::MIN, 0));
    assert_eq!(pos_of(&w, also_stuck), Vec2::new(0, i64::MAX));
}

#[test]
fn tick_equals_running_the_stages_in_order() {
    let build = || {
        let mut w = full_world();
        let a = body(&mut w, fixed(1.0, 2.0), fixed(0.5, 0.5), fixed(0.25, 0.0), Some(fixed(3.0, 3.0)));
        let b = body(&mut w, fixed(-4.0, 0.0), fixed(0.0, 1.0), fixed(0.0, 0.0), None);
        (w, a, b)
    };
    let (mut one, a, b) = build();
    assert_eq!(AttractSys.run(&mut one), SystemOutcome::Completed);
    assert_eq!(ReactSys.run(&mut one), SystemOutcome::Completed);
    assert_eq!(MoveSys.run(&mut one), SystemOutcome::Completed);
    let (w, _, _) = build();
    let mut s = pipeline(w);
    assert!(s.advance().is_success());
    for e in [a, b] {
        assert_eq!(pos_of(&one, e), pos_of(s.world(), e));
        assert_eq!(vel_of(&one, e), vel_of(s.world(), e));
        assert_eq!(force_of(&one, e), force_of(s.world(), e));
    }
}

#[test]
fn render_query_reads_only() {
    let mut w = full_world();
    let shown = body(&mut w, fixed(1.0, 2.0), fixed(1.0, 0.0), fixed(0.0, 0.0), None);
    let hidden = body(&mut w, fixed(3.0, 4.0), fixed(1.0, 0.0), fixed(0.0, 0.0), None);
    assert_eq!(w.insert(shown, Component::Ren(Ren)), Ok(()));
    let first = w.drawables();
    let second = w.drawables();
    let third = w.drawables();
    assert_eq!(first, vec![(shown, Pos(fixed(1.0, 2.0)))]);
    assert_eq!(first, second);
    assert_eq!(second, third);
    assert_eq!(pos_of(&w, shown), fixed(1.0, 2.0));
    assert_eq!(pos_of(&w, hidden), fixed(3.0, 4.0));
    assert_eq!(vel_of(&w, shown), fixed(1.0, 0.0));
    assert_eq!(force_of(&w, shown), fixed(0.0, 0.0));
    assert_eq!(w.get(hidden, ComponentKind::Ren), None);
    assert_eq!(w.entity_count(), 2);
}

#[test]
fn simulation_starts_as_configured() {
    let velocities = vec![fixed(0.25, 0.75), fixed(0.5, 0.0), fixed(0.0, 0.999999)];
    let app = App::new(&velocities);
    let world = app.planner().world();
    assert_eq!(world.entity_count(), 3);
    for (i, v) in velocities.iter().enumerate() {
        let e = Entity::from_index(i);
        assert_eq!(world.get(e, ComponentKind::Pos), Some(Component::Pos(Pos(Vec2::null_vec()))));
        assert_eq!(world.get(e, ComponentKind::Vel), Some(Component::Vel(Vel(*v))));
        assert_eq!(world.get(e, ComponentKind::Force), Some(Component::Force(Force(Vec2::null_vec()))));
        assert_eq!(world.get(e, ComponentKind::Attraction), None);
        assert_eq!(world.get(e, ComponentKind::Ren), Some(Component::Ren(Ren)));
    }
    assert_eq!(app.planner().system_count(), 3);
    assert_eq!(app.planner().system(0).unwrap().system, System::Attract(AttractSys));
    assert_eq!(app.planner().system(0).unwrap().stage, 0);
    assert_eq!(app.planner().system(0).unwrap().name, "attract system");
    assert_eq!(app.planner().system(1).unwrap().system, System::React(ReactSys));
    assert_eq!(app.planner().system(1).unwrap().stage, 1);
    assert_eq!(app.planner().system(1).unwrap().name, "react system");
    assert_eq!(app.planner().system(2).unwrap().system, System::Move(MoveSys));
    assert_eq!(app.planner().system(2).unwrap().stage, 2);
    assert_eq!(app.planner().system(2).unwrap().name, "move system");
}

#[test]
fn simulation_without_attraction_points_moves_uniformly() {
    let velocities = vec![fixed(0.25, 0.75), fixed(0.5, 0.0)];
    let mut app = App::new(&velocities);
    assert_eq!(
        app.render(),
        vec![
            (Entity::from_index(0), Pos(Vec2::null_vec())),
            (Entity::from_index(1), Pos(Vec2::null_vec())),
        ]
    );
    assert!(app.update().is_success());
    assert!(app.update().is_success());
    assert!(app.update().is_success());
    assert_eq!(
        app.render(),
        vec![
            (Entity::from_index(0), Pos(fixed(0.75, 2.25))),
            (Entity::from_index(1), Pos(fixed(1.5, 0.0))),
        ]
    );
    assert_eq!(force_of(app.planner().world(), Entity::from_index(0)), Vec2::null_vec());
    assert_eq!(vel_of(app.planner().world(), Entity::from_index(0)), fixed(0.25, 0.75));
}

#[test]
fn simulation_without_entities_runs() {
    let mut app = App::new(&vec![]);
    assert!(app.update().is_success());
    assert!(app.render().is_empty());
    assert_eq!(app.planner().world().entity_count(), 0);
}

#[test]
fn attraction_point_added_between_ticks_takes_effect() {
    let mut app = App::new(&vec![fixed(0.0, 0.0)]);
    let e = Entity::from_index(0);
    assert!(app.update().is_success());
    assert_eq!(pos_of(app.planner().world(), e), fixed(0.0, 0.0));
    assert_eq!(
        app.mut_planner().mut_world().insert(e, Component::Attraction(Attraction(fixed(5.0, 0.0)))),
        Ok(())
    );
    assert!(app.update().is_success());
    assert_eq!(force_of(app.planner().world(), e), fixed(-0.5, 0.0));
    assert_eq!(pos_of(app.planner().world(), e), fixed(-0.5, 0.0));
}
