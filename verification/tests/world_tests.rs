use particle_ecs::access::AccessSet;
use particle_ecs::component::Attraction;
use particle_ecs::component::Component;
use particle_ecs::component::ComponentKind;
use particle_ecs::component::Force;
use particle_ecs::component::KindSet;
use particle_ecs::component::Pos;
use particle_ecs::component::Ren;
use particle_ecs::component::Vel;
use particle_ecs::entity::Entity;
use particle_ecs::error::ConfigError;
use particle_ecs::vec2::Vec2;
use particle_ecs::world::World;

const KINDS: [ComponentKind; 5] = [
    ComponentKind::Pos,
    ComponentKind::Vel,
    ComponentKind::Force,
    ComponentKind::Attraction,
    ComponentKind::Ren,
];

fn full_world() -> World {
    let mut w = World::new();
    for k in KINDS {
        assert_eq!(w.register(k), Ok(()));
    }
    w
}

#[test]
fn new_world_has_nothing() {
    let w = World::new();
    assert_eq!(w.entity_count(), 0);
    for k in KINDS {
        assert!(!w.is_registered(k));
    }
    assert!(!w.is_live(Entity::from_index(0)));
    assert!(w.drawables().is_empty());
}

#[test]
fn register_once_succeeds() {
    let mut w = World::new();
    assert_eq!(w.register(ComponentKind::Vel), Ok(()));
    assert!(w.is_registered(ComponentKind::Vel));
    assert!(!w.is_registered(ComponentKind::Pos));
    assert_eq!(
        w.registered_kinds(),
        KindSet { pos: false, vel: true, force: false, attraction: false, ren: false }
    );
}

#[test]
fn register_twice_is_refused() {
    let mut w = World::new();
    assert_eq!(w.register(ComponentKind::Force), Ok(()));
    assert_eq!(
        w.register(ComponentKind::Force),
        Err(ConfigError::AlreadyRegistered(ComponentKind::Force))
    );
    assert!(w.is_registered(ComponentKind::Force));
}

#[test]
fn entities_are_numbered_in_order() {
    let mut w = full_world();
    assert_eq!(w.create_now(), Entity::from_index(0));
    assert_eq!(w.create_now(), Entity::from_index(1));
    assert_eq!(w.entity_count(), 2);
    assert!(w.is_live(Entity::from_index(1)));
    assert!(!w.is_live(Entity::from_index(2)));
}

#[test]
fn insert_then_get_each_kind() {
    let mut w = full_world();
    let e = w.create_now();
    let values = [
        Component::Pos(Pos(Vec2::new(1, 2))),
        Component::Vel(Vel(Vec2::new(3, 4))),
        Component::Force(Force(Vec2::new(5, 6))),
        Component::Attraction(Attraction(Vec2::new(7, 8))),
        Component::Ren(Ren),
    ];
    for (k, v) in KINDS.iter().zip(values.iter()) {
        assert_eq!(v.kind(), *k);
        assert_eq!(w.get(e, *k), None);
        assert_eq!(w.insert(e, *v), Ok(()));
        assert_eq!(w.get(e, *k), Some(*v));
    }
    assert_eq!(w.read_pos().get(e), Some(&Pos(Vec2::new(1, 2))));
    assert_eq!(w.read_vel().get(e), Some(&Vel(Vec2::new(3, 4))));
    assert_eq!(w.read_force().get(e), Some(&Force(Vec2::new(5, 6))));
    assert_eq!(w.read_attraction().get(e), Some(&Attraction(Vec2::new(7, 8))));
    assert_eq!(w.read_ren().get(e), Some(&Ren));
}

#[test]
fn insert_overwrites_same_kind_only() {
    let mut w = full_world();
    let e = w.create_now();
    assert_eq!(w.insert(e, Component::Pos(Pos(Vec2::new(1, 1)))), Ok(()));
    assert_eq!(w.insert(e, Component::Vel(Vel(Vec2::new(2, 2)))), Ok(()));
    assert_eq!(w.insert(e, Component::Pos(Pos(Vec2::new(9, 9)))), Ok(()));
    assert_eq!(w.get(e, ComponentKind::Pos), Some(Component::Pos(Pos(Vec2::new(9, 9)))));
    assert_eq!(w.get(e, ComponentKind::Vel), Some(Component::Vel(Vel(Vec2::new(2, 2)))));
}

#[test]
fn insert_of_unregistered_kind_is_refused() {
    let mut w = World::new();
    assert_eq!(w.register(ComponentKind::Pos), Ok(()));
    let e = w.create_now();
    assert_eq!(
        w.insert(e, Component::Vel(Vel(Vec2::null_vec()))),
        Err(ConfigError::UnregisteredComponent(ComponentKind::Vel))
    );
    assert_eq!(w.get(e, ComponentKind::Vel), None);
    assert_eq!(w.insert(e, Component::Pos(Pos(Vec2::null_vec()))), Ok(()));
}

#[test]
fn insert_for_unknown_entity_is_refused() {
    let mut w = full_world();
    let stranger = Entity::from_index(3);
    assert_eq!(
        w.insert(stranger, Component::Ren(Ren)),
        Err(ConfigError::UnknownEntity(stranger))
    );
    assert_eq!(w.get(stranger, ComponentKind::Ren), None);
}

#[test]
fn unregistered_kind_is_reported_before_unknown_entity() {
    let mut w = World::new();
    assert_eq!(
        w.insert(Entity::from_index(0), Component::Ren(Ren)),
        Err(ConfigError::UnregisteredComponent(ComponentKind::Ren))
    );
}

#[test]
fn delete_removes_all_components_of_one_entity() {
    let mut w = full_world();
    let a = w.create_now();
    let b = w.create_now();
    for e in [a, b] {
        assert_eq!(w.insert(e, Component::Pos(Pos(Vec2::new(1, 1)))), Ok(()));
        assert_eq!(w.insert(e, Component::Vel(Vel(Vec2::new(2, 2)))), Ok(()));
        assert_eq!(w.insert(e, Component::Ren(Ren)), Ok(()));
    }
    w.delete(a);
    for k in KINDS {
        assert_eq!(w.get(a, k), None);
    }
    assert_eq!(w.get(b, ComponentKind::Pos), Some(Component::Pos(Pos(Vec2::new(1, 1)))));
    assert_eq!(w.get(b, ComponentKind::Vel), Some(Component::Vel(Vel(Vec2::new(2, 2)))));
    assert_eq!(w.drawables(), vec![(b, Pos(Vec2::new(1, 1)))]);
    assert_eq!(w.entity_count(), 2);
}

#[test]
fn exclusive_store_access_writes_through() {
    let mut w = full_world();
    let e = w.create_now();
    assert_eq!(w.insert(e, Component::Force(Force(Vec2::new(1, 1)))), Ok(()));
    match w.write_force().get_mut(e) {
        Some(f) => *f = Force(Vec2::new(5, 5)),
        None => panic!("the entity holds a force"),
    }
    assert_eq!(w.get(e, ComponentKind::Force), Some(Component::Force(Force(Vec2::new(5, 5)))));
    assert_eq!(w.insert(e, Component::Pos(Pos(Vec2::new(1, 0)))), Ok(()));
    w.write_pos().insert(e, Pos(Vec2::new(2, 0)));
    assert_eq!(w.read_pos().get(e), Some(&Pos(Vec2::new(2, 0))));
    assert_eq!(w.insert(e, Component::Vel(Vel(Vec2::new(1, 0)))), Ok(()));
    w.write_vel().insert(e, Vel(Vec2::new(3, 0)));
    assert_eq!(w.read_vel().get(e), Some(&Vel(Vec2::new(3, 0))));
}

#[test]
fn drawables_need_position_and_marker() {
    let mut w = full_world();
    let a = w.create_now();
    let b = w.create_now();
    let c = w.create_now();
    let d = w.create_now();
    assert_eq!(w.insert(a, Component::Pos(Pos(Vec2::new(1, 0)))), Ok(()));
    assert_eq!(w.insert(a, Component::Ren(Ren)), Ok(()));
    assert_eq!(w.insert(b, Component::Pos(Pos(Vec2::new(2, 0)))), Ok(()));
    assert_eq!(w.insert(c, Component::Ren(Ren)), Ok(()));
    assert_eq!(w.insert(d, Component::Pos(Pos(Vec2::new(4, 0)))), Ok(()));
    assert_eq!(w.insert(d, Component::Ren(Ren)), Ok(()));
    assert_eq!(w.drawables(), vec![(a, Pos(Vec2::new(1, 0))), (d, Pos(Vec2::new(4, 0)))]);
}

#[test]
fn kind_sets_hold_what_was_added() {
    let s = KindSet::empty();
    for k in KINDS {
        assert!(!s.contains(k));
    }
    let s = s.with(ComponentKind::Force).with(ComponentKind::Ren);
    assert!(s.contains(ComponentKind::Force));
    assert!(s.contains(ComponentKind::Ren));
    assert!(!s.contains(ComponentKind::Pos));
    assert!(!s.contains(ComponentKind::Vel));
    assert!(!s.contains(ComponentKind::Attraction));
}

#[test]
fn readers_never_conflict() {
    let readers = AccessSet {
        reads: KindSet::empty().with(ComponentKind::Pos).with(ComponentKind::Ren),
        writes: KindSet::empty(),
    };
    assert!(!readers.conflicts(&readers));
}

#[test]
fn writer_conflicts_with_reader_and_writer_of_same_kind() {
    let writer = AccessSet {
        reads: KindSet::empty(),
        writes: KindSet::empty().with(ComponentKind::Pos),
    };
    let reader = AccessSet {
        reads: KindSet::empty().with(ComponentKind::Pos),
        writes: KindSet::empty(),
    };
    let elsewhere = AccessSet {
        reads: KindSet::empty().with(ComponentKind::Force),
        writes: KindSet::empty().with(ComponentKind::Vel),
    };
    assert!(writer.conflicts(&reader));
    assert!(reader.conflicts(&writer));
    assert!(writer.conflicts(&writer));
    assert!(!writer.conflicts(&elsewhere));
    assert!(!elsewhere.conflicts(&writer));
    assert!(!reader.conflicts(&elsewhere));
    assert!(writer.clashes_on(&reader, ComponentKind::Pos));
    assert!(!writer.clashes_on(&reader, ComponentKind::Vel));
    assert!(writer.uses(ComponentKind::Pos));
    assert!(!writer.uses(ComponentKind::Ren));
}

#[test]
fn first_unregistered_follows_declaration_order() {
    let access = AccessSet {
        reads: KindSet::empty().with(ComponentKind::Attraction).with(ComponentKind::Pos),
        writes: KindSet::empty().with(ComponentKind::Force),
    };
    let none = KindSet::empty();
    assert_eq!(access.first_unregistered(&none), Some(ComponentKind::Pos));
    let some = none.with(ComponentKind::Pos);
    assert_eq!(access.first_unregistered(&some), Some(ComponentKind::Force));
    let more = some.with(ComponentKind::Force);
    assert_eq!(access.first_unregistered(&more), Some(ComponentKind::Attraction));
    let all = more.with(ComponentKind::Attraction);
    assert_eq!(access.first_unregistered(&all), None);
}
