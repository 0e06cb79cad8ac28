//! The world: one store per component type, and the space of entities.

use vstd::prelude::*;
use crate::component::Attraction;
use crate::component::Component;
use crate::component::ComponentKind;
use crate::component::Force;
use crate::component::KindSet;
use crate::component::Pos;
use crate::component::Ren;
use crate::component::Vel;
use crate::entity::Entity;
use crate::entity::ascending;
use crate::error::ConfigError;
use crate::join::join2;
use crate::store::Store;
use crate::store::pair_keys;

verus! {

/// What a world holds, as plain mathematical data.
pub struct WorldView {
    /// The component types that were registered.
    pub registered: KindSet,
    /// How many entities were created; they are those with a smaller index.
    pub live: nat,
    pub pos: Map<Entity, Pos>,
    pub vel: Map<Entity, Vel>,
    pub force: Map<Entity, Force>,
    pub attraction: Map<Entity, Attraction>,
    pub ren: Map<Entity, Ren>,
}

impl WorldView {
    /// Whether `entity` was created by the world.
    pub open spec fn is_live(self, entity: Entity) -> bool {
        entity.index < self.live
    }

    /// The entities that hold a component of type `kind`.
    pub open spec fn holders(self, kind: ComponentKind) -> Set<Entity> {
        match kind {
            ComponentKind::Pos => self.pos.dom(),
            ComponentKind::Vel => self.vel.dom(),
            ComponentKind::Force => self.force.dom(),
            ComponentKind::Attraction => self.attraction.dom(),
            ComponentKind::Ren => self.ren.dom(),
        }
    }

    /// The component of type `kind` that `entity` holds, if any.
    pub open spec fn component(self, entity: Entity, kind: ComponentKind) -> Option<Component> {
        if !self.holders(kind).contains(entity) {
            None
        } else {
            Some(
                match kind {
                    ComponentKind::Pos => Component::Pos(self.pos[entity]),
                    ComponentKind::Vel => Component::Vel(self.vel[entity]),
                    ComponentKind::Force => Component::Force(self.force[entity]),
                    ComponentKind::Attraction => Component::Attraction(self.attraction[entity]),
                    ComponentKind::Ren => Component::Ren(self.ren[entity]),
                },
            )
        }
    }

    /// The world in which `entity` holds `component`, and all else is as before.
    pub open spec fn with(self, entity: Entity, component: Component) -> WorldView {
        match component {
            Component::Pos(v) => WorldView { pos: self.pos.insert(entity, v), ..self },
            Component::Vel(v) => WorldView { vel: self.vel.insert(entity, v), ..self },
            Component::Force(v) => WorldView { force: self.force.insert(entity, v), ..self },
            Component::Attraction(v) => WorldView {
                attraction: self.attraction.insert(entity, v),
                ..self
            },
            Component::Ren(v) => WorldView { ren: self.ren.insert(entity, v), ..self },
        }
    }

    /// The world in which `entity` holds no component, and all else is as before.
    pub open spec fn without(self, entity: Entity) -> WorldView {
        WorldView {
            pos: self.pos.remove(entity),
            vel: self.vel.remove(entity),
            force: self.force.remove(entity),
            attraction: self.attraction.remove(entity),
            ren: self.ren.remove(entity),
            ..self
        }
    }

    /// The world in which `kind` is registered too.
    pub open spec fn with_registered(self, kind: ComponentKind) -> WorldView {
        WorldView {
            registered: KindSet {
                pos: self.registered.pos || kind == ComponentKind::Pos,
                vel: self.registered.vel || kind == ComponentKind::Vel,
                force: self.registered.force || kind == ComponentKind::Force,
                attraction: self.registered.attraction || kind == ComponentKind::Attraction,
                ren: self.registered.ren || kind == ComponentKind::Ren,
            },
            ..self
        }
    }

    /// Only created entities hold components, and only of registered types.
    pub open spec fn wf(self) -> bool {
        &&& self.live <= usize::MAX
        &&& forall|kind: ComponentKind, e: Entity| #[trigger]
            self.holders(kind).contains(e) ==> self.registered.has(kind) && self.is_live(e)
    }

    /// Attaching a component of a registered type to a created entity keeps
    /// the world well formed.
    pub proof fn lemma_with_wf(self, entity: Entity, component: Component)
        requires
            self.wf(),
            self.registered.has(component.spec_kind()),
            self.is_live(entity),
        ensures
            self.with(entity, component).wf(),
    {
        let after = self.with(entity, component);
        assert forall|kind: ComponentKind, e: Entity| #[trigger]
            after.holders(kind).contains(e) implies after.registered.has(kind) && after.is_live(
            e,
        ) by {
            if !(kind == component.spec_kind() && e == entity) {
                assert(self.holders(kind).contains(e));
            }
        }
    }

    /// Removing an entity's components keeps the world well formed.
    pub proof fn lemma_without_wf(self, entity: Entity)
        requires
            self.wf(),
        ensures
            self.without(entity).wf(),
    {
        let after = self.without(entity);
        assert forall|kind: ComponentKind, e: Entity| #[trigger]
            after.holders(kind).contains(e) implies after.registered.has(kind) && after.is_live(
            e,
        ) by {
            assert(self.holders(kind).contains(e));
        }
    }

    /// Registering a type keeps the world well formed.
    pub proof fn lemma_with_registered_wf(self, kind: ComponentKind)
        requires
            self.wf(),
        ensures
            self.with_registered(kind).wf(),
    {
        let after = self.with_registered(kind);
        assert forall|k: ComponentKind, e: Entity| #[trigger]
            after.holders(k).contains(e) implies after.registered.has(k) && after.is_live(e) by {
            assert(self.holders(k).contains(e));
        }
    }

    /// Creating one more entity keeps the world well formed.
    pub proof fn lemma_grown_wf(self)
        requires
            self.wf(),
            self.live < usize::MAX,
        ensures
            (WorldView { live: self.live + 1, ..self }).wf(),
    {
        let after = WorldView { live: self.live + 1, ..self };
        assert forall|k: ComponentKind, e: Entity| #[trigger]
            after.holders(k).contains(e) implies after.registered.has(k) && after.is_live(e) by {
            assert(self.holders(k).contains(e));
        }
    }

    /// Whether `entity` is drawn: it holds both a position and the marker.
    pub open spec fn drawn(self, entity: Entity) -> bool {
        self.pos.contains_key(entity) && self.ren.contains_key(entity)
    }
}

/// Owns the component stores and hands out entities.
pub struct World {
    registered: KindSet,
    live: usize,
    pos: Store<Pos>,
    vel: Store<Vel>,
    force: Store<Force>,
    attraction: Store<Attraction>,
    ren: Store<Ren>,
}

impl View for World {
    type V = WorldView;

    closed spec fn view(&self) -> WorldView {
        WorldView {
            registered: self.registered,
            live: self.live as nat,
            pos: self.pos@,
            vel: self.vel@,
            force: self.force@,
            attraction: self.attraction@,
            ren: self.ren@,
        }
    }
}

impl World {
    /// A world without entities, in which no component type is registered.
    pub fn new() -> (w: World)
        ensures
            w@.wf(),
            w@.live == 0,
            forall|k: ComponentKind| !w@.registered.has(k),
            forall|k: ComponentKind| w@.holders(k) == Set::<Entity>::empty(),
    {
        let w = World {
            registered: KindSet::empty(),
            live: 0,
            pos: Store::new(),
            vel: Store::new(),
            force: Store::new(),
            attraction: Store::new(),
            ren: Store::new(),
        };
        proof {
            assert forall|k: ComponentKind| w@.holders(k) == Set::<Entity>::empty() by {
                assert(w@.holders(k) =~= Set::<Entity>::empty());
            }
        }
        w
    }

    /// Registers a component type. A type can be registered once: the second
    /// attempt is refused and changes nothing.
    pub fn register(&mut self, kind: ComponentKind) -> (r: Result<(), ConfigError>)
        requires
            old(self)@.wf(),
        ensures
            final(self)@.wf(),
            r.is_ok() == !old(self)@.registered.has(kind),
            r.is_ok() ==> final(self)@ == old(self)@.with_registered(kind),
            r.is_err() ==> r == Err::<(), ConfigError>(ConfigError::AlreadyRegistered(kind))
                && final(self)@ == old(self)@,
    {
        if self.registered.contains(kind) {
            return Err(ConfigError::AlreadyRegistered(kind));
        }
        match kind {
            ComponentKind::Pos => { self.registered.pos = true; },
            ComponentKind::Vel => { self.registered.vel = true; },
            ComponentKind::Force => { self.registered.force = true; },
            ComponentKind::Attraction => { self.registered.attraction = true; },
            ComponentKind::Ren => { self.registered.ren = true; },
        }
        assert(self@ == old(self)@.with_registered(kind));
        proof {
            old(self)@.lemma_with_registered_wf(kind);
        }
        Ok(())
    }

    /// Whether `kind` was registered.
    pub fn is_registered(&self, kind: ComponentKind) -> (b: bool)
        ensures
            b == self@.registered.has(kind),
    {
        self.registered.contains(kind)
    }

    /// The component types that were registered.
    pub fn registered_kinds(&self) -> (s: KindSet)
        ensures
            s == self@.registered,
    {
        self.registered
    }

    /// How many entities were created.
    pub fn entity_count(&self) -> (n: usize)
        ensures
            n == self@.live,
    {
        self.live
    }

    /// Whether `entity` was created by this world.
    pub fn is_live(&self, entity: Entity) -> (b: bool)
        ensures
            b == self@.is_live(entity),
    {
        entity.index < self.live
    }

    /// Creates an entity without components. Entities are numbered in the
    /// order of their creation.
    pub fn create_now(&mut self) -> (e: Entity)
        requires
            old(self)@.wf(),
            old(self)@.live < usize::MAX,
        ensures
            final(self)@.wf(),
            e.index == old(self)@.live,
            final(self)@ == (WorldView { live: old(self)@.live + 1, ..old(self)@ }),
    {
        let e = Entity { index: self.live };
        self.live = self.live + 1;
        proof {
            old(self)@.lemma_grown_wf();
        }
        e
    }

    /// Attaches `component` to `entity`, in place of any component of the
    /// same type that it held. Refused, with the world unchanged, where the
    /// type is not registered or the entity was never created.
    pub fn insert(&mut self, entity: Entity, component: Component) -> (r: Result<(), ConfigError>)
        requires
            old(self)@.wf(),
        ensures
            final(self)@.wf(),
            r.is_ok() == (old(self)@.registered.has(component.spec_kind()) && old(self)@.is_live(
                entity,
            )),
            r.is_ok() ==> final(self)@ == old(self)@.with(entity, component),
            r.is_err() ==> final(self)@ == old(self)@,
            !old(self)@.registered.has(component.spec_kind()) ==> r == Err::<(), ConfigError>(
                ConfigError::UnregisteredComponent(component.spec_kind()),
            ),
            old(self)@.registered.has(component.spec_kind()) && !old(self)@.is_live(entity) ==> r
                == Err::<(), ConfigError>(ConfigError::UnknownEntity(entity)),
    {
        if !self.registered.contains(component.kind()) {
            return Err(ConfigError::UnregisteredComponent(component.kind()));
        }
        if entity.index >= self.live {
            return Err(ConfigError::UnknownEntity(entity));
        }
        match component {
            Component::Pos(v) => { self.pos.insert(entity, v); },
            Component::Vel(v) => { self.vel.insert(entity, v); },
            Component::Force(v) => { self.force.insert(entity, v); },
            Component::Attraction(v) => { self.attraction.insert(entity, v); },
            Component::Ren(v) => { self.ren.insert(entity, v); },
        }
        assert(self@ == old(self)@.with(entity, component));
        proof {
            old(self)@.lemma_with_wf(entity, component);
        }
        Ok(())
    }

    /// The component of type `kind` that `entity` holds, if any.
    pub fn get(&self, entity: Entity, kind: ComponentKind) -> (r: Option<Component>)
        ensures
            r == self@.component(entity, kind),
    {
        match kind {
            ComponentKind::Pos => match self.pos.get(entity) {
                Some(v) => Some(Component::Pos(*v)),
                None => None,
            },
            ComponentKind::Vel => match self.vel.get(entity) {
                Some(v) => Some(Component::Vel(*v)),
                None => None,
            },
            ComponentKind::Force => match self.force.get(entity) {
                Some(v) => Some(Component::Force(*v)),
                None => None,
            },
            ComponentKind::Attraction => match self.attraction.get(entity) {
                Some(v) => Some(Component::Attraction(*v)),
                None => None,
            },
            ComponentKind::Ren => match self.ren.get(entity) {
                Some(v) => Some(Component::Ren(*v)),
                None => None,
            },
        }
    }

    /// Destroys `entity` by removing every component that it holds. The
    /// components of all other entities stay as they are.
    pub fn delete(&mut self, entity: Entity)
        requires
            old(self)@.wf(),
        ensures
            final(self)@.wf(),
            final(self)@ == old(self)@.without(entity),
    {
        let _ = self.pos.remove(entity);
        let _ = self.vel.remove(entity);
        let _ = self.force.remove(entity);
        let _ = self.attraction.remove(entity);
        let _ = self.ren.remove(entity);
        assert(self@ == old(self)@.without(entity));
        proof {
            old(self)@.lemma_without_wf(entity);
        }
    }

    /// The store of positions.
    pub fn read_pos(&self) -> (s: &Store<Pos>)
        ensures
            s@ == self@.pos,
    {
        &self.pos
    }

    /// The store of velocities.
    pub fn read_vel(&self) -> (s: &Store<Vel>)
        ensures
            s@ == self@.vel,
    {
        &self.vel
    }

    /// The store of forces.
    pub fn read_force(&self) -> (s: &Store<Force>)
        ensures
            s@ == self@.force,
    {
        &self.force
    }

    /// The store of attraction points.
    pub fn read_attraction(&self) -> (s: &Store<Attraction>)
        ensures
            s@ == self@.attraction,
    {
        &self.attraction
    }

    /// The store of drawing markers.
    pub fn read_ren(&self) -> (s: &Store<Ren>)
        ensures
            s@ == self@.ren,
    {
        &self.ren
    }

    /// Exclusive access to the store of positions. What the caller leaves in
    /// the store becomes the world's positions; nothing else changes.
    pub fn write_pos(&mut self) -> (s: &mut Store<Pos>)
        ensures
            s@ == old(self)@.pos,
            final(self)@ == (WorldView { pos: final(s)@, ..old(self)@ }),
    {
        &mut self.pos
    }

    /// Exclusive access to the store of velocities. What the caller leaves
    /// in the store becomes the world's velocities; nothing else changes.
    pub fn write_vel(&mut self) -> (s: &mut Store<Vel>)
        ensures
            s@ == old(self)@.vel,
            final(self)@ == (WorldView { vel: final(s)@, ..old(self)@ }),
    {
        &mut self.vel
    }

    /// Exclusive access to the store of forces. What the caller leaves in
    /// the store becomes the world's forces; nothing else changes.
    pub fn write_force(&mut self) -> (s: &mut Store<Force>)
        ensures
            s@ == old(self)@.force,
            final(self)@ == (WorldView { force: final(s)@, ..old(self)@ }),
    {
        &mut self.force
    }

    /// The positions to draw: one pair for each entity that holds both a
    /// position and the drawing marker, in increasing order of index. The
    /// world is only read.
    pub fn drawables(&self) -> (r: Vec<(Entity, Pos)>)
        ensures
            ascending(pair_keys(r@)),
            forall|k: int| 0 <= k < r@.len() ==> (#[trigger] r@[k]).1 == self@.pos[r@[k].0],
            forall|e: Entity| self@.drawn(e) <==> pair_keys(r@).contains(e),
    {
        let drawn = join2(&self.pos, &self.ren);
        let mut out: Vec<(Entity, Pos)> = Vec::new();
        let mut i: usize = 0;
        while i < drawn.len()
            invariant
                i <= drawn@.len(),
                out@.len() == i,
                forall|e: Entity|
                    drawn@.contains(e) <==> self.pos@.contains_key(e) && self.ren@.contains_key(e),
                forall|k: int|
                    0 <= k < i ==> (#[trigger] out@[k]).0 == drawn@[k] && out@[k].1
                        == self.pos@[drawn@[k]],
            decreases drawn@.len() - i,
        {
            let e = drawn[i];
            assert(drawn@.contains(e));
            match self.pos.get(e) {
                Some(p) => {
                    out.push((e, *p));
                },
                None => {
                    assert(false);
                },
            }
            i += 1;
        }
        proof {
            assert(pair_keys(out@) =~= drawn@);
        }
        out
    }
}

} // verus!
