//! The entity-component store and the systems that run over it.

use crate::ecs::pool::{added, ComponentPool};
use crate::quadtree::rect::Rectangle;
use crate::quadtree::Quadtree;
use vstd::prelude::*;

pub mod player;
pub mod pool;

verus! {

/// An entity is an identifier and nothing else.
pub type Entity = u32;

/// A handle by which a front end finds a drawable resource. The store keeps
/// the handle and never looks behind it; many entities may hold the same one.
pub type TextureId = u32;

/// Where an entity is, in world units.
#[derive(Clone, Copy, Debug, PartialEq, Eq, Structural)]
pub struct Position {
    pub x: i32,
    pub y: i32,
}

/// How far an entity moves in one tick, in world units.
#[derive(Clone, Copy, Debug, PartialEq, Eq, Structural)]
pub struct Velocity {
    pub dx: i32,
    pub dy: i32,
}

/// What an entity looks like.
#[derive(Clone, Copy, Debug, PartialEq, Eq, Structural)]
pub struct Sprite {
    pub texture: TextureId,
}

/// The sum of a coordinate and a displacement, held at the nearest end of the
/// coordinate range where the exact sum lies beyond it.
pub open spec fn clamped_sum(a: int, b: int) -> int {
    if a + b > i32::MAX {
        i32::MAX as int
    } else if a + b < i32::MIN {
        i32::MIN as int
    } else {
        a + b
    }
}

impl Position {
    /// The position one tick later at velocity `v`.
    pub open spec fn moved(self, v: Velocity) -> Position {
        Position {
            x: clamped_sum(self.x as int, v.dx as int) as i32,
            y: clamped_sum(self.y as int, v.dy as int) as i32,
        }
    }

    /// Moves the position by one tick at velocity `v`.
    pub fn advance(&mut self, v: Velocity)
        ensures
            *final(self) == old(self).moved(v),
    {
        self.x = step(self.x, v.dx);
        self.y = step(self.y, v.dy);
    }
}

/// One coordinate after one tick.
fn step(a: i32, b: i32) -> (sum: i32)
    ensures
        sum == clamped_sum(a as int, b as int),
{
    match a.checked_add(b) {
        Some(sum) => sum,
        None => if b > 0 {
            i32::MAX
        } else {
            i32::MIN
        },
    }
}

/// Hands out entity identifiers in increasing order, starting at 0.
pub struct EntityAllocator {
    next_id: Entity,
}

impl EntityAllocator {
    /// The identifier that the next call of `allocate` returns.
    pub closed spec fn next_id(&self) -> Entity {
        self.next_id
    }

    /// Whether `id` has been handed out, as long as the counter has not
    /// wrapped around.
    pub open spec fn issued(&self, id: Entity) -> bool {
        id < self.next_id()
    }

    /// An allocator that has handed out nothing.
    pub fn new() -> (allocator: Self)
        ensures
            allocator.next_id() == 0,
    {
        Self { next_id: 0 }
    }

    /// An allocator whose next identifier is `first`.
    pub fn starting_at(first: Entity) -> (allocator: Self)
        ensures
            allocator.next_id() == first,
    {
        Self { next_id: first }
    }

    /// A fresh identifier, greater than every one handed out before. After
    /// the greatest identifier the counter wraps around to 0.
    pub fn allocate(&mut self) -> (id: Entity)
        ensures
            id == old(self).next_id(),
            forall|earlier: Entity| old(self).issued(earlier) ==> earlier < id,
            final(self).next_id() == if id == u32::MAX {
                0
            } else {
                id + 1
            },
            id < u32::MAX ==> forall|e: Entity|
                final(self).issued(e) <==> old(self).issued(e) || e == id,
    {
        let id: Entity = self.next_id;
        self.next_id = if id == u32::MAX {
            0
        } else {
            id + 1
        };
        id
    }
}

/// The positions after one tick: every entity that has a velocity has moved
/// by it, every other one is where it was.
pub open spec fn advanced(
    positions: Map<Entity, Position>,
    velocities: Map<Entity, Velocity>,
) -> Map<Entity, Position> {
    Map::new(
        |e: Entity| positions.contains_key(e),
        |e: Entity|
            if velocities.contains_key(e) {
                positions[e].moved(velocities[e])
            } else {
                positions[e]
            },
    )
}

/// The store: an allocator of entities and one pool for each kind of
/// component. Nothing ties the pools together: an entity may have a position
/// without a velocity, or the other way round.
pub struct ECS {
    allocator: EntityAllocator,
    position_pool: ComponentPool<Position>,
    velocity_pool: ComponentPool<Velocity>,
    sprite_pool: ComponentPool<Sprite>,
}

impl ECS {
    /// The state of the allocator.
    pub closed spec fn allocator(&self) -> EntityAllocator {
        self.allocator
    }

    /// The pool of positions.
    pub closed spec fn position_pool(&self) -> ComponentPool<Position> {
        self.position_pool
    }

    /// The pool of velocities.
    pub closed spec fn velocity_pool(&self) -> ComponentPool<Velocity> {
        self.velocity_pool
    }

    /// The pool of sprites.
    pub closed spec fn sprite_pool(&self) -> ComponentPool<Sprite> {
        self.sprite_pool
    }

    /// The position of each entity that has one.
    pub open spec fn positions(&self) -> Map<Entity, Position> {
        self.position_pool()@
    }

    /// The velocity of each entity that has one.
    pub open spec fn velocities(&self) -> Map<Entity, Velocity> {
        self.velocity_pool()@
    }

    /// The sprite of each entity that has one.
    pub open spec fn sprites(&self) -> Map<Entity, Sprite> {
        self.sprite_pool()@
    }

    /// Every pool is packed and consistent.
    pub open spec fn wf(&self) -> bool {
        &&& self.position_pool().wf()
        &&& self.velocity_pool().wf()
        &&& self.sprite_pool().wf()
    }

    /// A store with no entity and no component.
    pub fn new() -> (ecs: Self)
        ensures
            ecs.wf(),
            ecs.allocator().next_id() == 0,
            ecs.positions() == Map::<Entity, Position>::empty(),
            ecs.velocities() == Map::<Entity, Velocity>::empty(),
            ecs.sprites() == Map::<Entity, Sprite>::empty(),
            ecs.position_pool().entity_seq() == Seq::<Entity>::empty(),
            ecs.velocity_pool().entity_seq() == Seq::<Entity>::empty(),
            ecs.sprite_pool().entity_seq() == Seq::<Entity>::empty(),
    {
        Self {
            allocator: EntityAllocator::new(),
            position_pool: ComponentPool::new(),
            velocity_pool: ComponentPool::new(),
            sprite_pool: ComponentPool::new(),
        }
    }

    /// A fresh entity, with no component yet.
    pub fn allocate_entity(&mut self) -> (id: Entity)
        ensures
            id == old(self).allocator().next_id(),
            forall|earlier: Entity| old(self).allocator().issued(earlier) ==> earlier < id,
            final(self).allocator().next_id() == if id == u32::MAX {
                0
            } else {
                id + 1
            },
            final(self).position_pool() == old(self).position_pool(),
            final(self).velocity_pool() == old(self).velocity_pool(),
            final(self).sprite_pool() == old(self).sprite_pool(),
    {
        self.allocator.allocate()
    }

    /// Puts `id` at (`x`, `y`), unless it already has a position.
    pub fn add_position(&mut self, id: Entity, x: i32, y: i32)
        requires
            old(self).wf(),
        ensures
            final(self).wf(),
            final(self).positions() == added(old(self).positions(), id, Position { x, y }),
            final(self).position_pool().entity_seq() == if old(self).positions().contains_key(id) {
                old(self).position_pool().entity_seq()
            } else {
                old(self).position_pool().entity_seq().push(id)
            },
            final(self).allocator() == old(self).allocator(),
            final(self).velocity_pool() == old(self).velocity_pool(),
            final(self).sprite_pool() == old(self).sprite_pool(),
    {
        self.position_pool.add(id, Position { x, y });
    }

    /// Gives `id` the velocity (`dx`, `dy`), unless it already has one.
    pub fn add_velocity(&mut self, id: Entity, dx: i32, dy: i32)
        requires
            old(self).wf(),
        ensures
            final(self).wf(),
            final(self).velocities() == added(old(self).velocities(), id, Velocity { dx, dy }),
            final(self).velocity_pool().entity_seq() == if old(self).velocities().contains_key(id) {
                old(self).velocity_pool().entity_seq()
            } else {
                old(self).velocity_pool().entity_seq().push(id)
            },
            final(self).allocator() == old(self).allocator(),
            final(self).position_pool() == old(self).position_pool(),
            final(self).sprite_pool() == old(self).sprite_pool(),
    {
        self.velocity_pool.add(id, Velocity { dx, dy });
    }

    /// Gives `id` a sprite with the given texture, unless it already has a
    /// sprite.
    pub fn add_sprite(&mut self, id: Entity, texture: TextureId)
        requires
            old(self).wf(),
        ensures
            final(self).wf(),
            final(self).sprites() == added(old(self).sprites(), id, Sprite { texture }),
            final(self).sprite_pool().entity_seq() == if old(self).sprites().contains_key(id) {
                old(self).sprite_pool().entity_seq()
            } else {
                old(self).sprite_pool().entity_seq().push(id)
            },
            final(self).allocator() == old(self).allocator(),
            final(self).position_pool() == old(self).position_pool(),
            final(self).velocity_pool() == old(self).velocity_pool(),
    {
        self.sprite_pool.add(id, Sprite { texture });
    }

    /// The position of `id`, if it has one.
    pub fn get_position(&self, id: Entity) -> (found: Option<&Position>)
        requires
            self.wf(),
        ensures
            found == if self.positions().contains_key(id) {
                Some(&self.positions()[id])
            } else {
                None
            },
    {
        self.position_pool.get(id)
    }

    /// The position of `id` for writing, if it has one.
    pub(crate) fn get_position_mut(&mut self, id: Entity) -> (found: Option<&mut Position>)
        requires
            old(self).wf(),
        ensures
            final(self).wf(),
            final(self).position_pool().entity_seq() == old(self).position_pool().entity_seq(),
            final(self).position_pool().slots() == old(self).position_pool().slots(),
            final(self).allocator() == old(self).allocator(),
            final(self).velocity_pool() == old(self).velocity_pool(),
            final(self).sprite_pool() == old(self).sprite_pool(),
            match found {
                Some(position) => {
                    &&& old(self).positions().contains_key(id)
                    &&& *position == old(self).positions()[id]
                    &&& final(self).positions() == old(self).positions().insert(
                        id,
                        *final(position),
                    )
                },
                None => {
                    &&& !old(self).positions().contains_key(id)
                    &&& final(self).positions() == old(self).positions()
                },
            },
    {
        self.position_pool.get_mut(id)
    }

    /// The velocity of `id`, if it has one.
    pub fn get_velocity(&self, id: Entity) -> (found: Option<&Velocity>)
        requires
            self.wf(),
        ensures
            found == if self.velocities().contains_key(id) {
                Some(&self.velocities()[id])
            } else {
                None
            },
    {
        self.velocity_pool.get(id)
    }

    /// The velocity of `id` for writing, if it has one.
    pub(crate) fn get_velocity_mut(&mut self, id: Entity) -> (found: Option<&mut Velocity>)
        requires
            old(self).wf(),
        ensures
            final(self).wf(),
            final(self).velocity_pool().entity_seq() == old(self).velocity_pool().entity_seq(),
            final(self).velocity_pool().slots() == old(self).velocity_pool().slots(),
            final(self).allocator() == old(self).allocator(),
            final(self).position_pool() == old(self).position_pool(),
            final(self).sprite_pool() == old(self).sprite_pool(),
            match found {
                Some(velocity) => {
                    &&& old(self).velocities().contains_key(id)
                    &&& *velocity == old(self).velocities()[id]
                    &&& final(self).velocities() == old(self).velocities().insert(
                        id,
                        *final(velocity),
                    )
                },
                None => {
                    &&& !old(self).velocities().contains_key(id)
                    &&& final(self).velocities() == old(self).velocities()
                },
            },
    {
        self.velocity_pool.get_mut(id)
    }

    /// The sprite of `id`, if it has one.
    pub fn get_sprite(&self, id: Entity) -> (found: Option<&Sprite>)
        requires
            self.wf(),
        ensures
            found == if self.sprites().contains_key(id) {
                Some(&self.sprites()[id])
            } else {
                None
            },
    {
        self.sprite_pool.get(id)
    }
}

/// Moves every entity that has both a position and a velocity by one tick.
/// An entity with a velocity and no position takes no part.
pub fn movement_system(ecs: &mut ECS)
    requires
        old(ecs).wf(),
    ensures
        final(ecs).wf(),
        final(ecs).positions() == advanced(old(ecs).positions(), old(ecs).velocities()),
        final(ecs).position_pool().entity_seq() == old(ecs).position_pool().entity_seq(),
        final(ecs).position_pool().slots() == old(ecs).position_pool().slots(),
        final(ecs).allocator() == old(ecs).allocator(),
        final(ecs).velocity_pool() == old(ecs).velocity_pool(),
        final(ecs).sprite_pool() == old(ecs).sprite_pool(),
{
    let count: usize = ecs.velocity_pool.entities().len();
    let mut i: usize = 0;
    while i < count
        invariant
            i <= count,
            count == ecs.velocity_pool.entity_seq().len(),
            ecs.wf(),
            ecs.allocator == old(ecs).allocator,
            ecs.velocity_pool == old(ecs).velocity_pool,
            ecs.sprite_pool == old(ecs).sprite_pool,
            ecs.position_pool.entity_seq() == old(ecs).position_pool.entity_seq(),
            ecs.position_pool.slots() == old(ecs).position_pool.slots(),
            forall|e: Entity| #[trigger]
                old(ecs).positions().contains_key(e) ==> ecs.positions()[e] == if old(
                    ecs,
                ).velocities().contains_key(e) && old(ecs).velocity_pool.slots()[e] < i {
                    old(ecs).positions()[e].moved(old(ecs).velocities()[e])
                } else {
                    old(ecs).positions()[e]
                },
        decreases count - i,
    {
        let id: Entity = ecs.velocity_pool.entities()[i];
        let vel: Velocity = ecs.velocity_pool.components()[i];
        if let Some(pos) = ecs.get_position_mut(id) {
            pos.advance(vel);
        }
        i += 1;
    }
}

/// A texture to draw with its top left corner at (`x`, `y`).
#[derive(Clone, Copy, Debug, PartialEq, Eq, Structural)]
pub struct SpriteDraw {
    pub texture: TextureId,
    pub x: i32,
    pub y: i32,
}

/// What a front end draws for one tick: first the outlines, then the
/// sprites, each list in its order.
pub struct Frame {
    pub outlines: Vec<Rectangle>,
    pub sprites: Vec<SpriteDraw>,
}

/// The sprites to draw for the entities of `order`, in that order: one for
/// each entity that has both a sprite and a position.
pub open spec fn drawn(
    order: Seq<Entity>,
    sprites: Map<Entity, Sprite>,
    positions: Map<Entity, Position>,
) -> Seq<SpriteDraw>
    decreases order.len(),
{
    if order.len() == 0 {
        Seq::empty()
    } else {
        let before = drawn(order.drop_last(), sprites, positions);
        let e = order.last();
        if sprites.contains_key(e) && positions.contains_key(e) {
            before.push(
                SpriteDraw { texture: sprites[e].texture, x: positions[e].x, y: positions[e].y },
            )
        } else {
            before
        }
    }
}

/// Lists what is to be drawn: the outlines of the tree, and the sprite of
/// every entity that has one and a position, in the storage order of the
/// sprites. Neither the store nor the tree changes.
pub fn render_system(ecs: &ECS, tree: &Quadtree) -> (frame: Frame)
    requires
        ecs.wf(),
    ensures
        frame.outlines@ == tree@.outlines(),
        frame.sprites@ == drawn(ecs.sprite_pool().entity_seq(), ecs.sprites(), ecs.positions()),
{
    let outlines = tree.draw();
    let mut sprites: Vec<SpriteDraw> = Vec::new();
    let count: usize = ecs.sprite_pool.entities().len();
    let mut i: usize = 0;
    while i < count
        invariant
            i <= count,
            count == ecs.sprite_pool.entity_seq().len(),
            ecs.wf(),
            sprites@ == drawn(
                ecs.sprite_pool.entity_seq().take(i as int),
                ecs.sprites(),
                ecs.positions(),
            ),
        decreases count - i,
    {
        let entity: Entity = ecs.sprite_pool.entities()[i];
        proof {
            assert(ecs.sprite_pool.entity_seq().take(i + 1).drop_last()
                == ecs.sprite_pool.entity_seq().take(i as int));
        }
        if let Some(pos) = ecs.get_position(entity) {
            if let Some(sprite) = ecs.get_sprite(entity) {
                sprites.push(SpriteDraw { texture: sprite.texture, x: pos.x, y: pos.y });
            }
        }
        i += 1;
    }
    proof {
        assert(ecs.sprite_pool.entity_seq().take(i as int) == ecs.sprite_pool.entity_seq());
    }
    Frame { outlines, sprites }
}

} // verus!
