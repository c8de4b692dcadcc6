//! The entity that the keys steer.

use crate::ecs::pool::added;
use crate::ecs::{Entity, Position, Velocity, ECS};
use vstd::prelude::*;

verus! {

/// The entity that the keys steer, and how fast it goes.
pub struct Player {
    id: Entity,
    speed: i32,
}

/// The displacement along one axis: `-speed` while the key towards the
/// origin is down, else `speed` while the key away from it is down, else 0.
pub open spec fn steer(towards_origin: bool, away: bool, speed: int) -> int {
    if towards_origin {
        -speed
    } else if away {
        speed
    } else {
        0
    }
}

impl Player {
    /// The speed is not negative.
    #[verifier::type_invariant]
    spec fn speed_is_not_negative(self) -> bool {
        0 <= self.speed
    }

    /// The entity of the player.
    pub closed spec fn id(&self) -> Entity {
        self.id
    }

    /// The distance that the player goes in one tick along each axis on
    /// which a key is down.
    pub closed spec fn speed(&self) -> i32 {
        self.speed
    }

    /// A player on a fresh entity, at rest at (40, 40), with speed 10.
    pub fn new(ecs: &mut ECS) -> (player: Self)
        requires
            old(ecs).wf(),
        ensures
            final(ecs).wf(),
            player.id() == old(ecs).allocator().next_id(),
            player.speed() == 10,
            final(ecs).allocator().next_id() == if player.id() == u32::MAX {
                0
            } else {
                player.id() + 1
            },
            final(ecs).positions() == added(
                old(ecs).positions(),
                player.id(),
                Position { x: 40, y: 40 },
            ),
            final(ecs).velocities() == added(
                old(ecs).velocities(),
                player.id(),
                Velocity { dx: 0, dy: 0 },
            ),
            final(ecs).position_pool().entity_seq() == if old(ecs).positions().contains_key(
                player.id(),
            ) {
                old(ecs).position_pool().entity_seq()
            } else {
                old(ecs).position_pool().entity_seq().push(player.id())
            },
            final(ecs).velocity_pool().entity_seq() == if old(ecs).velocities().contains_key(
                player.id(),
            ) {
                old(ecs).velocity_pool().entity_seq()
            } else {
                old(ecs).velocity_pool().entity_seq().push(player.id())
            },
            final(ecs).sprite_pool() == old(ecs).sprite_pool(),
    {
        let id: Entity = ecs.allocate_entity();

        ecs.add_position(id, 40, 40);
        ecs.add_velocity(id, 0, 0);

        Player { id, speed: 10 }
    }

    /// Sets the velocity of the player from the keys that are down: `up`
    /// and `left` lead towards the origin, `down` and `right` away from it,
    /// and of two opposite keys the one towards the origin wins. Returns
    /// whether the player has a velocity; one without is left alone.
    pub fn input(&self, ecs: &mut ECS, up: bool, down: bool, left: bool, right: bool) -> (steered:
        bool)
        requires
            old(ecs).wf(),
        ensures
            final(ecs).wf(),
            steered == old(ecs).velocities().contains_key(self.id()),
            final(ecs).velocities() == if steered {
                old(ecs).velocities().insert(
                    self.id(),
                    Velocity {
                        dx: steer(left, right, self.speed() as int) as i32,
                        dy: steer(up, down, self.speed() as int) as i32,
                    },
                )
            } else {
                old(ecs).velocities()
            },
            final(ecs).velocity_pool().entity_seq() == old(ecs).velocity_pool().entity_seq(),
            final(ecs).allocator() == old(ecs).allocator(),
            final(ecs).position_pool() == old(ecs).position_pool(),
            final(ecs).sprite_pool() == old(ecs).sprite_pool(),
    {
        proof {
            use_type_invariant(self);
        }
        let Some(player_velocity) = ecs.get_velocity_mut(self.id) else {
            return false;
        };

        player_velocity.dy = if up {
            -self.speed
        } else if down {
            self.speed
        } else {
            0
        };

        player_velocity.dx = if left {
            -self.speed
        } else if right {
            self.speed
        } else {
            0
        };
        true
    }

    /// The entity of the player.
    pub fn get_id(&self) -> (id: Entity)
        ensures
            id == self.id(),
    {
        self.id
    }
}

} // verus!
