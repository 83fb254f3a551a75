//! Looks that follow from movement: where an entity faces, and how fast its
//! animation plays.
use crate::entities::Entity;
use crate::fixed::{ceil_sqrt, ceil_sqrt_u128};
use crate::movement::Transform2D;
use crate::render::Animation;
use crate::vector::Vec2;
use vstd::prelude::*;

verus! {

/// The speed, 25, above which an entity turns to face the way it moves.
pub const TURNING_SPEED: i32 = 25_000;

/// The speed, 100, at which an animation plays in real time.
pub const ANIMATION_PACE: u32 = 100;

/// The speed of the animation of an entity that moves at `vel`: its speed,
/// rounded up to a whole thousandth, over [`ANIMATION_PACE`].
pub open spec fn animation_speed(vel: Vec2) -> int {
    ceil_sqrt(vel@.norm_sq()) / (ANIMATION_PACE as int)
}

/// The entity with the looks of its movement: one that moves faster than
/// [`TURNING_SPEED`] faces the way it moves, and the animation plays the
/// faster the entity moves. An entity without a position, an animation or a
/// velocity stays as it is.
pub open spec fn polished(entity: Entity) -> Entity {
    match (entity.transform, entity.animation, entity.movement) {
        (Some(transform), Some(animation), Some(movement)) => Entity {
            transform: Some(
                Transform2D {
                    pos: transform.pos,
                    facing: if movement.vel@.norm_sq() > TURNING_SPEED * TURNING_SPEED {
                        movement.vel
                    } else {
                        transform.facing
                    },
                },
            ),
            animation: Some(
                Animation {
                    definition: animation.definition,
                    tick: animation.tick,
                    frame_number: animation.frame_number,
                    speed: animation_speed(movement.vel) as u32,
                },
            ),
            ..entity
        },
        _ => entity,
    }
}

/// Turns every moving, animated entity to face the way it moves, once it is
/// fast enough, and sets the speed of its animation by its own.
pub fn fish_polish_system(entities: &mut Vec<Entity>)
    ensures
        final(entities).len() == old(entities).len(),
        forall|i: int|
            0 <= i < old(entities).len() ==> #[trigger] final(entities)[i] == polished(
                old(entities)[i],
            ),
{
    let n: usize = entities.len();
    let mut i: usize = 0;
    while i < n
        invariant
            i <= n == entities.len() == old(entities).len(),
            forall|k: int| 0 <= k < i ==> #[trigger] entities[k] == polished(old(entities)[k]),
            forall|k: int| i <= k < n ==> #[trigger] entities[k] == old(entities)[k],
        decreases n - i,
    {
        let ghost before = entities@;
        let entity: &mut Entity = &mut entities[i];
        match (&mut entity.transform, &mut entity.animation, &entity.movement) {
            (Some(transform), Some(animation), Some(movement)) => {
                let n2: u64 = movement.vel.norm_sq();
                let speed: u128 = ceil_sqrt_u128(n2 as u128);
                assert(speed <= 0x1_0000_0000) by (nonlinear_arith)
                    requires
                        speed >= 0,
                        speed > 0 ==> (speed - 1) * (speed - 1) < n2,
                        n2 <= 0x8000_0000_0000_0000,
                ;
                if n2 > 625_000_000 {
                    transform.facing = movement.vel;
                }
                animation.speed = (speed / 100) as u32;
            },
            _ => {},
        }
        assert(forall|k: int| 0 <= k < n && k != i ==> entities[k] == before[k]);
        i += 1;
    }
}

} // verus!
