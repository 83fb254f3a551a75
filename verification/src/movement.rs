//! Position integration: velocities move positions.
use crate::entities::Entity;
use crate::fixed::{div_toward_zero, div_trunc, ONE};
use crate::vector::{Vec2, Vector};
use vstd::prelude::*;

verus! {

/// Where an entity is, and which way it faces: along `facing`, whose length
/// says nothing.
#[derive(Clone, Copy, Debug, PartialEq, Eq, Structural)]
pub struct Transform2D {
    pub pos: Vec2,
    pub facing: Vec2,
}

/// How an entity moves, in thousandths of a world unit per second.
#[derive(Clone, Copy, Debug, PartialEq, Eq, Structural)]
pub struct Movement {
    pub vel: Vec2,
}

/// `v` where a coordinate can hold it, else the nearest value that one holds.
pub open spec fn saturated(v: int) -> int {
    if v < i32::MIN {
        i32::MIN as int
    } else if v > i32::MAX {
        i32::MAX as int
    } else {
        v
    }
}

/// The position reached from `pos` at the velocity `vel` in `elapsed`
/// thousandths of a second, each coordinate rounded toward where it was. A
/// coordinate that would leave the representable world stops at its edge.
pub open spec fn advanced(pos: Vector, vel: Vector, elapsed: int) -> Vector {
    Vector {
        x: saturated(pos.x + div_trunc(vel.x * elapsed, ONE as int)),
        y: saturated(pos.y + div_trunc(vel.y * elapsed, ONE as int)),
    }
}

/// The entity after `elapsed` thousandths of a second of movement. One
/// without a position or without a velocity stays as it is.
pub open spec fn moved(entity: Entity, elapsed: int) -> Entity {
    match (entity.transform, entity.movement) {
        (Some(transform), Some(movement)) => Entity {
            transform: Some(
                Transform2D {
                    pos: Vec2 {
                        x: advanced(transform.pos@, movement.vel@, elapsed).x as i32,
                        y: advanced(transform.pos@, movement.vel@, elapsed).y as i32,
                    },
                    facing: transform.facing,
                },
            ),
            ..entity
        },
        _ => entity,
    }
}

/// Advances one coordinate.
fn advance_coordinate(pos: i32, vel: i32, elapsed: u32) -> (next: i32)
    ensures
        next == saturated(pos + div_trunc(vel * elapsed, ONE as int)),
{
    let v: i128 = vel as i128;
    let t: i128 = elapsed as i128;
    assert(-0x8000_0000_0000_0000 <= v * t <= 0x8000_0000_0000_0000) by (nonlinear_arith)
        requires
            -0x8000_0000 <= v <= 0x8000_0000,
            0 <= t <= 0xFFFF_FFFF,
    ;
    proof {
        crate::fixed::lemma_div_trunc_within(v * t, ONE as int, 0x8000_0000_0000_0000);
    }
    let next: i128 = pos as i128 + div_toward_zero(v * t, ONE as i128);
    if next < -0x8000_0000 {
        -0x8000_0000
    } else if next > 0x7FFF_FFFF {
        0x7FFF_FFFF
    } else {
        next as i32
    }
}

/// Moves a position at a velocity for `elapsed` thousandths of a second.
pub fn advance(pos: &Vec2, vel: &Vec2, elapsed: u32) -> (next: Vec2)
    ensures
        next@ == advanced(pos@, vel@, elapsed as int),
{
    Vec2 {
        x: advance_coordinate(pos.x, vel.x, elapsed),
        y: advance_coordinate(pos.y, vel.y, elapsed),
    }
}

/// Moves every entity that has a position and a velocity for `elapsed`
/// thousandths of a second.
pub fn movement_system(entities: &mut Vec<Entity>, elapsed: u32)
    ensures
        final(entities).len() == old(entities).len(),
        forall|i: int|
            0 <= i < old(entities).len() ==> #[trigger] final(entities)[i] == moved(
                old(entities)[i],
                elapsed as int,
            ),
{
    let n: usize = entities.len();
    let mut i: usize = 0;
    while i < n
        invariant
            i <= n == entities.len() == old(entities).len(),
            forall|k: int| 0 <= k < i ==> #[trigger] entities[k] == moved(
                old(entities)[k],
                elapsed as int,
            ),
            forall|k: int| i <= k < n ==> #[trigger] entities[k] == old(entities)[k],
        decreases n - i,
    {
        let ghost before = entities@;
        let entity: &mut Entity = &mut entities[i];
        match (&mut entity.transform, &entity.movement) {
            (Some(transform), Some(movement)) => {
                transform.pos = advance(&transform.pos, &movement.vel, elapsed);
            },
            _ => {},
        }
        assert(forall|k: int| 0 <= k < n && k != i ==> entities[k] == before[k]);
        i += 1;
    }
}

} // verus!
