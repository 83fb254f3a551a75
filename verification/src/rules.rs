//! The steering rules, and the speed limit that ends a step.
use crate::boid::{referents, Boid};
use crate::fixed::{
    ceil_sqrt, ceil_sqrt_u128, div_toward_zero, div_trunc, is_ceil_sqrt, lemma_div_trunc_bounds,
    lemma_div_trunc_within, ONE,
};
use crate::vector::{span, Delta, Rect, Vec2, Vector};
use vstd::prelude::*;

verus! {

/// The sum of the vectors of `vs`.
pub open spec fn total(vs: Seq<Vector>) -> Vector
    decreases vs.len(),
{
    if vs.len() == 0 {
        Vector::zero()
    } else {
        total(vs.drop_last()).plus(vs.last())
    }
}

/// The average of the vectors of `vs`, each coordinate rounded toward zero;
/// the zero vector where there is nothing to average.
pub open spec fn mean(vs: Seq<Vector>) -> Vector {
    if vs.len() == 0 {
        Vector::zero()
    } else {
        Vector {
            x: div_trunc(total(vs).x, vs.len() as int),
            y: div_trunc(total(vs).y, vs.len() as int),
        }
    }
}

/// `v` multiplied by a weight given in thousandths, rounded toward zero.
pub open spec fn weighted(v: Vector, weight: int) -> Vector {
    Vector { x: div_trunc(weight * v.x, ONE as int), y: div_trunc(weight * v.y, ONE as int) }
}

/// The vector along `v` whose length is `weight`, each coordinate rounded
/// toward zero; the zero vector where `v` has no direction.
pub open spec fn directed(v: Vector, weight: int) -> Vector {
    let length = ceil_sqrt(v.norm_sq());
    if length == 0 {
        Vector::zero()
    } else {
        Vector { x: div_trunc(weight * v.x, length), y: div_trunc(weight * v.y, length) }
    }
}

/// `v` where it is no longer than `speed`, else the vector along `v` whose
/// length is `speed`, each coordinate rounded toward zero.
pub open spec fn limited(v: Vector, speed: int) -> Vector {
    if v.norm_sq() <= speed * speed {
        v
    } else {
        directed(v, speed)
    }
}

/// The mathematical values of a sequence of displacements.
pub open spec fn views(ds: Seq<Delta>) -> Seq<Vector> {
    ds.map_values(|d: Delta| d@)
}

/// Adding a vector to a sequence adds it to the sum.
pub proof fn lemma_total_push(vs: Seq<Vector>, v: Vector)
    ensures
        total(vs.push(v)) == total(vs).plus(v),
{
    assert(vs.push(v).drop_last() =~= vs);
}

/// The sum of `vs` is no farther from zero, along each axis, than its
/// vectors' common bound times their number.
pub proof fn lemma_total_within(vs: Seq<Vector>, bound: int)
    requires
        bound >= 0,
        forall|i: int| 0 <= i < vs.len() ==> (#[trigger] vs[i]).within(bound),
    ensures
        total(vs).within(vs.len() * bound),
    decreases vs.len(),
{
    if vs.len() > 0 {
        lemma_total_within(vs.drop_last(), bound);
        assert(vs.last().within(bound));
        assert((vs.len() - 1) * bound + bound == vs.len() * bound) by (nonlinear_arith);
    } else {
        assert(0 * bound == 0);
    }
}

/// An average stays within the bound of what is averaged.
pub proof fn lemma_mean_within(vs: Seq<Vector>, bound: int)
    requires
        bound >= 0,
        forall|i: int| 0 <= i < vs.len() ==> (#[trigger] vs[i]).within(bound),
    ensures
        mean(vs).within(bound),
{
    if vs.len() > 0 {
        lemma_total_within(vs, bound);
        let n = vs.len() as int;
        assert(bound * n == n * bound) by (nonlinear_arith);
        lemma_div_trunc_within(total(vs).x, n, bound);
        lemma_div_trunc_within(total(vs).y, n, bound);
    }
}

/// A vector cut to a speed is no longer than that speed.
pub proof fn lemma_directed_length(v: Vector, weight: int)
    requires
        weight >= 0,
    ensures
        directed(v, weight).norm_sq() <= weight * weight,
        directed(v, weight).within(weight),
{
    let n = v.norm_sq();
    let length = ceil_sqrt(n);
    assert(n >= 0) by (nonlinear_arith)
        requires
            n == v.x * v.x + v.y * v.y,
    ;
    crate::fixed::lemma_ceil_sqrt_exists(n);
    assert(is_ceil_sqrt(n, length));
    if length == 0 {
        assert(weight * weight >= 0) by (nonlinear_arith);
        let z = directed(v, weight);
        assert(z.x * z.x + z.y * z.y == 0) by (nonlinear_arith)
            requires
                z.x == 0,
                z.y == 0,
        ;
    } else {
        let qx = div_trunc(weight * v.x, length);
        let qy = div_trunc(weight * v.y, length);
        lemma_div_trunc_bounds(weight * v.x, length);
        lemma_div_trunc_bounds(weight * v.y, length);
        lemma_square_of_part(qx, length, weight, v.x);
        lemma_square_of_part(qy, length, weight, v.y);
        assert(qx * qx + qy * qy <= weight * weight) by (nonlinear_arith)
            requires
                (qx * qx) * (length * length) <= (weight * weight) * (v.x * v.x),
                (qy * qy) * (length * length) <= (weight * weight) * (v.y * v.y),
                v.x * v.x + v.y * v.y <= length * length,
                length > 0,
                weight >= 0,
        ;
        assert(-weight <= qx <= weight && -weight <= qy <= weight) by (nonlinear_arith)
            requires
                qx * qx + qy * qy <= weight * weight,
                weight >= 0,
        ;
        assert(directed(v, weight) == Vector { x: qx, y: qy });
    }
}

/// Where `q * l` lies between zero and `w * x`, the square of the one is at
/// most the square of the other.
proof fn lemma_square_of_part(q: int, l: int, w: int, x: int)
    requires
        l > 0,
        w * x >= 0 ==> 0 <= q * l <= w * x,
        w * x <= 0 ==> 0 >= q * l >= w * x,
    ensures
        (q * q) * (l * l) <= (w * w) * (x * x),
{
    let a = q * l;
    let b = w * x;
    assert(a * a <= b * b) by (nonlinear_arith)
        requires
            b >= 0 ==> 0 <= a <= b,
            b <= 0 ==> 0 >= a >= b,
    ;
    assert(a * a == (q * q) * (l * l)) by (nonlinear_arith)
        requires
            a == q * l,
    ;
    assert(b * b == (w * w) * (x * x)) by (nonlinear_arith)
        requires
            b == w * x,
    ;
}

/// The speed limit holds of every vector: what it leaves is no longer than
/// the speed.
pub proof fn lemma_limited_length(v: Vector, speed: int)
    requires
        speed >= 0,
    ensures
        limited(v, speed).norm_sq() <= speed * speed,
        limited(v, speed).within(speed),
{
    if v.norm_sq() <= speed * speed {
        assert(-speed <= v.x <= speed && -speed <= v.y <= speed) by (nonlinear_arith)
            requires
                v.x * v.x + v.y * v.y <= speed * speed,
                speed >= 0,
        ;
    } else {
        lemma_directed_length(v, speed);
    }
}

/// The bound within which [`weigh`] takes a vector: twice the span of two
/// positions, and more.
pub open spec fn reach() -> int {
    0x2_0000_0000
}

/// The bound within which every steering contribution lies.
pub open spec fn push_limit() -> int {
    0x100_0000_0000_0000
}

/// Averages displacements between positions, or positions or velocities
/// themselves.
pub fn mean_of(vs: &Vec<Delta>) -> (m: Delta)
    requires
        forall|i: int| 0 <= i < vs.len() ==> (#[trigger] vs[i])@.within(span()),
    ensures
        m@ == mean(views(vs@)),
        m@.within(span()),
{
    let n: usize = vs.len();
    if n == 0 {
        return Delta { x: 0, y: 0 };
    }
    let mut sx: i128 = 0;
    let mut sy: i128 = 0;
    let mut k: usize = 0;
    proof {
        assert(views(vs@.take(0)) =~= Seq::<Vector>::empty());
    }
    while k < n
        invariant
            k <= n == vs.len(),
            forall|i: int| 0 <= i < vs.len() ==> (#[trigger] vs[i])@.within(span()),
            total(views(vs@.take(k as int))) == (Vector { x: sx as int, y: sy as int }),
            -(k * 0xFFFF_FFFF) <= sx <= k * 0xFFFF_FFFF,
            -(k * 0xFFFF_FFFF) <= sy <= k * 0xFFFF_FFFF,
        decreases n - k,
    {
        let d: Delta = vs[k];
        proof {
            assert(vs[k as int]@.within(span()));
            assert(views(vs@.take(k + 1)) =~= views(vs@.take(k as int)).push(d@));
            lemma_total_push(views(vs@.take(k as int)), d@);
        }
        sx = sx + d.x as i128;
        sy = sy + d.y as i128;
        k += 1;
    }
    proof {
        assert(vs@.take(n as int) =~= vs@);
        assert forall|i: int| 0 <= i < views(vs@).len() implies (#[trigger] views(vs@)[i]).within(
            span(),
        ) by {
            assert(vs[i]@.within(span()));
        }
        lemma_mean_within(views(vs@), span());
    }
    Delta { x: div_toward_zero(sx, n as i128) as i64, y: div_toward_zero(sy, n as i128) as i64 }
}

/// Multiplies a vector by a weight given in thousandths. The vector lies
/// within [`reach`], as every average and every difference of two positions
/// does.
pub fn weigh(v: &Delta, weight: u32) -> (r: Delta)
    requires
        v@.within(reach()),
    ensures
        r@ == weighted(v@, weight as int),
        r@.within(push_limit()),
{
    let w: i128 = weight as i128;
    let x: i128 = v.x as i128;
    let y: i128 = v.y as i128;
    assert(-0x2_0000_0000_0000_0000 <= w * x <= 0x2_0000_0000_0000_0000 && -0x2_0000_0000_0000_0000
        <= w * y <= 0x2_0000_0000_0000_0000) by (nonlinear_arith)
        requires
            0 <= w <= 0xFFFF_FFFF,
            -0x2_0000_0000 <= x <= 0x2_0000_0000,
            -0x2_0000_0000 <= y <= 0x2_0000_0000,
    ;
    proof {
        lemma_div_trunc_within(w * x, ONE as int, push_limit());
        lemma_div_trunc_within(w * y, ONE as int, push_limit());
    }
    Delta {
        x: div_toward_zero(w * x, ONE as i128) as i64,
        y: div_toward_zero(w * y, ONE as i128) as i64,
    }
}

/// Gives a vector the length `weight`, keeping its direction.
pub fn direct(v: &Delta, weight: u32) -> (r: Delta)
    ensures
        r@ == directed(v@, weight as int),
        r@.norm_sq() <= weight * weight,
        r@.within(weight as int),
{
    let length: u128 = ceil_sqrt_u128(v.norm_sq());
    proof {
        lemma_directed_length(v@, weight as int);
    }
    if length == 0 {
        return Delta { x: 0, y: 0 };
    }
    let w: i128 = weight as i128;
    let x: i128 = v.x as i128;
    let y: i128 = v.y as i128;
    assert(-0x8000_0000_0000_0000_0000_0000 <= w * x <= 0x8000_0000_0000_0000_0000_0000
        && -0x8000_0000_0000_0000_0000_0000 <= w * y <= 0x8000_0000_0000_0000_0000_0000)
        by (nonlinear_arith)
        requires
            0 <= w <= 0xFFFF_FFFF,
            -0x8000_0000_0000_0000 <= x <= 0x8000_0000_0000_0000,
            -0x8000_0000_0000_0000 <= y <= 0x8000_0000_0000_0000,
    ;
    Delta {
        x: div_toward_zero(w * x, length as i128) as i64,
        y: div_toward_zero(w * y, length as i128) as i64,
    }
}

/// Caps the length of a velocity at `speed`: a longer one is rescaled to that
/// length along its direction, a shorter one is left as it is.
pub fn limit_vel(vel: Delta, speed: u32) -> (v: Vec2)
    requires
        speed <= i32::MAX,
    ensures
        v@ == limited(vel@, speed as int),
        v@.norm_sq() <= speed * speed,
{
    let s: u128 = speed as u128;
    assert(s * s <= 0x4000_0000_0000_0000) by (nonlinear_arith)
        requires
            0 <= s <= 0x8000_0000,
    ;
    proof {
        lemma_limited_length(vel@, speed as int);
    }
    if vel.norm_sq() <= s * s {
        Vec2 { x: vel.x as i32, y: vel.y as i32 }
    } else {
        let cut: Delta = direct(&vel, speed);
        Vec2 { x: cut.x as i32, y: cut.y as i32 }
    }
}

/// The displacement from an agent to `cur`.
pub open spec fn offset_from(cur: Boid) -> spec_fn(Boid) -> Vector {
    |b: Boid| cur.pos@.minus(b.pos@)
}

pub open spec fn position_of<'a>() -> spec_fn(Boid<'a>) -> Vector {
    |b: Boid| b.pos@
}

pub open spec fn velocity_of<'a>() -> spec_fn(Boid<'a>) -> Vector {
    |b: Boid| b.vel@
}

/// The test that an agent is no farther than `distance` from `cur`; one
/// exactly that far passes.
pub open spec fn within_reach(cur: Boid, distance: int) -> spec_fn(Boid) -> bool {
    |b: Boid| cur.pos@.minus(b.pos@).norm_sq() <= distance * distance
}

/// The test that an agent is farther than `distance` from `cur`.
pub open spec fn beyond_reach(cur: Boid, distance: int) -> spec_fn(Boid) -> bool {
    |b: Boid| cur.pos@.minus(b.pos@).norm_sq() > distance * distance
}

/// Separation: away from the agents of `others` within `max_distance`, by
/// the average displacement from them to `cur`, times `weight`.
pub open spec fn separation(cur: Boid, others: Seq<Boid>, max_distance: int, weight: int) -> Vector {
    weighted(
        mean(others.filter(within_reach(cur, max_distance)).map_values(offset_from(cur))),
        weight,
    )
}

/// Cohesion: toward the average position of the agents of `others` farther
/// than `min_distance`, by the displacement from `cur` to it, times `weight`.
pub open spec fn cohesion(cur: Boid, others: Seq<Boid>, min_distance: int, weight: int) -> Vector {
    let far = others.filter(beyond_reach(cur, min_distance));
    if far.len() == 0 {
        Vector::zero()
    } else {
        weighted(mean(far.map_values(position_of())).minus(cur.pos@), weight)
    }
}

/// Alignment: the average velocity of `others`, times `weight`. The
/// velocities are averaged as they are, fast agents counting for more, not
/// their directions.
pub open spec fn alignment(others: Seq<Boid>, weight: int) -> Vector {
    weighted(mean(others.map_values(velocity_of())), weight)
}

/// Avoidance: away from the agents of `others` within `max_distance`, along
/// the average displacement from them to `cur`, with the length `weight`
/// however near they are. It is the direction alone that counts: the push is
/// not scaled by the distance, as that of [`separation`] is.
pub open spec fn avoidance(cur: Boid, others: Seq<Boid>, max_distance: int, weight: int) -> Vector {
    directed(
        mean(others.filter(within_reach(cur, max_distance)).map_values(offset_from(cur))),
        weight,
    )
}

/// The push along one axis that keeps a coordinate between `low` and `high`.
pub open spec fn push_inward(p: int, low: int, high: int, speed: int) -> int {
    if p < low {
        speed
    } else if p > high {
        -speed
    } else {
        0
    }
}

/// Containment: on each axis on which `cur` is outside `bounds` drawn in by
/// `margin`, a push of `speed` toward the inside, times `weight`.
pub open spec fn containment(cur: Boid, bounds: Rect, margin: int, speed: int, weight: int)
    -> Vector {
    weighted(
        Vector {
            x: push_inward(
                cur.pos.x as int,
                bounds.spec_left() + margin,
                bounds.spec_right() - margin,
                speed,
            ),
            y: push_inward(
                cur.pos.y as int,
                bounds.spec_top() + margin,
                bounds.spec_bottom() - margin,
                speed,
            ),
        },
        weight,
    )
}

/// The least agreement with the heading, 0.2, at which a random nudge is
/// taken: the dot product of the nudge and the velocity must exceed it.
pub const EXPLORATION_THRESHOLD: i32 = 200;

/// Exploration: the random vector `jitter`, times `speed` and `weight`,
/// where it agrees with the heading of `cur`; else nothing.
pub open spec fn exploration(cur: Boid, jitter: Vector, speed: int, weight: int) -> Vector {
    if jitter.dot(cur.vel@) > EXPLORATION_THRESHOLD * ONE {
        Vector {
            x: div_trunc(jitter.x * speed * weight, ONE * ONE),
            y: div_trunc(jitter.y * speed * weight, ONE * ONE),
        }
    } else {
        Vector::zero()
    }
}

/// One more item of a sequence is kept by a filter, or it is not.
pub proof fn lemma_filter_take_step<A>(s: Seq<A>, k: int, keep: spec_fn(A) -> bool)
    requires
        0 <= k < s.len(),
    ensures
        s.take(k + 1).filter(keep) == if keep(s[k]) {
            s.take(k).filter(keep).push(s[k])
        } else {
            s.take(k).filter(keep)
        },
{
    assert(s.take(k + 1) =~= s.take(k).push(s[k]));
    s.take(k).lemma_filter_push(s[k], keep);
}

/// The displacements to `cur` from the agents of `boids` within `max_distance`.
fn close_offsets(cur: &Boid, boids: &Vec<&Boid>, max_distance: u32) -> (offsets: Vec<Delta>)
    ensures
        views(offsets@) == referents(boids@).filter(
            within_reach(*cur, max_distance as int),
        ).map_values(offset_from(*cur)),
        forall|i: int| 0 <= i < offsets.len() ==> (#[trigger] offsets[i])@.within(span()),
{
    let reach: u128 = max_distance as u128;
    assert(reach * reach <= 0xFFFF_FFFE_0000_0001) by (nonlinear_arith)
        requires
            0 <= reach <= 0xFFFF_FFFF,
    ;
    let max_distance_squared: u128 = reach * reach;
    let ghost all = referents(boids@);
    let ghost keep = within_reach(*cur, max_distance as int);
    let ghost offset = offset_from(*cur);
    let mut offsets: Vec<Delta> = Vec::new();
    let mut k: usize = 0;
    proof {
        reveal(Seq::filter);
        assert(all.take(0) =~= Seq::<Boid>::empty());
        assert(views(offsets@) =~= all.take(0).filter(keep).map_values(offset));
    }
    while k < boids.len()
        invariant
            k <= boids.len(),
            all == referents(boids@),
            keep == within_reach(*cur, max_distance as int),
            offset == offset_from(*cur),
            max_distance_squared == max_distance * max_distance,
            views(offsets@) == all.take(k as int).filter(keep).map_values(offset),
            forall|i: int| 0 <= i < offsets.len() ==> (#[trigger] offsets[i])@.within(span()),
        decreases boids.len() - k,
    {
        let other: &Boid = boids[k];
        let d: Delta = other.pos.offset_to(&cur.pos);
        let ghost before = offsets@;
        proof {
            assert(all[k as int] == *other);
            lemma_filter_take_step(all, k as int, keep);
            all.take(k as int).filter(keep).lemma_push_map_commute(offset, *other);
        }
        if d.norm_sq() <= max_distance_squared {
            offsets.push(d);
            proof {
                assert(views(offsets@) =~= views(before).push(d@));
            }
        }
        k += 1;
    }
    proof {
        assert(all.take(k as int) =~= all);
    }
    offsets
}

/// Steers away from the neighbors of `boids` no farther than `max_distance`.
pub fn separation_rule(cur: &Boid, boids: &Vec<&Boid>, max_distance: u32, weight: u32) -> (steer:
    Delta)
    ensures
        steer@ == separation(*cur, referents(boids@), max_distance as int, weight as int),
        steer@.within(push_limit()),
{
    let offsets: Vec<Delta> = close_offsets(cur, boids, max_distance);
    let away: Delta = mean_of(&offsets);
    weigh(&away, weight)
}

/// Steers away from the agents of `boids` no farther than `max_distance`,
/// with a strength that does not depend on how near they are.
pub fn avoidance_rule(cur: &Boid, boids: &Vec<&Boid>, max_distance: u32, weight: u32) -> (steer:
    Delta)
    ensures
        steer@ == avoidance(*cur, referents(boids@), max_distance as int, weight as int),
        steer@.within(push_limit()),
{
    let offsets: Vec<Delta> = close_offsets(cur, boids, max_distance);
    let away: Delta = mean_of(&offsets);
    direct(&away, weight)
}

/// Steers toward the center of the flockmates of `boids` farther than
/// `min_distance`.
pub fn cohesion_rule(cur: &Boid, boids: &Vec<&Boid>, min_distance: u32, weight: u32) -> (steer:
    Delta)
    ensures
        steer@ == cohesion(*cur, referents(boids@), min_distance as int, weight as int),
        steer@.within(push_limit()),
{
    let reach: u128 = min_distance as u128;
    assert(reach * reach <= 0xFFFF_FFFE_0000_0001) by (nonlinear_arith)
        requires
            0 <= reach <= 0xFFFF_FFFF,
    ;
    let min_distance_squared: u128 = reach * reach;
    let ghost all = referents(boids@);
    let ghost keep = beyond_reach(*cur, min_distance as int);
    let mut positions: Vec<Delta> = Vec::new();
    let mut k: usize = 0;
    proof {
        reveal(Seq::filter);
        assert(all.take(0) =~= Seq::<Boid>::empty());
        assert(views(positions@) =~= all.take(0).filter(keep).map_values(position_of()));
    }
    while k < boids.len()
        invariant
            k <= boids.len(),
            all == referents(boids@),
            keep == beyond_reach(*cur, min_distance as int),
            min_distance_squared == min_distance * min_distance,
            views(positions@) == all.take(k as int).filter(keep).map_values(position_of()),
            forall|i: int|
                0 <= i < positions.len() ==> (#[trigger] positions[i])@.within(0x8000_0000),
        decreases boids.len() - k,
    {
        let other: &Boid = boids[k];
        let d: Delta = other.pos.offset_to(&cur.pos);
        let ghost before = positions@;
        proof {
            assert(all[k as int] == *other);
            lemma_filter_take_step(all, k as int, keep);
            all.take(k as int).filter(keep).lemma_push_map_commute(position_of(), *other);
        }
        if d.norm_sq() > min_distance_squared {
            positions.push(other.pos.widen());
            proof {
                assert(views(positions@) =~= views(before).push(other.pos@));
            }
        }
        k += 1;
    }
    proof {
        assert(all.take(k as int) =~= all);
    }
    if positions.len() == 0 {
        proof {
            assert(weighted(Vector::zero(), weight as int) == Vector::zero()) by {
                assert(weight * 0 == 0);
            }
        }
        return Delta { x: 0, y: 0 };
    }
    proof {
        assert forall|i: int| 0 <= i < views(positions@).len() implies (#[trigger] views(
            positions@,
        )[i]).within(0x8000_0000) by {
            assert(positions[i]@.within(0x8000_0000));
        }
        lemma_mean_within(views(positions@), 0x8000_0000);
    }
    let center: Delta = mean_of(&positions);
    let toward: Delta = Delta { x: center.x - cur.pos.x as i64, y: center.y - cur.pos.y as i64 };
    weigh(&toward, weight)
}

/// Steers toward the average velocity of the flockmates of `boids`.
pub fn alignment_rule(boids: &Vec<&Boid>, weight: u32) -> (steer: Delta)
    ensures
        steer@ == alignment(referents(boids@), weight as int),
        steer@.within(push_limit()),
{
    let ghost all = referents(boids@);
    let mut velocities: Vec<Delta> = Vec::new();
    let mut k: usize = 0;
    proof {
        assert(views(velocities@) =~= all.take(0).map_values(velocity_of()));
    }
    while k < boids.len()
        invariant
            k <= boids.len(),
            all == referents(boids@),
            views(velocities@) == all.take(k as int).map_values(velocity_of()),
            forall|i: int|
                0 <= i < velocities.len() ==> (#[trigger] velocities[i])@.within(span()),
        decreases boids.len() - k,
    {
        let other: &Boid = boids[k];
        let ghost before = velocities@;
        velocities.push(other.vel.widen());
        proof {
            assert(all[k as int] == *other);
            assert(views(velocities@) =~= views(before).push(other.vel@));
            assert(all.take(k + 1).map_values(velocity_of()) =~= all.take(k as int).map_values(
                velocity_of(),
            ).push(other.vel@));
        }
        k += 1;
    }
    proof {
        assert(all.take(k as int) =~= all);
    }
    let heading: Delta = mean_of(&velocities);
    weigh(&heading, weight)
}

/// Pushes an agent that has left the inside of `bounds`, drawn in by
/// `margin`, back toward it: at `speed` along each axis on which it is outside.
pub fn bounds_rule(boid: &Boid, bounds: &Rect, margin: u32, speed: u32, weight: u32) -> (steer:
    Delta)
    ensures
        steer@ == containment(*boid, *bounds, margin as int, speed as int, weight as int),
        steer@.within(push_limit()),
{
    let x: i64 = if (boid.pos.x as i64) < bounds.left() + margin as i64 {
        speed as i64
    } else if boid.pos.x as i64 > bounds.right() - margin as i64 {
        -(speed as i64)
    } else {
        0
    };
    let y: i64 = if (boid.pos.y as i64) < bounds.top() + margin as i64 {
        speed as i64
    } else if boid.pos.y as i64 > bounds.bottom() - margin as i64 {
        -(speed as i64)
    } else {
        0
    };
    weigh(&Delta { x, y }, weight)
}

/// Nudges an agent along the random vector `jitter`, whose coordinates lie
/// between -1 and 1, where the nudge agrees with the agent's heading.
pub fn exploration_rule(cur: &Boid, jitter: &Vec2, speed: u32, weight: u32) -> (steer: Delta)
    requires
        jitter@.within(ONE as int),
    ensures
        steer@ == exploration(*cur, jitter@, speed as int, weight as int),
        steer@.within(push_limit()),
{
    let jx: i128 = jitter.x as i128;
    let jy: i128 = jitter.y as i128;
    let vx: i128 = cur.vel.x as i128;
    let vy: i128 = cur.vel.y as i128;
    let s: i128 = speed as i128;
    let w: i128 = weight as i128;
    assert(-0x1_0000_0000_0000 <= jx * vx <= 0x1_0000_0000_0000 && -0x1_0000_0000_0000 <= jy * vy
        <= 0x1_0000_0000_0000) by (nonlinear_arith)
        requires
            -1000 <= jx <= 1000,
            -1000 <= jy <= 1000,
            -0x8000_0000 <= vx <= 0x8000_0000,
            -0x8000_0000 <= vy <= 0x8000_0000,
    ;
    let threshold: i128 = 200_000;
    assert(threshold == EXPLORATION_THRESHOLD * ONE);
    if jx * vx + jy * vy > threshold {
        assert(-0x3E8_0000_0000 <= jx * s <= 0x3E8_0000_0000 && -0x3E8_0000_0000 <= jy * s
            <= 0x3E8_0000_0000) by (nonlinear_arith)
            requires
                -1000 <= jx <= 1000,
                -1000 <= jy <= 1000,
                0 <= s <= 0xFFFF_FFFF,
        ;
        let px: i128 = jx * s;
        let py: i128 = jy * s;
        assert(-0x3E8_0000_0000_0000_0000 <= px * w <= 0x3E8_0000_0000_0000_0000
            && -0x3E8_0000_0000_0000_0000 <= py * w <= 0x3E8_0000_0000_0000_0000)
            by (nonlinear_arith)
            requires
                -0x3E8_0000_0000 <= px <= 0x3E8_0000_0000,
                -0x3E8_0000_0000 <= py <= 0x3E8_0000_0000,
                0 <= w <= 0xFFFF_FFFF,
        ;
        proof {
            lemma_div_trunc_within(px * w, 1_000_000, push_limit());
            lemma_div_trunc_within(py * w, 1_000_000, push_limit());
            assert(ONE * ONE == 1_000_000);
        }
        Delta {
            x: div_toward_zero(px * w, 1_000_000) as i64,
            y: div_toward_zero(py * w, 1_000_000) as i64,
        }
    } else {
        Delta { x: 0, y: 0 }
    }
}

} // verus!
