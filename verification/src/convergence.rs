//! An agent that has left the inside of the world comes back: containment
//! alone brings it inside within a number of ticks that is known beforehand.
use crate::boid::{acceleration, next_velocity, Boid};
use crate::fixed::{div_trunc, lemma_ceil_sqrt_is, lemma_div_trunc_bounds, ONE};
use crate::laws::lemma_only_containment;
use crate::movement::{advanced, saturated};
use crate::rules::{containment, lemma_limited_length, limited};
use crate::vector::{Rect, Vec2, Vector};
use vstd::prelude::*;

verus! {

/// `v` where it lies between `low` and `high`, else the nearer of the two.
pub open spec fn clamped(v: int, low: int, high: int) -> int {
    if v < low {
        low
    } else if v > high {
        high
    } else {
        v
    }
}

/// A truncated quotient grows with the dividend.
pub proof fn lemma_div_trunc_monotonic(a: int, b: int, c: int)
    requires
        a <= b,
        c > 0,
    ensures
        div_trunc(a, c) <= div_trunc(b, c),
{
    lemma_div_trunc_bounds(a, c);
    lemma_div_trunc_bounds(b, c);
    let qa = div_trunc(a, c);
    let qb = div_trunc(b, c);
    assert(qa <= qb) by (nonlinear_arith)
        requires
            a <= b,
            c > 0,
            a >= 0 ==> 0 <= qa * c <= a < qa * c + c,
            a <= 0 ==> 0 >= qa * c >= a > qa * c - c,
            b >= 0 ==> 0 <= qb * c <= b < qb * c + c,
            b <= 0 ==> 0 >= qb * c >= b > qb * c - c,
    ;
}

/// Truncated division commutes with a change of sign.
pub proof fn lemma_div_trunc_negated(a: int, c: int)
    requires
        c > 0,
    ensures
        div_trunc(-a, c) == -div_trunc(a, c),
{
    if a == 0 {
        assert(0int / c == 0) by (nonlinear_arith)
            requires
                c > 0,
        ;
    }
}

/// The speed limit on a vector along one axis cuts its one coordinate to the
/// speed.
pub proof fn lemma_limited_on_axis(u: int, speed: int)
    requires
        speed >= 0,
    ensures
        limited(Vector { x: u, y: 0 }, speed) == (Vector { x: clamped(u, -speed, speed), y: 0 }),
        limited(Vector { x: 0, y: u }, speed) == (Vector { x: 0, y: clamped(u, -speed, speed) }),
{
    let size = if u >= 0 {
        u
    } else {
        -u
    };
    let a = Vector { x: u, y: 0 };
    let b = Vector { x: 0, y: u };
    assert(a.norm_sq() == u * u && b.norm_sq() == u * u) by (nonlinear_arith)
        requires
            a.norm_sq() == u * u + 0 * 0,
            b.norm_sq() == 0 * 0 + u * u,
    ;
    if u * u <= speed * speed {
        assert(-speed <= u <= speed) by (nonlinear_arith)
            requires
                u * u <= speed * speed,
                speed >= 0,
        ;
    } else {
        assert(size > speed && size * size == u * u && (size - 1) * (size - 1) < u * u)
            by (nonlinear_arith)
            requires
                u * u > speed * speed,
                speed >= 0,
                size >= 0,
                size == u || size == -u,
        ;
        lemma_ceil_sqrt_is(u * u, size);
        assert(div_trunc(speed * 0, size) == 0) by {
            assert(speed * 0 == 0);
            assert(0int / size == 0) by (nonlinear_arith)
                requires
                    size > 0,
            ;
        }
        if u > 0 {
            assert(speed * u >= 0 && (speed * u) / u == speed) by (nonlinear_arith)
                requires
                    u > 0,
                    speed >= 0,
            ;
        } else {
            assert(speed * u <= 0 && (-(speed * u)) / size == speed) by (nonlinear_arith)
                requires
                    u < 0,
                    size == -u,
                    speed >= 0,
            ;
            if speed * u == 0 {
                assert(speed == 0) by (nonlinear_arith)
                    requires
                        speed * u == 0,
                        u < 0,
                ;
            }
        }
    }
}

/// One tick along one axis drives an agent that is below the low edge toward
/// it. With `v_next` the velocity after the tick and `p_next` the coordinate after
/// it, clamped to the coordinates from `floor` to `ceiling`: either the agent
/// has reached the edge and has not passed it by a stride, or what is left of
/// `measure` has shrunk.
pub proof fn lemma_axis_tick(
    p: int,
    v: int,
    push: int,
    speed: int,
    elapsed: int,
    edge: int,
    floor: int,
    ceiling: int,
)
    requires
        push >= 1,
        speed >= 0,
        elapsed >= 0,
        div_trunc(speed * elapsed, ONE as int) >= 1,
        floor <= p < edge <= ceiling,
    ensures
        ({
            let stride = div_trunc(speed * elapsed, ONE as int);
            let v_next = clamped(v + push, -speed, speed);
            let p_next = clamped(p + div_trunc(v_next * elapsed, ONE as int), floor, ceiling);
            &&& p_next >= edge ==> p_next <= edge - 1 + stride
            &&& p_next < edge ==> 0 <= measure(p_next, v_next, speed, stride, edge) < measure(
                p,
                v,
                speed,
                stride,
                edge,
            )
        }),
{
    let stride = div_trunc(speed * elapsed, ONE as int);
    let v_next = clamped(v + push, -speed, speed);
    let d = div_trunc(v_next * elapsed, ONE as int);
    let p_next = clamped(p + d, floor, ceiling);
    assert(-(speed * elapsed) <= v_next * elapsed <= speed * elapsed) by (nonlinear_arith)
        requires
            -speed <= v_next <= speed,
            elapsed >= 0,
    ;
    lemma_div_trunc_monotonic(v_next * elapsed, speed * elapsed, ONE as int);
    lemma_div_trunc_monotonic(-(speed * elapsed), v_next * elapsed, ONE as int);
    lemma_div_trunc_negated(speed * elapsed, ONE as int);
    assert(-stride <= d <= stride);
    if v >= speed {
        assert(v_next == speed);
    } else {
        assert(0 <= speed - v_next <= speed - v - 1);
        assert((speed - v_next) * (stride + 1) <= (speed - v - 1) * (stride + 1)) by (nonlinear_arith)
            requires
                0 <= speed - v_next <= speed - v - 1,
                stride >= 1,
        ;
        assert((speed - v - 1) * (stride + 1) == (speed - v) * (stride + 1) - (stride + 1))
            by (nonlinear_arith);
        assert((speed - v_next) * (stride + 1) >= 0) by (nonlinear_arith)
            requires
                0 <= speed - v_next,
                stride >= 1,
        ;
    }
}

/// How far an agent below an edge is from having come back: the speed it
/// has yet to gain, a stride and one more for each unit, and its distance
/// from the edge.
pub open spec fn measure(p: int, v: int, speed: int, stride: int, edge: int) -> int {
    (if v < speed {
        (speed - v) * (stride + 1)
    } else {
        0
    }) + (edge - p)
}

/// The coordinate of `v` along the vertical axis, or along the horizontal one.
pub open spec fn along(v: Vector, vertical: bool) -> int {
    if vertical {
        v.y
    } else {
        v.x
    }
}

/// The low edge, along one axis, of the inside of `bounds`: of the rectangle
/// drawn in by the agent's margin.
pub open spec fn inner_low(agent: Boid, bounds: Rect, vertical: bool) -> int {
    (if vertical {
        bounds.spec_top()
    } else {
        bounds.spec_left()
    }) + agent.config.bounds_margin
}

/// The high edge, along one axis, of the inside of `bounds`.
pub open spec fn inner_high(agent: Boid, bounds: Rect, vertical: bool) -> int {
    (if vertical {
        bounds.spec_bottom()
    } else {
        bounds.spec_right()
    }) - agent.config.bounds_margin
}

/// The agent is inside along one axis.
pub open spec fn contained_along(agent: Boid, bounds: Rect, vertical: bool) -> bool {
    inner_low(agent, bounds, vertical) <= along(agent.pos@, vertical) <= inner_high(
        agent,
        bounds,
        vertical,
    )
}

/// The agent is inside `bounds` drawn in by its margin.
pub open spec fn contained(agent: Boid, bounds: Rect) -> bool {
    contained_along(agent, bounds, false) && contained_along(agent, bounds, true)
}

/// What containment adds in one tick to the velocity of an agent outside.
pub open spec fn push_of(agent: Boid) -> int {
    div_trunc(agent.config.bounds_rule_weight * agent.config.max_speed, ONE as int)
}

/// How far an agent at its greatest speed moves in `elapsed` thousandths of
/// a second.
pub open spec fn stride_of(agent: Boid, elapsed: int) -> int {
    div_trunc(agent.config.max_speed * elapsed, ONE as int)
}

/// The agent after one tick in which containment alone steers it: a step of
/// the flock, then movement for `elapsed` thousandths of a second.
pub open spec fn after_tick(agent: Boid, bounds: Rect, elapsed: int) -> Boid {
    let vel = limited(
        agent.vel@.plus(
            containment(
                agent,
                bounds,
                agent.config.bounds_margin as int,
                agent.config.max_speed as int,
                agent.config.bounds_rule_weight as int,
            ),
        ),
        agent.config.max_speed as int,
    );
    let pos = advanced(agent.pos@, vel, elapsed);
    Boid {
        pos: Vec2 { x: pos.x as i32, y: pos.y as i32 },
        vel: Vec2 { x: vel.x as i32, y: vel.y as i32 },
        config: agent.config,
    }
}

/// The agent after `ticks` such ticks.
pub open spec fn after_ticks(agent: Boid, bounds: Rect, elapsed: int, ticks: nat) -> Boid
    decreases ticks,
{
    if ticks == 0 {
        agent
    } else {
        after_ticks(after_tick(agent, bounds, elapsed), bounds, elapsed, (ticks - 1) as nat)
    }
}

/// How far an agent outside along one axis is from having come back: the
/// [`measure`] from the edge that it is beyond.
pub open spec fn gap(agent: Boid, bounds: Rect, elapsed: int, vertical: bool) -> int {
    let p = along(agent.pos@, vertical);
    let v = along(agent.vel@, vertical);
    let speed = agent.config.max_speed as int;
    if p < inner_low(agent, bounds, vertical) {
        measure(p, v, speed, stride_of(agent, elapsed), inner_low(agent, bounds, vertical))
    } else {
        measure(-p, -v, speed, stride_of(agent, elapsed), -inner_high(agent, bounds, vertical))
    }
}

/// Containment pushes toward the inside and nowhere else: along each axis,
/// an agent below the low edge is pushed up by [`push_of`], one that is not
/// but is above the high edge is pushed down by as much, and one between the
/// two is not pushed at all.
pub proof fn lemma_containment_points_inward(agent: Boid, bounds: Rect, vertical: bool)
    ensures
        ({
            let steer = along(
                containment(
                    agent,
                    bounds,
                    agent.config.bounds_margin as int,
                    agent.config.max_speed as int,
                    agent.config.bounds_rule_weight as int,
                ),
                vertical,
            );
            let p = along(agent.pos@, vertical);
            &&& push_of(agent) >= 0
            &&& p < inner_low(agent, bounds, vertical) ==> steer == push_of(agent)
            &&& inner_low(agent, bounds, vertical) <= p && p > inner_high(agent, bounds, vertical)
                ==> steer == -push_of(agent)
            &&& contained_along(agent, bounds, vertical) ==> steer == 0
        }),
{
    let speed = agent.config.max_speed as int;
    let weight = agent.config.bounds_rule_weight as int;
    assert(weight * 0 == 0);
    assert(weight * (-speed) == -(weight * speed) && weight * speed >= 0) by (nonlinear_arith)
        requires
            weight >= 0,
            speed >= 0,
    ;
    lemma_div_trunc_negated(weight * speed, ONE as int);
    lemma_div_trunc_bounds(weight * speed, ONE as int);
}

/// The step of the flock is a tick of [`after_tick`] for an agent whose other
/// five weights are zero, whoever is near and whatever is drawn: its velocity
/// after the step, and its position after the movement that follows, are
/// those of the agent after the tick.
pub proof fn lemma_step_is_tick(
    boids: Seq<Boid>,
    cur: int,
    bounds: Rect,
    jitter: Vector,
    elapsed: int,
)
    requires
        0 <= cur < boids.len(),
        boids[cur].config.valid(),
        boids[cur].config.separation_rule_weight == 0,
        boids[cur].config.cohesion_rule_weight == 0,
        boids[cur].config.alignment_rule_weight == 0,
        boids[cur].config.exploration_rule_weight == 0,
        boids[cur].config.avoidance_rule_weight == 0,
    ensures
        after_tick(boids[cur], bounds, elapsed).vel@ == next_velocity(boids, cur, bounds, jitter),
        after_tick(boids[cur], bounds, elapsed).pos@ == advanced(
            boids[cur].pos@,
            next_velocity(boids, cur, bounds, jitter),
            elapsed,
        ),
        after_tick(boids[cur], bounds, elapsed).config == boids[cur].config,
{
    lemma_only_containment(boids, cur, bounds, jitter);
    lemma_limited_length(
        boids[cur].vel@.plus(acceleration(boids, cur, bounds, jitter)),
        boids[cur].config.max_speed as int,
    );
}

/// A tick of an agent that moves along one axis only, and is inside along
/// the other, keeps it so, and is a tick along the axis: the velocity along
/// it gains the push toward the inside and is cut to the greatest speed, and
/// the position moves by the velocity.
pub proof fn lemma_tick_along_axis(agent: Boid, bounds: Rect, elapsed: int, vertical: bool)
    requires
        agent.config.valid(),
        contained_along(agent, bounds, !vertical),
        along(agent.vel@, !vertical) == 0,
    ensures
        ({
            let next = after_tick(agent, bounds, elapsed);
            let p = along(agent.pos@, vertical);
            let speed = agent.config.max_speed as int;
            let push = if p < inner_low(agent, bounds, vertical) {
                push_of(agent)
            } else if p > inner_high(agent, bounds, vertical) {
                -push_of(agent)
            } else {
                0
            };
            let v_next = clamped(along(agent.vel@, vertical) + push, -speed, speed);
            &&& next.config == agent.config
            &&& along(next.vel@, !vertical) == 0
            &&& along(next.pos@, !vertical) == along(agent.pos@, !vertical)
            &&& along(next.vel@, vertical) == v_next
            &&& along(next.pos@, vertical) == saturated(
                p + div_trunc(v_next * elapsed, ONE as int),
            )
        }),
{
    let speed = agent.config.max_speed as int;
    let weight = agent.config.bounds_rule_weight as int;
    let p = along(agent.pos@, vertical);
    let push = if p < inner_low(agent, bounds, vertical) {
        push_of(agent)
    } else if p > inner_high(agent, bounds, vertical) {
        -push_of(agent)
    } else {
        0
    };
    let u = along(agent.vel@, vertical) + push;
    let steer = containment(agent, bounds, agent.config.bounds_margin as int, speed, weight);
    assert(weight * 0 == 0);
    assert(weight * (-speed) == -(weight * speed)) by (nonlinear_arith);
    lemma_div_trunc_negated(weight * speed, ONE as int);
    assert(along(steer, vertical) == push);
    assert(along(steer, !vertical) == 0);
    lemma_limited_on_axis(u, speed);
    let vel = limited(agent.vel@.plus(steer), speed);
    assert(along(vel, vertical) == clamped(u, -speed, speed) && along(vel, !vertical) == 0) by {
        if vertical {
            assert(agent.vel@.plus(steer) == Vector { x: 0, y: u });
        } else {
            assert(agent.vel@.plus(steer) == Vector { x: u, y: 0 });
        }
    }
    assert(0 * elapsed == 0);
}

/// An agent outside along one axis comes back inside. It is inside along the
/// other axis and moves along the first only; containment pushes, and the
/// agent at its greatest speed moves, by a thousandth at least; and the
/// inside lies in the representable world and is at least a stride wide, less
/// one. Then containment alone brings the agent inside within [`gap`] ticks:
/// the function returns on which tick.
pub proof fn lemma_returns_inside(agent: Boid, bounds: Rect, elapsed: int, vertical: bool) -> (ticks:
    nat)
    requires
        agent.config.valid(),
        elapsed >= 0,
        push_of(agent) >= 1,
        stride_of(agent, elapsed) >= 1,
        i32::MIN <= inner_low(agent, bounds, vertical),
        inner_high(agent, bounds, vertical) <= i32::MAX,
        inner_low(agent, bounds, vertical) + stride_of(agent, elapsed) - 1 <= inner_high(
            agent,
            bounds,
            vertical,
        ),
        !contained_along(agent, bounds, vertical),
        contained_along(agent, bounds, !vertical),
        along(agent.vel@, !vertical) == 0,
    ensures
        contained(after_ticks(agent, bounds, elapsed, ticks), bounds),
        1 <= ticks <= gap(agent, bounds, elapsed, vertical),
    decreases gap(agent, bounds, elapsed, vertical),
{
    let next = after_tick(agent, bounds, elapsed);
    let p = along(agent.pos@, vertical);
    let v = along(agent.vel@, vertical);
    let speed = agent.config.max_speed as int;
    let stride = stride_of(agent, elapsed);
    let low = inner_low(agent, bounds, vertical);
    let high = inner_high(agent, bounds, vertical);
    lemma_tick_along_axis(agent, bounds, elapsed, vertical);
    let p_next = along(next.pos@, vertical);
    let v_next = along(next.vel@, vertical);
    if p < low {
        lemma_axis_tick(p, v, push_of(agent), speed, elapsed, low, i32::MIN as int, i32::MAX as int);
    } else {
        lemma_axis_tick(
            -p,
            -v,
            push_of(agent),
            speed,
            elapsed,
            -high,
            -(i32::MAX as int),
            -(i32::MIN as int),
        );
        assert((-v_next) * elapsed == -(v_next * elapsed)) by (nonlinear_arith);
        lemma_div_trunc_negated(v_next * elapsed, ONE as int);
    }
    assert(inner_low(next, bounds, vertical) == low && inner_high(next, bounds, vertical) == high);
    assert(inner_low(next, bounds, !vertical) == inner_low(agent, bounds, !vertical));
    assert(inner_high(next, bounds, !vertical) == inner_high(agent, bounds, !vertical));
    assert(stride_of(next, elapsed) == stride && push_of(next) == push_of(agent));
    if low <= p_next <= high {
        assert(contained(next, bounds));
        assert(after_ticks(agent, bounds, elapsed, 1) == after_ticks(next, bounds, elapsed, 0));
        assert(gap(agent, bounds, elapsed, vertical) >= 1);
        1
    } else {
        assert(gap(next, bounds, elapsed, vertical) < gap(agent, bounds, elapsed, vertical));
        let rest = lemma_returns_inside(next, bounds, elapsed, vertical);
        assert(after_ticks(agent, bounds, elapsed, rest + 1) == after_ticks(
            next,
            bounds,
            elapsed,
            rest,
        ));
        rest + 1
    }
}

/// The flock `after` holds the agent at `cur` as one tick leaves it in the
/// flock `before`: after a step of the flock with the random vector `jitter`,
/// then movement for `elapsed` thousandths of a second.
pub open spec fn follows(
    before: Seq<Boid>,
    after: Seq<Boid>,
    cur: int,
    bounds: Rect,
    jitter: Vector,
    elapsed: int,
) -> bool {
    &&& 0 <= cur < before.len() == after.len()
    &&& after[cur].config == before[cur].config
    &&& after[cur].vel@ == next_velocity(before, cur, bounds, jitter)
    &&& after[cur].pos@ == advanced(before[cur].pos@, after[cur].vel@, elapsed)
}

/// An agent of a flock that is outside along one axis comes back inside,
/// whatever the other agents do and whatever is drawn. `path` holds the
/// flock tick after tick; the agent at `cur` heeds containment alone, and
/// starts as [`lemma_returns_inside`] asks. Then on one of the first
/// [`gap`] ticks the agent is inside: the function returns on which.
pub proof fn lemma_flock_member_returns(
    path: Seq<Seq<Boid>>,
    jitter: Seq<Vector>,
    cur: int,
    bounds: Rect,
    elapsed: int,
    vertical: bool,
) -> (tick: nat)
    requires
        path.len() > 0,
        0 <= cur < path[0].len(),
        path.len() > gap(path[0][cur], bounds, elapsed, vertical),
        jitter.len() + 1 == path.len(),
        forall|t: int|
            0 <= t < jitter.len() ==> follows(
                #[trigger] path[t],
                path[t + 1],
                cur,
                bounds,
                jitter[t],
                elapsed,
            ),
        path[0][cur].config.separation_rule_weight == 0,
        path[0][cur].config.cohesion_rule_weight == 0,
        path[0][cur].config.alignment_rule_weight == 0,
        path[0][cur].config.exploration_rule_weight == 0,
        path[0][cur].config.avoidance_rule_weight == 0,
        path[0][cur].config.valid(),
        elapsed >= 0,
        push_of(path[0][cur]) >= 1,
        stride_of(path[0][cur], elapsed) >= 1,
        i32::MIN <= inner_low(path[0][cur], bounds, vertical),
        inner_high(path[0][cur], bounds, vertical) <= i32::MAX,
        inner_low(path[0][cur], bounds, vertical) + stride_of(path[0][cur], elapsed) - 1
            <= inner_high(path[0][cur], bounds, vertical),
        !contained_along(path[0][cur], bounds, vertical),
        contained_along(path[0][cur], bounds, !vertical),
        along(path[0][cur].vel@, !vertical) == 0,
    ensures
        1 <= tick < path.len(),
        tick <= gap(path[0][cur], bounds, elapsed, vertical),
        contained(path[tick as int][cur], bounds),
{
    let tick = lemma_returns_inside(path[0][cur], bounds, elapsed, vertical);
    lemma_path_is_ticks(path, jitter, cur, bounds, elapsed, tick);
    tick
}

/// The agent at `cur` of a flock that heeds containment alone is, after
/// `tick` ticks of the flock, the agent after `tick` ticks on its own.
proof fn lemma_path_is_ticks(
    path: Seq<Seq<Boid>>,
    jitter: Seq<Vector>,
    cur: int,
    bounds: Rect,
    elapsed: int,
    tick: nat,
)
    requires
        tick < path.len(),
        0 <= cur < path[0].len(),
        jitter.len() + 1 == path.len(),
        forall|t: int|
            0 <= t < jitter.len() ==> follows(
                #[trigger] path[t],
                path[t + 1],
                cur,
                bounds,
                jitter[t],
                elapsed,
            ),
        path[0][cur].config.separation_rule_weight == 0,
        path[0][cur].config.cohesion_rule_weight == 0,
        path[0][cur].config.alignment_rule_weight == 0,
        path[0][cur].config.exploration_rule_weight == 0,
        path[0][cur].config.avoidance_rule_weight == 0,
        path[0][cur].config.valid(),
    ensures
        path[tick as int][cur] == after_ticks(path[0][cur], bounds, elapsed, tick),
        0 <= cur < path[tick as int].len(),
    decreases tick,
{
    if tick > 0 {
        let rest = path.subrange(1, path.len() as int);
        let later = jitter.subrange(1, jitter.len() as int);
        assert(follows(path[0], path[1], cur, bounds, jitter[0], elapsed));
        lemma_step_is_tick(path[0], cur, bounds, jitter[0], elapsed);
        let next = after_tick(path[0][cur], bounds, elapsed);
        assert(path[1][cur].pos == next.pos && path[1][cur].vel == next.vel);
        assert(path[1][cur] == next);
        assert forall|t: int| 0 <= t < later.len() implies follows(
            #[trigger] rest[t],
            rest[t + 1],
            cur,
            bounds,
            later[t],
            elapsed,
        ) by {
            assert(follows(path[t + 1], path[t + 2], cur, bounds, jitter[t + 1], elapsed));
        }
        lemma_path_is_ticks(rest, later, cur, bounds, elapsed, (tick - 1) as nat);
    }
}

} // verus!
