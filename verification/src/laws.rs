//! What holds of the flocking engine on every input.
use crate::boid::{
    acceleration, indices, is_neighbor_index, is_threat, neighbor_index_seq, neighbors_of,
    next_velocity, perceives, same_flock, Boid,
};
use crate::fixed::{lemma_ceil_sqrt_is, ONE};
use crate::rules::{
    alignment, avoidance, cohesion, containment, directed, exploration, lemma_limited_length,
    limited, mean, separation, weighted,
};
use crate::vector::{Rect, Vector};
use vstd::prelude::*;

verus! {

/// An index is among the neighbor indices of the agent at `cur` exactly when
/// it names another agent of the list that the agent perceives within the
/// distance.
pub proof fn lemma_neighbor_indices(
    boids: Seq<Boid>,
    cur: int,
    j: usize,
    max_distance: int,
    fov: int,
)
    requires
        boids.len() <= usize::MAX,
    ensures
        neighbor_index_seq(boids, cur, max_distance, fov).contains(j) <==> (j != cur && j
            < boids.len() && perceives(
            boids[cur],
            boids[j as int],
            max_distance * max_distance,
            fov,
        )),
{
    let all = indices(boids.len());
    let test = is_neighbor_index(boids, cur, max_distance, fov);
    let found = all.filter(test);
    if found.contains(j) {
        let k = choose|k: int| 0 <= k < found.len() && found[k] == j;
        all.lemma_filter_pred(test, k);
    }
    if test(j) {
        assert(all[j as int] == j);
        all.lemma_filter_contains(test, j as int);
    }
}

/// No agent is its own neighbor.
pub proof fn lemma_never_own_neighbor(boids: Seq<Boid>, cur: int, max_distance: int, fov: int)
    requires
        boids.len() <= usize::MAX,
        0 <= cur < boids.len(),
    ensures
        !neighbor_index_seq(boids, cur, max_distance, fov).contains(cur as usize),
{
    lemma_neighbor_indices(boids, cur, cur as usize, max_distance, fov);
}

/// The distance cutoff is inclusive: of the other agents in the field of
/// view, the neighbors are those whose squared distance is at most the square
/// of the given distance. One exactly that far is a neighbor; one farther by
/// the least amount is not.
pub proof fn lemma_distance_cutoff(
    boids: Seq<Boid>,
    cur: int,
    j: usize,
    max_distance: int,
    fov: int,
)
    requires
        boids.len() <= usize::MAX,
        j < boids.len(),
        j != cur,
        crate::boid::in_view(boids[cur].vel@, boids[j as int].pos@.minus(boids[cur].pos@), fov),
    ensures
        neighbor_index_seq(boids, cur, max_distance, fov).contains(j) <==> boids[j as int].pos@.minus(
            boids[cur].pos@,
        ).norm_sq() <= max_distance * max_distance,
{
    lemma_neighbor_indices(boids, cur, j, max_distance, fov);
}

/// An agent with every other agent farther away than its neighbor distance
/// has no neighbors.
pub proof fn lemma_far_agents_are_no_neighbors(boids: Seq<Boid>, cur: int)
    requires
        boids.len() <= usize::MAX,
        0 <= cur < boids.len(),
        forall|j: int|
            0 <= j < boids.len() && j != cur ==> (#[trigger] boids[j]).pos@.minus(
                boids[cur].pos@,
            ).norm_sq() > boids[cur].config.neighbor_distance * boids[cur].config.neighbor_distance,
    ensures
        neighbors_of(boids, cur).len() == 0,
{
    let reach = boids[cur].config.neighbor_distance as int;
    let fov = boids[cur].config.field_of_view as int;
    let found = neighbor_index_seq(boids, cur, reach, fov);
    if found.len() > 0 {
        let j = found[0];
        assert(found.contains(j));
        lemma_neighbor_indices(boids, cur, j, reach, fov);
        assert(boids[j as int].pos@.minus(boids[cur].pos@).norm_sq() > reach * reach);
    }
    found.lemma_filter_len(|i: usize| i < boids.len());
}

/// An agent without neighbors is steered by containment and exploration
/// alone: separation, cohesion, alignment and avoidance contribute exactly
/// nothing. Where nothing is drawn either, containment is all there is.
pub proof fn lemma_isolated_agent(boids: Seq<Boid>, cur: int, bounds: Rect, jitter: Vector)
    requires
        0 <= cur < boids.len(),
        neighbors_of(boids, cur).len() == 0,
    ensures
        ({
            let me = boids[cur];
            let neighbors = neighbors_of(boids, cur);
            let my_flock = neighbors.filter(same_flock(me));
            let to_avoid = neighbors.filter(is_threat(me));
            &&& separation(
                me,
                neighbors,
                me.config.separation_distance as int,
                me.config.separation_rule_weight as int,
            ) == Vector::zero()
            &&& cohesion(
                me,
                my_flock,
                me.config.separation_distance as int,
                me.config.cohesion_rule_weight as int,
            ) == Vector::zero()
            &&& alignment(my_flock, me.config.alignment_rule_weight as int) == Vector::zero()
            &&& avoidance(
                me,
                to_avoid,
                me.config.avoidance_distance as int,
                me.config.avoidance_rule_weight as int,
            ) == Vector::zero()
            &&& acceleration(boids, cur, bounds, jitter) == containment(
                me,
                bounds,
                me.config.bounds_margin as int,
                me.config.max_speed as int,
                me.config.bounds_rule_weight as int,
            ).plus(
                exploration(
                    me,
                    jitter,
                    me.config.max_speed as int,
                    me.config.exploration_rule_weight as int,
                ),
            )
            &&& jitter == Vector::zero() ==> acceleration(boids, cur, bounds, jitter)
                == containment(
                me,
                bounds,
                me.config.bounds_margin as int,
                me.config.max_speed as int,
                me.config.bounds_rule_weight as int,
            )
        }),
{
    lemma_still_jitter(boids[cur], boids[cur].config.max_speed as int, boids[cur].config.exploration_rule_weight as int);
    let me = boids[cur];
    let neighbors = neighbors_of(boids, cur);
    let my_flock = neighbors.filter(same_flock(me));
    let to_avoid = neighbors.filter(is_threat(me));
    neighbors.lemma_filter_len(same_flock(me));
    neighbors.lemma_filter_len(is_threat(me));
    neighbors.lemma_filter_len(
        crate::rules::within_reach(me, me.config.separation_distance as int),
    );
    my_flock.lemma_filter_len(crate::rules::beyond_reach(me, me.config.separation_distance as int));
    to_avoid.lemma_filter_len(crate::rules::within_reach(me, me.config.avoidance_distance as int));
    lemma_weighted_zero(me.config.separation_rule_weight as int);
    lemma_weighted_zero(me.config.alignment_rule_weight as int);
    lemma_directed_zero(me.config.avoidance_rule_weight as int);
}

/// Without a random nudge there is no exploration.
pub proof fn lemma_still_jitter(cur: Boid, speed: int, weight: int)
    ensures
        exploration(cur, Vector::zero(), speed, weight) == Vector::zero(),
{
    assert(0 * cur.vel@.x + 0 * cur.vel@.y == 0);
}

/// No weight moves the zero vector.
pub proof fn lemma_weighted_zero(weight: int)
    ensures
        weighted(Vector::zero(), weight) == Vector::zero(),
{
    assert(weight * 0 == 0);
}

/// The zero vector has no direction to give a length to.
pub proof fn lemma_directed_zero(weight: int)
    ensures
        directed(Vector::zero(), weight) == Vector::zero(),
{
    let z = Vector::zero();
    assert(z.x * z.x + z.y * z.y == 0);
    lemma_ceil_sqrt_is(0, 0);
}

/// The weight zero silences a rule.
pub proof fn lemma_zero_weight(v: Vector)
    ensures
        weighted(v, 0) == Vector::zero(),
        directed(v, 0) == Vector::zero(),
{
    assert(0 * v.x == 0 && 0 * v.y == 0);
    let length = crate::fixed::ceil_sqrt(v.norm_sq());
    if length != 0 {
        crate::fixed::lemma_ceil_sqrt_exists(v.norm_sq());
        vstd::arithmetic::div_mod::lemma_div_basics(length);
    }
}

/// An agent whose other five weights are zero is steered by containment
/// alone, whoever is near and whatever is drawn.
pub proof fn lemma_only_containment(boids: Seq<Boid>, cur: int, bounds: Rect, jitter: Vector)
    requires
        0 <= cur < boids.len(),
        boids[cur].config.separation_rule_weight == 0,
        boids[cur].config.cohesion_rule_weight == 0,
        boids[cur].config.alignment_rule_weight == 0,
        boids[cur].config.exploration_rule_weight == 0,
        boids[cur].config.avoidance_rule_weight == 0,
    ensures
        acceleration(boids, cur, bounds, jitter) == containment(
            boids[cur],
            bounds,
            boids[cur].config.bounds_margin as int,
            boids[cur].config.max_speed as int,
            boids[cur].config.bounds_rule_weight as int,
        ),
{
    let me = boids[cur];
    let neighbors = neighbors_of(boids, cur);
    let my_flock = neighbors.filter(same_flock(me));
    let to_avoid = neighbors.filter(is_threat(me));
    let reach = me.config.separation_distance as int;
    lemma_zero_weight(
        mean(
            neighbors.filter(crate::rules::within_reach(me, reach)).map_values(
                crate::rules::offset_from(me),
            ),
        ),
    );
    lemma_zero_weight(
        mean(
            my_flock.filter(crate::rules::beyond_reach(me, reach)).map_values(
                crate::rules::position_of(),
            ),
        ).minus(me.pos@),
    );
    lemma_zero_weight(mean(my_flock.map_values(crate::rules::velocity_of())));
    lemma_zero_weight(
        mean(
            to_avoid.filter(
                crate::rules::within_reach(me, me.config.avoidance_distance as int),
            ).map_values(crate::rules::offset_from(me)),
        ),
    );
    assert(jitter.x * me.config.max_speed * 0 == 0 && jitter.y * me.config.max_speed * 0 == 0);
    assert(ONE * ONE == 1_000_000);
}

/// After a step no agent is faster than its greatest speed, whatever the rules
/// contribute.
pub proof fn lemma_speed_clamp(boids: Seq<Boid>, cur: int, bounds: Rect, jitter: Vector)
    requires
        0 <= cur < boids.len(),
    ensures
        next_velocity(boids, cur, bounds, jitter).norm_sq() <= boids[cur].config.max_speed
            * boids[cur].config.max_speed,
{
    lemma_limited_length(
        boids[cur].vel@.plus(acceleration(boids, cur, bounds, jitter)),
        boids[cur].config.max_speed as int,
    );
}

/// A velocity no faster than the greatest speed passes the limit unchanged.
pub proof fn lemma_limit_keeps_slow(v: Vector, speed: int)
    requires
        v.norm_sq() <= speed * speed,
    ensures
        limited(v, speed) == v,
{
}

} // verus!
