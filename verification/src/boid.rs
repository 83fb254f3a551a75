//! The flocking engine: who an agent perceives, and how it steers.
use crate::fixed::{product_exceeds, ONE};
use crate::random::gen_range;
use crate::rules::{
    alignment, alignment_rule, avoidance, avoidance_rule, bounds_rule, cohesion, cohesion_rule,
    containment, exploration, exploration_rule, lemma_filter_take_step, limit_vel, limited,
    separation, separation_rule,
};
use crate::vector::{span, Delta, Rect, Vec2, Vector};
use std::collections::HashSet;
use vstd::prelude::*;

verus! {

broadcast use vstd::std_specs::hash::group_hash_axioms;

/// The parameters that the agents of one flock share. Distances and the
/// speed are in thousandths of a world unit, weights and the field of view in
/// thousandths.
#[derive(Debug)]
pub struct Config {
    /// How far inside the world's edge an agent starts to be pushed back.
    pub bounds_margin: u32,
    /// How far an agent perceives others.
    pub neighbor_distance: u32,
    /// Within this distance neighbors repel; beyond it flockmates attract.
    pub separation_distance: u32,
    /// Within this distance an agent flees the flocks it avoids.
    pub avoidance_distance: u32,
    pub separation_rule_weight: u32,
    pub cohesion_rule_weight: u32,
    pub alignment_rule_weight: u32,
    pub bounds_rule_weight: u32,
    pub exploration_rule_weight: u32,
    pub avoidance_rule_weight: u32,
    /// The least cosine, between an agent's heading and the direction to
    /// another, at which it no longer perceives the other: -1000 lets in nearly
    /// every direction, a value near 1000 only a narrow cone ahead.
    pub field_of_view: i32,
    /// The greatest speed an agent keeps after a step.
    pub max_speed: u32,
    pub flock_id: u8,
    /// The flocks whose members this flock flees.
    pub flock_to_avoid: HashSet<u8>,
}

impl Config {
    /// The speed limit fits the coordinates of a velocity.
    pub open spec fn valid(&self) -> bool {
        self.max_speed <= i32::MAX
    }

    pub fn is_valid(&self) -> (b: bool)
        ensures
            b == self.valid(),
    {
        self.max_speed <= 0x7FFF_FFFF
    }
}

/// Copies a set with `HashSet::clone`, which std documents to return a set
/// of the same elements.
#[verifier::external_body]
fn clone_set(set: &HashSet<u8>) -> (copy: HashSet<u8>)
    ensures
        copy@ == set@,
{
    set.clone()
}

impl Clone for Config {
    fn clone(&self) -> (copy: Config)
        ensures
            copy.flock_to_avoid@ == self.flock_to_avoid@,
            copy == (Config { flock_to_avoid: copy.flock_to_avoid, ..*self }),
    {
        Config {
            bounds_margin: self.bounds_margin,
            neighbor_distance: self.neighbor_distance,
            separation_distance: self.separation_distance,
            avoidance_distance: self.avoidance_distance,
            separation_rule_weight: self.separation_rule_weight,
            cohesion_rule_weight: self.cohesion_rule_weight,
            alignment_rule_weight: self.alignment_rule_weight,
            bounds_rule_weight: self.bounds_rule_weight,
            exploration_rule_weight: self.exploration_rule_weight,
            avoidance_rule_weight: self.avoidance_rule_weight,
            field_of_view: self.field_of_view,
            max_speed: self.max_speed,
            flock_id: self.flock_id,
            flock_to_avoid: clone_set(&self.flock_to_avoid),
        }
    }
}

/// One agent: where it is, how it moves, and the parameters of its flock.
#[derive(Clone, Copy, Debug)]
pub struct Boid<'a> {
    pub pos: Vec2,
    pub vel: Vec2,
    pub config: &'a Config,
}

/// Whether the direction `toward` lies in the field of view of an agent
/// heading along `heading`: whether the cosine of the angle between the two
/// exceeds `fov` thousandths. This is a test of the angle alone: neither the
/// agent's speed nor the distance matters, as they would if the dot product
/// itself were held against the threshold. The cosine of an angle with a zero
/// vector counts as zero, so an agent at rest perceives in every direction or
/// in none. The comparison is exact: since the cosine is the dot product over
/// the root of `scale`, it is made on squares, the signs apart.
pub open spec fn in_view(heading: Vector, toward: Vector, fov: int) -> bool {
    let dot = heading.dot(toward);
    let scale = heading.norm_sq() * toward.norm_sq();
    if scale == 0 {
        0 > fov
    } else if fov >= 0 {
        dot > 0 && (dot * dot) * (ONE * ONE) > scale * (fov * fov)
    } else {
        dot >= 0 || (dot * dot) * (ONE * ONE) < scale * (fov * fov)
    }
}

/// Whether `cur` perceives `other`: the other is no farther than the distance
/// whose square is given (a neighbor exactly that far is perceived), and lies
/// in the field of view.
pub open spec fn perceives(cur: Boid, other: Boid, max_distance_squared: int, fov: int) -> bool {
    let to_other = other.pos@.minus(cur.pos@);
    to_other.norm_sq() <= max_distance_squared && in_view(cur.vel@, to_other, fov)
}

/// Decides [`in_view`] for a heading and the displacement between two
/// positions.
pub fn looks_toward(heading: &Vec2, toward: &Delta, field_of_view: i32) -> (b: bool)
    requires
        toward@.within(span()),
    ensures
        b == in_view(heading@, toward@, field_of_view as int),
{
    let vx: i128 = heading.x as i128;
    let vy: i128 = heading.y as i128;
    let dx: i128 = toward.x as i128;
    let dy: i128 = toward.y as i128;
    assert(-0x7FFF_FFFF_8000_0000 <= vx * dx <= 0x7FFF_FFFF_8000_0000 && -0x7FFF_FFFF_8000_0000
        <= vy * dy <= 0x7FFF_FFFF_8000_0000) by (nonlinear_arith)
        requires
            -0x8000_0000 <= vx <= 0x8000_0000,
            -0x8000_0000 <= vy <= 0x8000_0000,
            -0xFFFF_FFFF <= dx <= 0xFFFF_FFFF,
            -0xFFFF_FFFF <= dy <= 0xFFFF_FFFF,
    ;
    let dot: i128 = vx * dx + vy * dy;
    let size: u128 = if dot >= 0 {
        dot as u128
    } else {
        (-dot) as u128
    };
    assert(size * size == dot * dot && size * size <= 0xFFFF_FFFE_0000_0001_0000_0000_0000_0000)
        by (nonlinear_arith)
        requires
            size == dot || size == -dot,
            0 <= size <= 0xFFFF_FFFF_0000_0000,
    ;
    let v2: u64 = heading.norm_sq();
    let d2: u128 = toward.norm_sq();
    assert(v2 * d2 <= 0xFFFF_FFFF_FFFF_FFFF_FFFF_FFFF_FFFF_FFFF) by (nonlinear_arith)
        requires
            0 <= v2 <= 0x8000_0000_0000_0000,
            0 <= d2 <= 2 * 0xFFFF_FFFFint * 0xFFFF_FFFFint,
    ;
    let scale: u128 = (v2 as u128) * d2;
    if scale == 0 {
        return 0 > field_of_view;
    }
    let f: i64 = field_of_view as i64;
    assert(0 <= f * f <= 0x4000_0000_0000_0000) by (nonlinear_arith)
        requires
            -0x8000_0000 <= f <= 0x8000_0000,
    ;
    let f2: u64 = (f * f) as u64;
    let unit: u64 = 1_000_000;
    assert(ONE * ONE == 1_000_000);
    if field_of_view >= 0 {
        dot > 0 && product_exceeds(size * size, unit, scale, f2)
    } else {
        dot >= 0 || product_exceeds(scale, f2, size * size, unit)
    }
}

/// Decides whether `cur` perceives `other`, which is taken to be another
/// agent than `cur`: two agents at one place are two agents, and it is
/// [`neighbor_indices`] that keeps an agent from being its own neighbor.
pub fn is_neighbor(cur: &Boid, other: &Boid, max_distance_squared: u64, field_of_view: i32) -> (b:
    bool)
    ensures
        b == perceives(*cur, *other, max_distance_squared as int, field_of_view as int),
{
    let to_other: Delta = cur.pos.offset_to(&other.pos);
    if to_other.norm_sq() > max_distance_squared as u128 {
        return false;
    }
    looks_toward(&cur.vel, &to_other, field_of_view)
}

/// The indices `0, 1, ..` below `n`, in order.
pub open spec fn indices(n: nat) -> Seq<usize> {
    Seq::new(n, |j: int| j as usize)
}

/// The test that index `j` names a neighbor of the agent at index `cur`:
/// another agent of `boids` that it perceives within `max_distance`.
pub open spec fn is_neighbor_index(boids: Seq<Boid>, cur: int, max_distance: int, fov: int)
    -> spec_fn(usize) -> bool {
    |j: usize|
        j != cur && j < boids.len() && perceives(
            boids[cur],
            boids[j as int],
            max_distance * max_distance,
            fov,
        )
}

/// The indices of the neighbors of the agent at index `cur`, in increasing
/// order.
pub open spec fn neighbor_index_seq(boids: Seq<Boid>, cur: int, max_distance: int, fov: int)
    -> Seq<usize> {
    indices(boids.len()).filter(is_neighbor_index(boids, cur, max_distance, fov))
}

/// The items of `list` that `picks` names, in the order of `picks`; an index
/// past the end of `list` names nothing.
pub open spec fn selected<T>(list: Seq<T>, picks: Seq<usize>) -> Seq<T> {
    picks.filter(|i: usize| i < list.len()).map_values(|i: usize| list[i as int])
}

/// The values that a sequence of references leads to.
pub open spec fn referents<T>(refs: Seq<&T>) -> Seq<T> {
    refs.map_values(|r: &T| *r)
}

/// Finds the neighbors of the agent at index `cur`: every other agent no
/// farther than `max_distance` that lies in its field of view.
pub fn neighbor_indices(cur: usize, boids: &Vec<Boid>, max_distance: u32, field_of_view: i32) -> (found:
    Vec<usize>)
    requires
        cur < boids.len(),
    ensures
        found@ == neighbor_index_seq(
            boids@,
            cur as int,
            max_distance as int,
            field_of_view as int,
        ),
        !found@.contains(cur),
        forall|k: int| 0 <= k < found.len() ==> found[k] < boids.len(),
{
    let reach: u64 = max_distance as u64;
    assert(reach * reach <= 0xFFFF_FFFE_0000_0001) by (nonlinear_arith)
        requires
            0 <= reach <= 0xFFFF_FFFF,
    ;
    let max_distance_squared: u64 = reach * reach;
    let ghost test = is_neighbor_index(
        boids@,
        cur as int,
        max_distance as int,
        field_of_view as int,
    );
    let mut found: Vec<usize> = Vec::new();
    let mut j: usize = 0;
    proof {
        assert(indices(0) =~= Seq::<usize>::empty());
        reveal(Seq::filter);
    }
    while j < boids.len()
        invariant
            j <= boids.len(),
            cur < boids.len(),
            max_distance_squared == max_distance * max_distance,
            test == is_neighbor_index(
                boids@,
                cur as int,
                max_distance as int,
                field_of_view as int,
            ),
            found@ == indices(j as nat).filter(test),
            forall|k: int| 0 <= k < found.len() ==> found[k] != cur && found[k] < boids.len(),
        decreases boids.len() - j,
    {
        let take: bool = j != cur && is_neighbor(
            &boids[cur],
            &boids[j],
            max_distance_squared,
            field_of_view,
        );
        proof {
            assert(indices((j + 1) as nat) =~= indices(j as nat).push(j));
            indices(j as nat).lemma_filter_push(j, test);
            assert(take == test(j));
        }
        if take {
            found.push(j);
        }
        j += 1;
    }
    found
}

/// Collects the items of `list` that `indices` names, skipping any index past
/// the end of `list`.
pub fn select<'a, T>(list: &'a Vec<T>, indices: &'a Vec<usize>) -> (picked: Vec<&'a T>)
    ensures
        referents(picked@) == selected(list@, indices@),
{
    let ghost in_range = |i: usize| i < list@.len();
    let ghost pick = |i: usize| list@[i as int];
    let mut picked: Vec<&T> = Vec::new();
    let mut k: usize = 0;
    proof {
        reveal(Seq::filter);
        assert(indices@.take(0) =~= Seq::<usize>::empty());
        assert(referents(picked@) =~= indices@.take(0).filter(in_range).map_values(pick));
    }
    while k < indices.len()
        invariant
            k <= indices.len(),
            in_range == |i: usize| i < list@.len(),
            pick == |i: usize| list@[i as int],
            referents(picked@) == indices@.take(k as int).filter(in_range).map_values(pick),
        decreases indices.len() - k,
    {
        let index: usize = indices[k];
        let ghost before = picked@;
        proof {
            assert(indices@.take(k + 1) =~= indices@.take(k as int).push(index));
            indices@.take(k as int).lemma_filter_push(index, in_range);
            indices@.take(k as int).filter(in_range).lemma_push_map_commute(pick, index);
        }
        if index < list.len() {
            picked.push(&list[index]);
            proof {
                before.lemma_push_map_commute(|r: &T| *r, &list@[index as int]);
            }
        }
        k += 1;
    }
    proof {
        assert(indices@.take(k as int) =~= indices@);
    }
    picked
}

/// The test that an agent belongs to the flock of `cur`.
pub open spec fn same_flock(cur: Boid) -> spec_fn(Boid) -> bool {
    |b: Boid| b.config.flock_id == cur.config.flock_id
}

/// The test that an agent belongs to a flock that `cur` avoids.
pub open spec fn is_threat(cur: Boid) -> spec_fn(Boid) -> bool {
    |b: Boid| cur.config.flock_to_avoid@.contains(b.config.flock_id)
}

/// The neighbors of the agent at index `cur`: the other agents that it
/// perceives within its neighbor distance, in the order of `boids`.
pub open spec fn neighbors_of(boids: Seq<Boid>, cur: int) -> Seq<Boid> {
    selected(
        boids,
        neighbor_index_seq(
            boids,
            cur,
            boids[cur].config.neighbor_distance as int,
            boids[cur].config.field_of_view as int,
        ),
    )
}

/// The acceleration of the agent at index `cur`: the sum of the six steering
/// rules, each with its weight. Separation looks at every neighbor, cohesion
/// and alignment at those of the agent's own flock, avoidance at those of the
/// flocks it avoids. `jitter` is the random vector of the exploration rule.
pub open spec fn acceleration(boids: Seq<Boid>, cur: int, bounds: Rect, jitter: Vector) -> Vector {
    let me = boids[cur];
    let neighbors = neighbors_of(boids, cur);
    let my_flock = neighbors.filter(same_flock(me));
    let to_avoid = neighbors.filter(is_threat(me));
    separation(
        me,
        neighbors,
        me.config.separation_distance as int,
        me.config.separation_rule_weight as int,
    ).plus(
        cohesion(
            me,
            my_flock,
            me.config.separation_distance as int,
            me.config.cohesion_rule_weight as int,
        ),
    ).plus(alignment(my_flock, me.config.alignment_rule_weight as int)).plus(
        containment(
            me,
            bounds,
            me.config.bounds_margin as int,
            me.config.max_speed as int,
            me.config.bounds_rule_weight as int,
        ),
    ).plus(
        exploration(
            me,
            jitter,
            me.config.max_speed as int,
            me.config.exploration_rule_weight as int,
        ),
    ).plus(
        avoidance(
            me,
            to_avoid,
            me.config.avoidance_distance as int,
            me.config.avoidance_rule_weight as int,
        ),
    )
}

/// The velocity of the agent at index `cur` after a step: its velocity plus
/// its acceleration, cut to its greatest speed.
pub open spec fn next_velocity(boids: Seq<Boid>, cur: int, bounds: Rect, jitter: Vector) -> Vector {
    limited(
        boids[cur].vel@.plus(acceleration(boids, cur, bounds, jitter)),
        boids[cur].config.max_speed as int,
    )
}

/// Keeps the agents of `neighbors` that belong to the flock of `cur`.
pub fn flockmates<'a, 'b>(cur: &Boid, neighbors: &Vec<&'b Boid<'a>>) -> (mates: Vec<&'b Boid<'a>>)
    ensures
        referents(mates@) == referents(neighbors@).filter(same_flock(*cur)),
{
    let ghost all = referents(neighbors@);
    let ghost keep = same_flock(*cur);
    let mut mates: Vec<&Boid> = Vec::new();
    let mut k: usize = 0;
    proof {
        reveal(Seq::filter);
        assert(all.take(0) =~= Seq::<Boid>::empty());
        assert(referents(mates@) =~= all.take(0).filter(keep));
    }
    while k < neighbors.len()
        invariant
            k <= neighbors.len(),
            all == referents(neighbors@),
            keep == same_flock(*cur),
            referents(mates@) == all.take(k as int).filter(keep),
        decreases neighbors.len() - k,
    {
        let other: &Boid = neighbors[k];
        let ghost before = mates@;
        proof {
            assert(all[k as int] == *other);
            lemma_filter_take_step(all, k as int, keep);
        }
        if other.config.flock_id == cur.config.flock_id {
            mates.push(other);
            proof {
                assert(referents(mates@) =~= referents(before).push(*other));
            }
        }
        k += 1;
    }
    proof {
        assert(all.take(k as int) =~= all);
    }
    mates
}

/// Keeps the agents of `neighbors` that belong to a flock that `cur` avoids.
pub fn threats<'a, 'b>(cur: &Boid, neighbors: &Vec<&'b Boid<'a>>) -> (feared: Vec<&'b Boid<'a>>)
    ensures
        referents(feared@) == referents(neighbors@).filter(is_threat(*cur)),
{
    let ghost all = referents(neighbors@);
    let ghost keep = is_threat(*cur);
    let mut feared: Vec<&Boid> = Vec::new();
    let mut k: usize = 0;
    proof {
        reveal(Seq::filter);
        assert(all.take(0) =~= Seq::<Boid>::empty());
        assert(referents(feared@) =~= all.take(0).filter(keep));
    }
    while k < neighbors.len()
        invariant
            k <= neighbors.len(),
            all == referents(neighbors@),
            keep == is_threat(*cur),
            referents(feared@) == all.take(k as int).filter(keep),
        decreases neighbors.len() - k,
    {
        let other: &Boid = neighbors[k];
        let ghost before = feared@;
        proof {
            assert(all[k as int] == *other);
            lemma_filter_take_step(all, k as int, keep);
        }
        if cur.config.flock_to_avoid.contains(&other.config.flock_id) {
            feared.push(other);
            proof {
                assert(referents(feared@) =~= referents(before).push(*other));
            }
        }
        k += 1;
    }
    proof {
        assert(all.take(k as int) =~= all);
    }
    feared
}

/// The parameters of every agent of the flock are valid.
pub open spec fn flock_valid(boids: Seq<Boid>) -> bool {
    forall|i: int| 0 <= i < boids.len() ==> (#[trigger] boids[i]).config.valid()
}

/// Whether the parameters of every agent of the flock are valid.
pub fn is_flock_valid(boids: &Vec<Boid>) -> (b: bool)
    ensures
        b == flock_valid(boids@),
{
    let mut i: usize = 0;
    while i < boids.len()
        invariant
            i <= boids.len(),
            forall|k: int| 0 <= k < i ==> (#[trigger] boids[k]).config.valid(),
        decreases boids.len() - i,
    {
        if !boids[i].config.is_valid() {
            return false;
        }
        i += 1;
    }
    true
}

/// Computes the velocity that the agent at index `cur` has after a step,
/// from the positions and velocities of `boids` as they are.
pub fn steer(cur: usize, boids: &Vec<Boid>, bounds: &Rect, jitter: &Vec2) -> (vel: Vec2)
    requires
        cur < boids.len(),
        boids[cur as int].config.valid(),
        jitter@.within(ONE as int),
    ensures
        vel@ == next_velocity(boids@, cur as int, *bounds, jitter@),
        vel@.norm_sq() <= boids[cur as int].config.max_speed * boids[cur as int].config.max_speed,
{
    let me: &Boid = &boids[cur];
    let config: &Config = me.config;
    let indices: Vec<usize> = neighbor_indices(
        cur,
        boids,
        config.neighbor_distance,
        config.field_of_view,
    );
    let neighbors: Vec<&Boid> = select(boids, &indices);
    let my_flock: Vec<&Boid> = flockmates(me, &neighbors);
    let to_avoid: Vec<&Boid> = threats(me, &neighbors);
    let a: Delta = separation_rule(
        me,
        &neighbors,
        config.separation_distance,
        config.separation_rule_weight,
    );
    let b: Delta = cohesion_rule(
        me,
        &my_flock,
        config.separation_distance,
        config.cohesion_rule_weight,
    );
    let c: Delta = alignment_rule(&my_flock, config.alignment_rule_weight);
    let d: Delta = bounds_rule(
        me,
        bounds,
        config.bounds_margin,
        config.max_speed,
        config.bounds_rule_weight,
    );
    let e: Delta = exploration_rule(me, jitter, config.max_speed, config.exploration_rule_weight);
    let f: Delta = avoidance_rule(
        me,
        &to_avoid,
        config.avoidance_distance,
        config.avoidance_rule_weight,
    );
    let sum: Delta = Delta {
        x: me.vel.x as i64 + (a.x + b.x + c.x + d.x + e.x + f.x),
        y: me.vel.y as i64 + (a.y + b.y + c.y + d.y + e.y + f.y),
    };
    limit_vel(sum, config.max_speed)
}

/// Advances every agent by one step with the random vectors given: each
/// velocity becomes what [`next_velocity`] makes of the agents as they were
/// before the step, whatever the order of the agents. Positions and
/// parameters stay as they are.
pub fn boids_step(boids: &mut Vec<Boid>, bounds: &Rect, jitter: &Vec<Vec2>)
    requires
        jitter.len() == old(boids).len(),
        flock_valid(old(boids)@),
        forall|i: int| 0 <= i < jitter.len() ==> (#[trigger] jitter[i])@.within(ONE as int),
    ensures
        final(boids).len() == old(boids).len(),
        forall|i: int|
            0 <= i < old(boids).len() ==> {
                &&& (#[trigger] final(boids)[i]).pos == old(boids)[i].pos
                &&& final(boids)[i].config == old(boids)[i].config
                &&& final(boids)[i].vel@ == next_velocity(old(boids)@, i, *bounds, jitter[i]@)
                &&& final(boids)[i].vel@.norm_sq() <= old(boids)[i].config.max_speed
                    * old(boids)[i].config.max_speed
            },
{
    let n: usize = boids.len();
    let mut next: Vec<Vec2> = Vec::new();
    let mut i: usize = 0;
    while i < n
        invariant
            i <= n == boids.len() == jitter.len(),
            boids@ == old(boids)@,
            next.len() == i,
            forall|k: int| 0 <= k < boids.len() ==> (#[trigger] boids[k]).config.valid(),
            forall|k: int| 0 <= k < jitter.len() ==> (#[trigger] jitter[k])@.within(ONE as int),
            forall|k: int|
                0 <= k < i ==> {
                    &&& (#[trigger] next[k])@ == next_velocity(boids@, k, *bounds, jitter[k]@)
                    &&& next[k]@.norm_sq() <= boids[k].config.max_speed * boids[k].config.max_speed
                },
        decreases n - i,
    {
        assert(boids[i as int].config.valid());
        assert(jitter[i as int]@.within(ONE as int));
        let vel: Vec2 = steer(i, boids, bounds, &jitter[i]);
        next.push(vel);
        i += 1;
    }
    let mut i: usize = 0;
    while i < n
        invariant
            i <= n == boids.len() == next.len() == old(boids).len(),
            forall|k: int|
                0 <= k < i ==> {
                    &&& (#[trigger] boids[k]).pos == old(boids)[k].pos
                    &&& boids[k].config == old(boids)[k].config
                    &&& boids[k].vel == next[k]
                },
            forall|k: int| i <= k < n ==> (#[trigger] boids[k]) == old(boids)[k],
        decreases n - i,
    {
        let before: Boid = boids[i];
        boids.set(i, Boid { pos: before.pos, vel: next[i], config: before.config });
        i += 1;
    }
}

/// Draws one random vector for each of `n` agents, each coordinate between
/// -1 and 1.
pub fn random_jitter(n: usize) -> (jitter: Vec<Vec2>)
    ensures
        jitter.len() == n,
        forall|i: int| 0 <= i < n ==> (#[trigger] jitter[i])@.within(ONE as int),
{
    let mut jitter: Vec<Vec2> = Vec::new();
    let mut i: usize = 0;
    while i < n
        invariant
            i <= n,
            jitter.len() == i,
            forall|k: int| 0 <= k < i ==> (#[trigger] jitter[k])@.within(ONE as int),
        decreases n - i,
    {
        let x: i32 = gen_range(-1000, 1000);
        let y: i32 = gen_range(-1000, 1000);
        jitter.push(Vec2 { x, y });
        i += 1;
    }
    jitter
}

/// Advances every agent by one step: [`boids_step`] with freshly drawn
/// random vectors. Whatever is drawn, no agent ends faster than its greatest
/// speed, and each velocity is what [`next_velocity`] makes of the agents as
/// they were before the step and of some random vector between -1 and 1.
pub fn boids_system(boids: &mut Vec<Boid>, bounds: &Rect)
    requires
        flock_valid(old(boids)@),
    ensures
        final(boids).len() == old(boids).len(),
        forall|i: int|
            0 <= i < old(boids).len() ==> {
                &&& (#[trigger] final(boids)[i]).pos == old(boids)[i].pos
                &&& final(boids)[i].config == old(boids)[i].config
                &&& final(boids)[i].vel@.norm_sq() <= old(boids)[i].config.max_speed
                    * old(boids)[i].config.max_speed
                &&& exists|jitter: Vector|
                    jitter.within(ONE as int) && final(boids)[i].vel@ == #[trigger] next_velocity(
                        old(boids)@,
                        i,
                        *bounds,
                        jitter,
                    )
            },
{
    let jitter: Vec<Vec2> = random_jitter(boids.len());
    boids_step(boids, bounds, &jitter);
    proof {
        assert forall|i: int| 0 <= i < old(boids).len() implies (exists|j: Vector|
            j.within(ONE as int) && (#[trigger] boids[i]).vel@ == #[trigger] next_velocity(
                old(boids)@,
                i,
                *bounds,
                j,
            )) by {
            assert(jitter[i]@.within(ONE as int));
            assert(boids[i].vel@ == next_velocity(old(boids)@, i, *bounds, jitter[i]@));
        }
    }
}

} // verus!
