//! The simulated world: a list of entities, each with the components it has.
use crate::boid::{boids_step, next_velocity, random_jitter, Boid, Config};
use crate::fixed::ONE;
use crate::random::gen_range;
use crate::movement::{Movement, Transform2D};
use crate::render::{Animation, AnimationDefinition, RenderableTexture, TextureAtlas};
use crate::vector::{Rect, Vec2, Vector};
use std::collections::HashSet;
use std::rc::Rc;
use vstd::prelude::*;
use vstd::std_specs::convert::TryFromSpec;

verus! {

broadcast use vstd::std_specs::hash::group_hash_axioms;

/// One thing of the simulated world. What it takes part in follows from the
/// components it has.
#[derive(Clone, Debug)]
pub struct Entity {
    pub transform: Option<Transform2D>,
    pub movement: Option<Movement>,
    pub config: Option<Config>,
    pub animation: Option<Animation>,
    pub renderable_texture: Option<RenderableTexture>,
}

impl<'a> TryFrom<&'a Entity> for Boid<'a> {
    type Error = ();

    /// Sees an entity as an agent of a flock, where it has a position, a
    /// velocity and parameters.
    fn try_from(value: &'a Entity) -> (view: Result<Self, Self::Error>) {
        match (&value.transform, &value.movement, &value.config) {
            (Some(transform), Some(movement), Some(config)) => Ok(
                Boid { pos: transform.pos, vel: movement.vel, config },
            ),
            _ => Err(()),
        }
    }
}

impl<'a> vstd::std_specs::convert::TryFromSpecImpl<&'a Entity> for Boid<'a> {
    open spec fn obeys_try_from_spec() -> bool {
        true
    }

    open spec fn try_from_spec(value: &'a Entity) -> Result<Self, ()> {
        match (value.transform, value.movement, value.config) {
            (Some(transform), Some(movement), Some(config)) => Ok(
                Boid { pos: transform.pos, vel: movement.vel, config: &value.config->0 },
            ),
            _ => Err(()),
        }
    }
}

impl<'a> TryFrom<&'a Entity> for (Transform2D, RenderableTexture) {
    type Error = ();

    /// Sees an entity as something to draw, where it has a position and a
    /// texture.
    fn try_from(value: &'a Entity) -> (view: Result<Self, Self::Error>) {
        match (&value.transform, &value.renderable_texture) {
            (Some(transform), Some(renderable_texture)) => Ok((*transform, *renderable_texture)),
            _ => Err(()),
        }
    }
}

impl<'a> vstd::std_specs::convert::TryFromSpecImpl<&'a Entity> for (Transform2D, RenderableTexture) {
    open spec fn obeys_try_from_spec() -> bool {
        true
    }

    open spec fn try_from_spec(value: &'a Entity) -> Result<Self, ()> {
        match (value.transform, value.renderable_texture) {
            (Some(transform), Some(renderable_texture)) => Ok((transform, renderable_texture)),
            _ => Err(()),
        }
    }
}

/// The views of type `T` that the entities of a list give, in the order of
/// the list: an entity that lacks a component of the view gives none.
pub open spec fn views_of<'a, T: TryFrom<&'a Entity>>(entities: Seq<Entity>) -> Seq<T>
    decreases entities.len(),
{
    if entities.len() == 0 {
        Seq::empty()
    } else {
        let rest = views_of::<T>(entities.drop_last());
        match T::try_from_spec(&entities.last()) {
            Ok(view) => rest.push(view),
            Err(_) => rest,
        }
    }
}

/// Collects the views of type `T` of the entities that have one.
pub fn query<'a, T: TryFrom<&'a Entity>>(entities: &'a Vec<Entity>) -> (views: Vec<T>)
    ensures
        T::obeys_try_from_spec() ==> views@ == views_of::<T>(entities@),
{
    let mut views: Vec<T> = Vec::new();
    let mut i: usize = 0;
    while i < entities.len()
        invariant
            i <= entities.len(),
            T::obeys_try_from_spec() ==> views@ == views_of::<T>(entities@.take(i as int)),
        decreases entities.len() - i,
    {
        proof {
            assert(entities@.take(i + 1).drop_last() =~= entities@.take(i as int));
        }
        match T::try_from(&entities[i]) {
            Ok(view) => {
                views.push(view);
            },
            Err(_) => {},
        }
        i += 1;
    }
    proof {
        assert(entities@.take(i as int) =~= entities@);
    }
    views
}

/// Whether an entity is an agent of a flock.
pub open spec fn is_boid(entity: Entity) -> bool {
    entity.transform.is_some() && entity.movement.is_some() && entity.config.is_some()
}

/// How many of the first `i` entities are agents of a flock.
pub open spec fn boids_before(entities: Seq<Entity>, i: int) -> nat
    decreases i,
{
    if i <= 0 {
        0
    } else if is_boid(entities[i - 1]) {
        boids_before(entities, i - 1) + 1
    } else {
        boids_before(entities, i - 1)
    }
}

/// The entity with the velocity `vel`, where it has a velocity.
pub open spec fn with_velocity(entity: Entity, vel: Vec2) -> Entity {
    match entity.movement {
        Some(movement) => Entity { movement: Some(Movement { vel }), ..entity },
        None => entity,
    }
}

/// Hands the agents of the flocks their velocities, in the order in which
/// [`query`] finds them: the first velocity goes to the first entity that is
/// an agent, and so on. An agent for which no velocity is left keeps its own,
/// as do the entities that are no agents.
pub fn store_velocities(entities: &mut Vec<Entity>, velocities: &Vec<Vec2>)
    ensures
        final(entities).len() == old(entities).len(),
        forall|i: int|
            0 <= i < old(entities).len() ==> #[trigger] final(entities)[i] == if is_boid(
                old(entities)[i],
            ) && boids_before(old(entities)@, i) < velocities.len() {
                with_velocity(old(entities)[i], velocities[boids_before(old(entities)@, i) as int])
            } else {
                old(entities)[i]
            },
{
    let n: usize = entities.len();
    let mut i: usize = 0;
    let mut next: usize = 0;
    while i < n
        invariant
            i <= n == entities.len() == old(entities).len(),
            next <= i,
            next <= velocities.len(),
            next == boids_before(old(entities)@, i as int) || (next == velocities.len()
                && boids_before(old(entities)@, i as int) >= velocities.len()),
            forall|k: int|
                0 <= k < i ==> #[trigger] entities[k] == if is_boid(old(entities)[k])
                    && boids_before(old(entities)@, k) < velocities.len() {
                    with_velocity(
                        old(entities)[k],
                        velocities[boids_before(old(entities)@, k) as int],
                    )
                } else {
                    old(entities)[k]
                },
            forall|k: int| i <= k < n ==> #[trigger] entities[k] == old(entities)[k],
        decreases n - i,
    {
        let ghost before = entities@;
        let entity: &mut Entity = &mut entities[i];
        let agent: bool = entity.transform.is_some() && entity.config.is_some();
        match &mut entity.movement {
            Some(movement) => {
                if agent && next < velocities.len() {
                    movement.vel = velocities[next];
                    next += 1;
                }
            },
            None => {},
        }
        assert(forall|k: int| 0 <= k < n && k != i ==> entities[k] == before[k]);
        i += 1;
    }
}

/// The velocities of a flock, agent by agent.
pub fn velocities_of(boids: &Vec<Boid>) -> (velocities: Vec<Vec2>)
    ensures
        velocities.len() == boids.len(),
        forall|k: int| 0 <= k < boids.len() ==> #[trigger] velocities[k] == boids[k].vel,
{
    let mut velocities: Vec<Vec2> = Vec::new();
    let mut k: usize = 0;
    while k < boids.len()
        invariant
            k <= boids.len(),
            velocities.len() == k,
            forall|j: int| 0 <= j < k ==> #[trigger] velocities[j] == boids[j].vel,
        decreases boids.len() - k,
    {
        velocities.push(boids[k].vel);
        k += 1;
    }
    velocities
}

/// A list of entities gives as many views of agents as it has entities that
/// are agents.
pub proof fn lemma_count_of_boids(entities: Seq<Entity>)
    ensures
        views_of::<Boid>(entities).len() == boids_before(entities, entities.len() as int),
    decreases entities.len(),
{
    if entities.len() > 0 {
        let rest = entities.drop_last();
        lemma_count_of_boids(rest);
        lemma_boids_before_prefix(entities, rest, entities.len() - 1);
    }
}

/// An entity that is an agent gives a view, which stands in the list of
/// views after those of the agents before it.
pub proof fn lemma_views_of_boids(entities: Seq<Entity>, i: int)
    requires
        0 <= i < entities.len(),
        is_boid(entities[i]),
    ensures
        boids_before(entities, i) < views_of::<Boid>(entities).len(),
        Ok::<Boid, ()>(views_of::<Boid>(entities)[boids_before(entities, i) as int])
            == Boid::try_from_spec(&entities[i]),
    decreases entities.len(),
{
    let rest = entities.drop_last();
    let n = entities.len() as int;
    lemma_count_of_boids(rest);
    lemma_boids_before_prefix(entities, rest, n - 1);
    if i < n - 1 {
        lemma_views_of_boids(rest, i);
        lemma_boids_before_prefix(entities, rest, i);
    }
}

/// How many agents stand before an index depends on the entities before it
/// alone.
proof fn lemma_boids_before_prefix(entities: Seq<Entity>, prefix: Seq<Entity>, i: int)
    requires
        0 <= i <= prefix.len() <= entities.len(),
        forall|k: int| 0 <= k < prefix.len() ==> prefix[k] == entities[k],
    ensures
        boids_before(entities, i) == boids_before(prefix, i),
    decreases i,
{
    if i > 0 {
        lemma_boids_before_prefix(entities, prefix, i - 1);
    }
}

/// Every view of an agent comes from an entity that is one: the function
/// returns its index.
pub proof fn lemma_source_of_view(entities: Seq<Entity>, k: int) -> (i: int)
    requires
        0 <= k < views_of::<Boid>(entities).len(),
    ensures
        0 <= i < entities.len(),
        is_boid(entities[i]),
        boids_before(entities, i) == k,
    decreases entities.len(),
{
    let rest = entities.drop_last();
    let n = entities.len() as int;
    lemma_count_of_boids(rest);
    lemma_boids_before_prefix(entities, rest, n - 1);
    if k < views_of::<Boid>(rest).len() {
        let i = lemma_source_of_view(rest, k);
        lemma_boids_before_prefix(entities, rest, i);
        i
    } else {
        n - 1
    }
}

/// The agents among the entities all have valid parameters.
pub open spec fn agents_valid(entities: Seq<Entity>) -> bool {
    forall|i: int|
        0 <= i < entities.len() && is_boid(#[trigger] entities[i]) ==> entities[i].config->0.valid()
}

/// Whether the agents among the entities all have valid parameters.
pub fn are_agents_valid(entities: &Vec<Entity>) -> (b: bool)
    ensures
        b == agents_valid(entities@),
{
    let mut i: usize = 0;
    while i < entities.len()
        invariant
            i <= entities.len(),
            forall|k: int|
                0 <= k < i && is_boid(#[trigger] entities[k]) ==> entities[k].config->0.valid(),
        decreases entities.len() - i,
    {
        let entity: &Entity = &entities[i];
        match (&entity.transform, &entity.movement, &entity.config) {
            (Some(_), Some(_), Some(config)) => {
                if !config.is_valid() {
                    return false;
                }
            },
            _ => {},
        }
        i += 1;
    }
    true
}

/// Advances the agents among the entities by one step of the flock, with the
/// random vectors given, one for each agent: each agent's velocity becomes
/// what [`next_velocity`] makes of the flock as it was before the step. All
/// else stays as it is.
pub fn flock_step(entities: &mut Vec<Entity>, bounds: &Rect, jitter: &Vec<Vec2>)
    requires
        agents_valid(old(entities)@),
        jitter.len() == views_of::<Boid>(old(entities)@).len(),
        forall|k: int| 0 <= k < jitter.len() ==> (#[trigger] jitter[k])@.within(ONE as int),
    ensures
        final(entities).len() == old(entities).len(),
        forall|i: int|
            0 <= i < old(entities).len() && !is_boid(old(entities)[i]) ==> #[trigger] final(entities)[i] == old(entities)[i],
        forall|i: int|
            0 <= i < old(entities).len() && is_boid(old(entities)[i]) ==> {
                let k = boids_before(old(entities)@, i) as int;
                &&& #[trigger] final(entities)[i] == with_velocity(
                    old(entities)[i],
                    final(entities)[i].movement->0.vel,
                )
                &&& k < jitter.len()
                &&& final(entities)[i].movement->0.vel@ == next_velocity(
                    views_of::<Boid>(old(entities)@),
                    k,
                    *bounds,
                    jitter[k]@,
                )
            },
{
    let velocities: Vec<Vec2> = {
        let mut flock: Vec<Boid> = query(entities);
        proof {
            assert forall|k: int| 0 <= k < flock.len() implies (#[trigger] flock[k]).config.valid() by {
                let i = lemma_source_of_view(entities@, k);
                lemma_views_of_boids(entities@, i);
            }
        }
        boids_step(&mut flock, bounds, jitter);
        velocities_of(&flock)
    };
    proof {
        assert forall|i: int| 0 <= i < entities.len() && is_boid(entities[i]) implies boids_before(
            entities@,
            i,
        ) < velocities.len() by {
            lemma_views_of_boids(entities@, i);
        }
    }
    store_velocities(entities, &velocities);
}

/// Advances the agents among the entities by one step of the flock:
/// [`flock_step`] with freshly drawn random vectors. Whatever is drawn, each
/// agent's velocity is what [`next_velocity`] makes of the flock as it was
/// before the step and of some random vector between -1 and 1, and is no
/// faster than the agent's greatest speed. All else stays as it is.
pub fn flock_system(entities: &mut Vec<Entity>, bounds: &Rect)
    requires
        agents_valid(old(entities)@),
    ensures
        final(entities).len() == old(entities).len(),
        forall|i: int|
            0 <= i < old(entities).len() && !is_boid(old(entities)[i]) ==> #[trigger] final(entities)[i] == old(entities)[i],
        forall|i: int|
            0 <= i < old(entities).len() && is_boid(old(entities)[i]) ==> {
                &&& #[trigger] final(entities)[i] == with_velocity(
                    old(entities)[i],
                    final(entities)[i].movement->0.vel,
                )
                &&& final(entities)[i].movement->0.vel@.norm_sq() <= old(entities)[i].config->0.max_speed * old(entities)[i].config->0.max_speed
                &&& exists|jitter: Vector|
                    jitter.within(ONE as int) && final(entities)[i].movement->0.vel@
                        == #[trigger] next_velocity(
                        views_of::<Boid>(old(entities)@),
                        boids_before(old(entities)@, i) as int,
                        *bounds,
                        jitter,
                    )
            },
{
    let count: usize = count_boids(entities);
    let jitter: Vec<Vec2> = random_jitter(count);
    flock_step(entities, bounds, &jitter);
    proof {
        let flock = views_of::<Boid>(old(entities)@);
        assert forall|i: int| 0 <= i < old(entities).len() && is_boid(old(entities)[i]) implies ({
            &&& (#[trigger] entities[i]).movement->0.vel@.norm_sq() <= old(entities)[i].config->0.max_speed * old(entities)[i].config->0.max_speed
            &&& exists|j: Vector|
                j.within(ONE as int) && entities[i].movement->0.vel@ == #[trigger] next_velocity(
                    flock,
                    boids_before(old(entities)@, i) as int,
                    *bounds,
                    j,
                )
        }) by {
            let k = boids_before(old(entities)@, i) as int;
            lemma_views_of_boids(old(entities)@, i);
            assert(jitter[k]@.within(ONE as int));
            crate::laws::lemma_speed_clamp(flock, k, *bounds, jitter[k]@);
            assert(entities[i].movement->0.vel@ == next_velocity(flock, k, *bounds, jitter[k]@));
        }
    }
}

/// Counts the agents among the entities.
pub fn count_boids(entities: &Vec<Entity>) -> (count: usize)
    ensures
        count == views_of::<Boid>(entities@).len(),
{
    let mut count: usize = 0;
    let mut i: usize = 0;
    while i < entities.len()
        invariant
            i <= entities.len(),
            count == boids_before(entities@, i as int),
            count <= i,
        decreases entities.len() - i,
    {
        let entity: &Entity = &entities[i];
        if entity.transform.is_some() && entity.movement.is_some() && entity.config.is_some() {
            count += 1;
        }
        i += 1;
    }
    proof {
        lemma_count_of_boids(entities@);
    }
    count
}

/// The flock of the sharks, which every fish avoids.
pub const SHARK_FLOCK: u8 = 10;

/// The texture of the fish among the loaded textures.
pub const FISH_TEXTURE: usize = 0;

/// The texture of the sharks among the loaded textures.
pub const SHARK_TEXTURE: usize = 1;

/// How many fish of each of the four varieties the world starts with.
pub const FISH_PER_VARIETY: usize = 30;

/// How many sharks the world starts with.
pub const SHARKS: usize = 3;

/// The flock of a fish of the given variety: the first two varieties swim together.
pub open spec fn fish_flock(variety: int) -> u8 {
    if variety == 0 || variety == 1 {
        1
    } else if variety == 2 {
        2
    } else {
        3
    }
}

/// The row and the first column of the frames of a fish of the given variety on
/// the sheet of the fish.
pub open spec fn fish_frames(variety: int) -> Vec2 {
    if variety == 0 {
        Vec2 { x: 0, y: 0 }
    } else if variety == 1 {
        Vec2 { x: 6, y: 4 }
    } else if variety == 2 {
        Vec2 { x: 6, y: 0 }
    } else {
        Vec2 { x: 9, y: 0 }
    }
}

/// The parameters of a fish of the flock `flock_id`.
pub open spec fn is_fish_config(config: Config, flock_id: u8) -> bool {
    &&& config.bounds_margin == 40_000
    &&& config.neighbor_distance == 100_000
    &&& config.separation_distance == 20_000
    &&& config.avoidance_distance == 100_000
    &&& config.separation_rule_weight == 300
    &&& config.cohesion_rule_weight == 10
    &&& config.alignment_rule_weight == 40
    &&& config.bounds_rule_weight == 20
    &&& config.exploration_rule_weight == 50
    &&& config.avoidance_rule_weight == 60
    &&& config.field_of_view == -900
    &&& config.max_speed == 80_000
    &&& config.flock_id == flock_id
    &&& config.flock_to_avoid@ == set![SHARK_FLOCK]
}

/// The parameters of a shark: it heeds the edge of the world and nothing else.
pub open spec fn is_shark_config(config: Config) -> bool {
    &&& config.bounds_margin == 40_000
    &&& config.neighbor_distance == 200_000
    &&& config.separation_distance == 100_000
    &&& config.avoidance_distance == 200_000
    &&& config.separation_rule_weight == 0
    &&& config.cohesion_rule_weight == 0
    &&& config.alignment_rule_weight == 0
    &&& config.bounds_rule_weight == 2
    &&& config.exploration_rule_weight == 0
    &&& config.avoidance_rule_weight == 0
    &&& config.field_of_view == -900
    &&& config.max_speed == 40_000
    &&& config.flock_id == SHARK_FLOCK
    &&& config.flock_to_avoid@ == Set::<u8>::empty()
}

/// An animation at its start, of three frames side by side from `first` on
/// a sheet of the given size and tiling, each shown for a fifth of a second.
pub open spec fn is_fresh_animation(
    animation: Animation,
    size: Vec2,
    num_tiles: Vec2,
    first: Vec2,
) -> bool {
    &&& animation.tick == 0
    &&& animation.frame_number == 0
    &&& animation.speed == ONE
    &&& animation.definition.duration_per_frame == 200
    &&& animation.definition.atlas == (TextureAtlas { width: size.x, height: size.y, num_tiles })
    &&& animation.definition.frame_coords@ == seq![
        first,
        Vec2 { x: (first.x + 1) as i32, y: first.y },
        Vec2 { x: (first.x + 2) as i32, y: first.y },
    ]
}

/// `v` lies between `a` and `b`, whichever of the two is the greater.
pub open spec fn between(a: int, v: int, b: int) -> bool {
    a <= v <= b || b <= v <= a
}

/// An entity as the world starts with it: somewhere in the window, facing
/// right, with a velocity that crosses the window in a second at most.
pub open spec fn is_placed(entity: Entity, window_width: i32, window_height: i32) -> bool {
    &&& entity.transform matches Some(transform) && between(
        0,
        transform.pos.x as int,
        window_width as int,
    ) && between(0, transform.pos.y as int, window_height as int) && transform.facing == (Vec2 {
        x: ONE,
        y: 0,
    })
    &&& entity.movement matches Some(movement) && between(
        -window_width,
        movement.vel.x as int,
        window_width as int,
    ) && between(-window_height, movement.vel.y as int, window_height as int)
}

/// The texture `texture`, drawn whole in a square of the given size whose
/// corner lies `offset` from the entity, a quarter turn back from the way the
/// entity faces.
pub open spec fn is_look(look: RenderableTexture, texture: usize, offset: Vector, size: int) -> bool {
    &&& look.texture == texture
    &&& look.pos_offset@ == offset
    &&& look.rot_offset_radians == -1571
    &&& look.dest_size matches Some(dest_size) && dest_size.x == size && dest_size.y == size
    &&& look.source.is_none()
}

/// A fish of the given variety as the world starts with it.
pub open spec fn is_fish(entity: Entity, variety: int, sheet: Vec2) -> bool {
    &&& entity.config matches Some(config) && is_fish_config(config, fish_flock(variety))
    &&& entity.animation matches Some(animation) && is_fresh_animation(
        animation,
        sheet,
        Vec2 { x: 12, y: 8 },
        fish_frames(variety),
    )
    &&& entity.renderable_texture matches Some(look) && is_look(
        look,
        FISH_TEXTURE,
        Vector { x: -20_000, y: -28_000 },
        40_000,
    )
}

/// A shark as the world starts with it.
pub open spec fn is_shark(entity: Entity, sheet: Vec2) -> bool {
    &&& entity.config matches Some(config) && is_shark_config(config)
    &&& entity.animation matches Some(animation) && is_fresh_animation(
        animation,
        sheet,
        Vec2 { x: 3, y: 4 },
        Vec2 { x: 0, y: 0 },
    )
    &&& entity.renderable_texture matches Some(look) && is_look(
        look,
        SHARK_TEXTURE,
        Vector { x: -40_000, y: -50_000 },
        80_000,
    )
}

/// Makes the parameters of a fish.
pub fn fish_config(flock_id: u8) -> (config: Config)
    ensures
        is_fish_config(config, flock_id),
        config.valid(),
{
    let mut flock_to_avoid: HashSet<u8> = HashSet::new();
    flock_to_avoid.insert(SHARK_FLOCK);
    assert(flock_to_avoid@ =~= set![SHARK_FLOCK]);
    Config {
        bounds_margin: 40_000,
        neighbor_distance: 100_000,
        separation_distance: 20_000,
        avoidance_distance: 100_000,
        separation_rule_weight: 300,
        cohesion_rule_weight: 10,
        alignment_rule_weight: 40,
        bounds_rule_weight: 20,
        exploration_rule_weight: 50,
        avoidance_rule_weight: 60,
        field_of_view: -900,
        max_speed: 80_000,
        flock_id,
        flock_to_avoid,
    }
}

/// Makes the parameters of a shark.
pub fn shark_config() -> (config: Config)
    ensures
        is_shark_config(config),
        config.valid(),
{
    Config {
        bounds_margin: 40_000,
        neighbor_distance: 200_000,
        separation_distance: 100_000,
        avoidance_distance: 200_000,
        separation_rule_weight: 0,
        cohesion_rule_weight: 0,
        alignment_rule_weight: 0,
        bounds_rule_weight: 2,
        exploration_rule_weight: 0,
        avoidance_rule_weight: 0,
        field_of_view: -900,
        max_speed: 40_000,
        flock_id: SHARK_FLOCK,
        flock_to_avoid: HashSet::new(),
    }
}

/// Makes an animation of three frames side by side, from `first` on.
fn three_frames(size: Vec2, num_tiles: Vec2, first: Vec2) -> (definition: Rc<AnimationDefinition>)
    requires
        first.x <= 100,
    ensures
        definition.duration_per_frame == 200,
        definition.atlas == (TextureAtlas { width: size.x, height: size.y, num_tiles }),
        definition.frame_coords@ == seq![
            first,
            Vec2 { x: (first.x + 1) as i32, y: first.y },
            Vec2 { x: (first.x + 2) as i32, y: first.y },
        ],
{
    let mut frame_coords: Vec<Vec2> = Vec::new();
    frame_coords.push(first);
    frame_coords.push(Vec2 { x: first.x + 1, y: first.y });
    frame_coords.push(Vec2 { x: first.x + 2, y: first.y });
    assert(frame_coords@ =~= seq![
        first,
        Vec2 { x: (first.x + 1) as i32, y: first.y },
        Vec2 { x: (first.x + 2) as i32, y: first.y },
    ]);
    Rc::new(
        AnimationDefinition {
            atlas: TextureAtlas { width: size.x, height: size.y, num_tiles },
            duration_per_frame: 200,
            frame_coords,
        },
    )
}

/// Places an entity at random in the window, with a random velocity.
fn place(
    window_width: i32,
    window_height: i32,
    config: Config,
    definition: &Rc<AnimationDefinition>,
    renderable_texture: RenderableTexture,
) -> (entity: Entity)
    requires
        i32::MIN < window_width,
        i32::MIN < window_height,
    ensures
        is_placed(entity, window_width, window_height),
        entity.config == Some(config),
        entity.renderable_texture == Some(renderable_texture),
        entity.animation == Some(
            Animation { definition: *definition, tick: 0, frame_number: 0, speed: ONE as u32 },
        ),
{
    let x: i32 = gen_range(0, window_width);
    let y: i32 = gen_range(0, window_height);
    let vx: i32 = gen_range(-window_width, window_width);
    let vy: i32 = gen_range(-window_height, window_height);
    Entity {
        transform: Some(Transform2D { pos: Vec2 { x, y }, facing: Vec2 { x: ONE, y: 0 } }),
        movement: Some(Movement { vel: Vec2 { x: vx, y: vy } }),
        config: Some(config),
        animation: Some(
            Animation { definition: definition.clone(), tick: 0, frame_number: 0, speed: 1000 },
        ),
        renderable_texture: Some(renderable_texture),
    }
}

/// Makes the world as it starts: thirty times a fish of each of the four
/// varieties in turn, then three sharks, each placed at random in a window of
/// the given size, with a velocity between the size and its negative, which
/// is why a size must have one. `fish_sheet` and `shark_sheet` are the sizes
/// in pixels of the two sprite sheets.
pub fn setup_entities(
    window_width: i32,
    window_height: i32,
    fish_sheet: Vec2,
    shark_sheet: Vec2,
) -> (entities: Vec<Entity>)
    requires
        i32::MIN < window_width,
        i32::MIN < window_height,
    ensures
        entities.len() == 4 * FISH_PER_VARIETY + SHARKS,
        forall|i: int|
            0 <= i < entities.len() ==> is_placed(#[trigger] entities[i], window_width, window_height),
        forall|i: int|
            0 <= i < 4 * FISH_PER_VARIETY ==> is_fish(#[trigger] entities[i], i % 4, fish_sheet),
        forall|i: int|
            4 * FISH_PER_VARIETY <= i < entities.len() ==> is_shark(#[trigger] entities[i], shark_sheet),
{
    let fish_tiles: Vec2 = Vec2 { x: 12, y: 8 };
    let fish_0: Rc<AnimationDefinition> = three_frames(fish_sheet, fish_tiles, Vec2 { x: 0, y: 0 });
    let fish_1: Rc<AnimationDefinition> = three_frames(fish_sheet, fish_tiles, Vec2 { x: 6, y: 4 });
    let fish_2: Rc<AnimationDefinition> = three_frames(fish_sheet, fish_tiles, Vec2 { x: 6, y: 0 });
    let fish_3: Rc<AnimationDefinition> = three_frames(fish_sheet, fish_tiles, Vec2 { x: 9, y: 0 });
    let shark_0: Rc<AnimationDefinition> = three_frames(
        shark_sheet,
        Vec2 { x: 3, y: 4 },
        Vec2 { x: 0, y: 0 },
    );
    let fish_texture: RenderableTexture = RenderableTexture {
        texture: FISH_TEXTURE,
        pos_offset: Vec2 { x: -20_000, y: -28_000 },
        rot_offset_radians: -1571,
        dest_size: Some(Vec2 { x: 40_000, y: 40_000 }),
        source: None,
    };
    let shark_texture: RenderableTexture = RenderableTexture {
        texture: SHARK_TEXTURE,
        pos_offset: Vec2 { x: -40_000, y: -50_000 },
        rot_offset_radians: -1571,
        dest_size: Some(Vec2 { x: 80_000, y: 80_000 }),
        source: None,
    };
    let mut entities: Vec<Entity> = Vec::new();
    let mut round: usize = 0;
    while round < FISH_PER_VARIETY
        invariant
            round <= FISH_PER_VARIETY,
            i32::MIN < window_width,
            i32::MIN < window_height,
            entities.len() == 4 * round,
            is_look(fish_texture, FISH_TEXTURE, Vector { x: -20_000, y: -28_000 }, 40_000),
            is_fresh_animation(
                Animation { definition: fish_0, tick: 0, frame_number: 0, speed: 1000 },
                fish_sheet,
                Vec2 { x: 12, y: 8 },
                fish_frames(0),
            ),
            is_fresh_animation(
                Animation { definition: fish_1, tick: 0, frame_number: 0, speed: 1000 },
                fish_sheet,
                Vec2 { x: 12, y: 8 },
                fish_frames(1),
            ),
            is_fresh_animation(
                Animation { definition: fish_2, tick: 0, frame_number: 0, speed: 1000 },
                fish_sheet,
                Vec2 { x: 12, y: 8 },
                fish_frames(2),
            ),
            is_fresh_animation(
                Animation { definition: fish_3, tick: 0, frame_number: 0, speed: 1000 },
                fish_sheet,
                Vec2 { x: 12, y: 8 },
                fish_frames(3),
            ),
            forall|i: int|
                0 <= i < entities.len() ==> is_placed(
                    #[trigger] entities[i],
                    window_width,
                    window_height,
                ),
            forall|i: int| 0 <= i < entities.len() ==> is_fish(#[trigger] entities[i], i % 4, fish_sheet),
        decreases FISH_PER_VARIETY - round,
    {
        entities.push(place(window_width, window_height, fish_config(1), &fish_0, fish_texture));
        entities.push(place(window_width, window_height, fish_config(1), &fish_1, fish_texture));
        entities.push(place(window_width, window_height, fish_config(2), &fish_2, fish_texture));
        entities.push(place(window_width, window_height, fish_config(3), &fish_3, fish_texture));
        round += 1;
    }
    let mut shark: usize = 0;
    while shark < SHARKS
        invariant
            shark <= SHARKS,
            i32::MIN < window_width,
            i32::MIN < window_height,
            entities.len() == 4 * FISH_PER_VARIETY + shark,
            is_look(shark_texture, SHARK_TEXTURE, Vector { x: -40_000, y: -50_000 }, 80_000),
            is_fresh_animation(
                Animation { definition: shark_0, tick: 0, frame_number: 0, speed: 1000 },
                shark_sheet,
                Vec2 { x: 3, y: 4 },
                Vec2 { x: 0, y: 0 },
            ),
            forall|i: int|
                0 <= i < entities.len() ==> is_placed(
                    #[trigger] entities[i],
                    window_width,
                    window_height,
                ),
            forall|i: int|
                0 <= i < 4 * FISH_PER_VARIETY ==> is_fish(#[trigger] entities[i], i % 4, fish_sheet),
            forall|i: int|
                4 * FISH_PER_VARIETY <= i < entities.len() ==> is_shark(
                    #[trigger] entities[i],
                    shark_sheet,
                ),
        decreases SHARKS - shark,
    {
        entities.push(place(window_width, window_height, shark_config(), &shark_0, shark_texture));
        shark += 1;
    }
    entities
}

} // verus!
