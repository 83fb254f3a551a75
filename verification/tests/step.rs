use boids::boid::{
    boids_step, boids_system, flockmates, is_flock_valid, random_jitter, steer, threats, Boid,
    Config,
};
use boids::vector::{Rect, Vec2};
use std::collections::HashSet;

fn defaults() -> Config {
    Config {
        bounds_margin: 40_000,
        neighbor_distance: 100_000,
        separation_distance: 20_000,
        avoidance_distance: 100_000,
        separation_rule_weight: 300,
        cohesion_rule_weight: 10,
        alignment_rule_weight: 40,
        bounds_rule_weight: 20,
        exploration_rule_weight: 50,
        avoidance_rule_weight: 60,
        field_of_view: -900,
        max_speed: 80_000,
        flock_id: 1,
        flock_to_avoid: HashSet::new(),
    }
}

fn silent() -> Config {
    Config {
        separation_rule_weight: 0,
        cohesion_rule_weight: 0,
        alignment_rule_weight: 0,
        bounds_rule_weight: 0,
        exploration_rule_weight: 0,
        avoidance_rule_weight: 0,
        ..defaults()
    }
}

fn world() -> Rect {
    Rect::new(0, 0, 1_024_000, 768_000)
}

fn boid<'a>(config: &'a Config, pos: (i32, i32), vel: (i32, i32)) -> Boid<'a> {
    Boid { pos: Vec2::new(pos.0, pos.1), vel: Vec2::new(vel.0, vel.1), config }
}

fn still(n: usize) -> Vec<Vec2> {
    vec![Vec2::new(0, 0); n]
}

#[test]
fn config_validity_is_the_speed_fitting_a_coordinate() {
    assert!(defaults().is_valid());
    assert!(Config { max_speed: i32::MAX as u32, ..defaults() }.is_valid());
    assert!(!Config { max_speed: i32::MAX as u32 + 1, ..defaults() }.is_valid());
    assert!(Config { max_speed: 0, ..defaults() }.is_valid());
}

#[test]
fn a_flock_is_valid_when_all_its_agents_are() {
    let good = defaults();
    let bad = Config { max_speed: u32::MAX, ..defaults() };
    assert!(is_flock_valid(&vec![boid(&good, (0, 0), (0, 0)), boid(&good, (1, 1), (0, 0))]));
    assert!(!is_flock_valid(&vec![boid(&good, (0, 0), (0, 0)), boid(&bad, (1, 1), (0, 0))]));
    assert!(is_flock_valid(&Vec::new()));
}

#[test]
fn a_cloned_config_avoids_the_same_flocks() {
    let mut config = defaults();
    config.flock_to_avoid.insert(10);
    config.flock_to_avoid.insert(12);
    let copy = config.clone();
    assert_eq!(copy.flock_to_avoid, config.flock_to_avoid);
    assert!(copy.flock_to_avoid.contains(&10));
    assert!(!copy.flock_to_avoid.contains(&11));
    assert_eq!(copy.max_speed, 80_000);
    assert_eq!(copy.field_of_view, -900);
    assert_eq!(copy.flock_id, 1);
    assert_eq!(copy.separation_rule_weight, 300);
}

#[test]
fn neighbors_are_split_by_flock() {
    let mut mine = defaults();
    mine.flock_to_avoid.insert(10);
    mine.flock_to_avoid.insert(11);
    let other = Config { flock_id: 2, ..defaults() };
    let shark = Config { flock_id: 10, ..defaults() };
    let cur = boid(&mine, (0, 0), (0, 0));
    let a = boid(&mine, (1, 0), (0, 0));
    let b = boid(&other, (2, 0), (0, 0));
    let c = boid(&shark, (3, 0), (0, 0));
    let d = boid(&mine, (4, 0), (0, 0));
    let neighbors = vec![&a, &b, &c, &d];
    let mates: Vec<i32> = flockmates(&cur, &neighbors).iter().map(|b| b.pos.x).collect();
    assert_eq!(mates, vec![1, 4]);
    let feared: Vec<i32> = threats(&cur, &neighbors).iter().map(|b| b.pos.x).collect();
    assert_eq!(feared, vec![3]);
    // fear is one-sided
    let none: Vec<i32> = threats(&c, &neighbors).iter().map(|b| b.pos.x).collect();
    assert_eq!(none, Vec::<i32>::new());
}

#[test]
fn close_flockmates_repel_each_other() {
    let config = defaults();
    // 10 units apart, heading at each other
    let mut boids = vec![
        boid(&config, (100_000, 100_000), (10_000, 0)),
        boid(&config, (110_000, 100_000), (-10_000, 0)),
    ];
    boids_step(&mut boids, &world(), &still(2));
    // separation -3_000, alignment with the other's -10_000 gives -400
    assert_eq!(boids[0].vel, Vec2::new(6_600, 0));
    // the second agent sees the first as it was before the step
    assert_eq!(boids[1].vel, Vec2::new(-6_600, 0));
    assert_eq!(boids[0].pos, Vec2::new(100_000, 100_000));
    assert_eq!(boids[1].pos, Vec2::new(110_000, 100_000));
}

#[test]
fn a_step_does_not_depend_on_the_order_of_the_agents() {
    let config = defaults();
    let a = boid(&config, (100_000, 100_000), (10_000, 3_000));
    let b = boid(&config, (110_000, 100_000), (-10_000, 0));
    let c = boid(&config, (150_000, 130_000), (0, -20_000));
    let mut forward = vec![a, b, c];
    let mut backward = vec![c, b, a];
    boids_step(&mut forward, &world(), &still(3));
    boids_step(&mut backward, &world(), &still(3));
    assert_eq!(forward[0].vel, backward[2].vel);
    assert_eq!(forward[1].vel, backward[1].vel);
    assert_eq!(forward[2].vel, backward[0].vel);
    assert_ne!(forward[0].vel, a.vel);
}

#[test]
fn prey_flees_a_predator() {
    let mut prey_config = silent();
    prey_config.avoidance_rule_weight = 60;
    prey_config.flock_to_avoid.insert(10);
    let predator_config = Config { flock_id: 10, ..silent() };
    let mut boids = vec![
        boid(&prey_config, (500_000, 400_000), (0, 0)),
        boid(&predator_config, (503_000, 404_000), (1_000, 0)),
    ];
    boids_step(&mut boids, &world(), &still(2));
    assert_eq!(boids[0].vel, Vec2::new(-36, -48));
    assert_eq!(boids[1].vel, Vec2::new(1_000, 0));
}

#[test]
fn prey_flees_whatever_the_other_weights() {
    let mut prey_config = defaults();
    prey_config.flock_to_avoid.insert(10);
    let predator_config = Config { flock_id: 10, ..silent() };
    let prey = boid(&prey_config, (500_000, 400_000), (0, 0));
    let predator = boid(&predator_config, (520_000, 400_000), (0, 0));
    let with = steer(0, &vec![prey, predator], &world(), &Vec2::new(0, 0));
    let calm = Config { flock_to_avoid: HashSet::new(), ..defaults() };
    let without = steer(
        0,
        &vec![boid(&calm, (500_000, 400_000), (0, 0)), predator],
        &world(),
        &Vec2::new(0, 0),
    );
    // separation of the default weights: (-20_000, 0) * 0.3
    assert_eq!(without, Vec2::new(-6_000, 0));
    assert_eq!(with, Vec2::new(-6_060, 0));
}

#[test]
fn a_predator_out_of_reach_or_out_of_sight_is_not_fled() {
    let mut prey_config = silent();
    prey_config.avoidance_rule_weight = 60;
    prey_config.avoidance_distance = 10_000;
    prey_config.field_of_view = 0;
    prey_config.flock_to_avoid.insert(10);
    let predator_config = Config { flock_id: 10, ..silent() };
    let prey = boid(&prey_config, (500_000, 400_000), (1_000, 0));
    let far = boid(&predator_config, (510_001, 400_000), (0, 0));
    let near = boid(&predator_config, (510_000, 400_000), (0, 0));
    let behind = boid(&predator_config, (495_000, 400_000), (0, 0));
    let zero = Vec2::new(0, 0);
    assert_eq!(steer(0, &vec![prey, far], &world(), &zero), Vec2::new(1_000, 0));
    assert_eq!(steer(0, &vec![prey, near], &world(), &zero), Vec2::new(940, 0));
    assert_eq!(steer(0, &vec![prey, behind], &world(), &zero), Vec2::new(1_000, 0));
}

#[test]
fn an_isolated_agent_keeps_its_velocity() {
    let config = defaults();
    let mut boids = vec![
        boid(&config, (500_000, 400_000), (3_000, -4_000)),
        boid(&config, (500_000, 500_001), (70_000, 0)),
        boid(&config, (700_000, 100_000), (0, 0)),
    ];
    boids_step(&mut boids, &world(), &still(3));
    assert_eq!(boids[0].vel, Vec2::new(3_000, -4_000));
    assert_eq!(boids[1].vel, Vec2::new(70_000, 0));
    assert_eq!(boids[2].vel, Vec2::new(0, 0));
}

#[test]
fn an_isolated_agent_outside_the_margin_is_pushed_back_and_nothing_else() {
    let config = defaults();
    let mut boids = vec![
        boid(&config, (10_000, 400_000), (3_000, -4_000)),
        boid(&config, (500_000, 750_000), (0, 0)),
    ];
    boids_step(&mut boids, &world(), &still(2));
    assert_eq!(boids[0].vel, Vec2::new(4_600, -4_000));
    assert_eq!(boids[1].vel, Vec2::new(0, -1_600));
}

#[test]
fn an_isolated_agent_explores_along_its_heading() {
    let config = defaults();
    let mut boids = vec![boid(&config, (500_000, 400_000), (3_000, -4_000))];
    boids_step(&mut boids, &world(), &vec![Vec2::new(1_000, -1_000)]);
    assert_eq!(boids[0].vel, Vec2::new(7_000, -8_000));
    boids_step(&mut boids, &world(), &vec![Vec2::new(-1_000, 1_000)]);
    assert_eq!(boids[0].vel, Vec2::new(7_000, -8_000));
}

#[test]
fn no_agent_ends_a_step_faster_than_its_greatest_speed() {
    let slow = Config { max_speed: 5_000, ..defaults() };
    let fast = defaults();
    let mut boids = vec![
        boid(&fast, (100_000, 100_000), (1_000_000, 900_000)),
        boid(&slow, (105_000, 100_000), (-2_000_000_000, 2_000_000_000)),
        boid(&slow, (100_000, 105_000), (4_000, 3_000)),
        boid(&fast, (-500, 900_000), (0, -80_000)),
        boid(&slow, (103_000, 103_000), (0, 0)),
    ];
    for round in 0..20 {
        let jitter: Vec<Vec2> =
            (0..5).map(|i| Vec2::new(1_000 - 100 * round, -1_000 + 400 * i)).collect();
        boids_step(&mut boids, &world(), &jitter);
        for b in &boids {
            let n = (b.vel.x as i64) * (b.vel.x as i64) + (b.vel.y as i64) * (b.vel.y as i64);
            assert!(n <= (b.config.max_speed as i64) * (b.config.max_speed as i64));
        }
    }
    assert_eq!(boids[0].pos, Vec2::new(100_000, 100_000));
}

#[test]
fn a_velocity_over_the_limit_is_cut_along_its_direction() {
    let config = silent();
    let mut boids = vec![boid(&config, (500_000, 400_000), (300_000, -400_000))];
    boids_step(&mut boids, &world(), &still(1));
    assert_eq!(boids[0].vel, Vec2::new(48_000, -64_000));
}

#[test]
fn random_vectors_stay_between_minus_one_and_one() {
    let jitter = random_jitter(500);
    assert_eq!(jitter.len(), 500);
    assert!(jitter.iter().all(|v| -1_000 <= v.x && v.x <= 1_000 && -1_000 <= v.y && v.y <= 1_000));
    // draws differ from each other and from the ends of the span
    assert!(jitter.iter().any(|v| v.x != jitter[0].x));
    assert!(jitter.iter().any(|v| v.y != jitter[0].y));
    assert!(jitter.iter().any(|v| v.x != -1_000 && v.x != 1_000));
    assert!(jitter.iter().any(|v| v.x < 0) && jitter.iter().any(|v| v.x > 0));
    assert_eq!(random_jitter(0), Vec::<Vec2>::new());
}

#[test]
fn a_random_step_keeps_positions_and_the_speed_limit() {
    let config = defaults();
    let mut boids: Vec<Boid> = (0..30)
        .map(|i| boid(&config, (100_000 + 7_000 * i, 200_000 + 3_000 * (i % 5)), (9_000 * i, -70_000)))
        .collect();
    let before: Vec<Vec2> = boids.iter().map(|b| b.pos).collect();
    for _round in 0..10 {
        boids_system(&mut boids, &world());
        for (b, pos) in boids.iter().zip(&before) {
            assert_eq!(b.pos, *pos);
            let n = (b.vel.x as i64) * (b.vel.x as i64) + (b.vel.y as i64) * (b.vel.y as i64);
            assert!(n <= 80_000 * 80_000);
        }
    }
}

#[test]
fn a_random_step_without_exploration_is_the_step_without_jitter() {
    let config = Config { exploration_rule_weight: 0, ..defaults() };
    let make = || {
        vec![
            boid(&config, (100_000, 100_000), (10_000, 3_000)),
            boid(&config, (110_000, 100_000), (-10_000, 0)),
            boid(&config, (150_000, 130_000), (0, -20_000)),
        ]
    };
    let mut random = make();
    let mut fixed = make();
    boids_system(&mut random, &world());
    boids_step(&mut fixed, &world(), &still(3));
    for (r, f) in random.iter().zip(&fixed) {
        assert_eq!(r.vel, f.vel);
    }
}

#[test]
fn an_empty_flock_steps_to_itself() {
    let mut boids: Vec<Boid> = Vec::new();
    boids_step(&mut boids, &world(), &Vec::new());
    boids_system(&mut boids, &world());
    assert_eq!(boids.len(), 0);
}
