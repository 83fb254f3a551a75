use boids::boid::{is_neighbor, looks_toward, neighbor_indices, select, Boid, Config};
use boids::vector::{Delta, Vec2};
use std::collections::HashSet;

fn config_with(neighbor_distance: u32, field_of_view: i32) -> Config {
    Config {
        bounds_margin: 40_000,
        neighbor_distance,
        separation_distance: 20_000,
        avoidance_distance: 100_000,
        separation_rule_weight: 300,
        cohesion_rule_weight: 10,
        alignment_rule_weight: 40,
        bounds_rule_weight: 20,
        exploration_rule_weight: 50,
        avoidance_rule_weight: 60,
        field_of_view,
        max_speed: 80_000,
        flock_id: 1,
        flock_to_avoid: HashSet::new(),
    }
}

fn boid<'a>(config: &'a Config, pos: (i32, i32), vel: (i32, i32)) -> Boid<'a> {
    Boid { pos: Vec2::new(pos.0, pos.1), vel: Vec2::new(vel.0, vel.1), config }
}

#[test]
fn an_agent_is_never_its_own_neighbor() {
    let config = config_with(100_000, -900);
    let boids = vec![
        boid(&config, (0, 0), (1000, 0)),
        boid(&config, (5_000, 0), (1000, 0)),
        boid(&config, (0, 0), (1000, 0)),
        boid(&config, (0, 5_000), (0, 1000)),
    ];
    for cur in 0..boids.len() {
        let found = neighbor_indices(cur, &boids, 100_000, -900);
        assert!(!found.contains(&cur));
    }
    // an agent at the same place with the same velocity is another agent all the same
    assert_eq!(neighbor_indices(0, &boids, 100_000, -900), vec![1, 2, 3]);
    assert_eq!(neighbor_indices(2, &boids, 100_000, -900), vec![0, 1, 3]);
}

#[test]
fn neighbors_come_in_the_order_of_the_list() {
    let config = config_with(100_000, -900);
    let boids = vec![
        boid(&config, (90_000, 0), (1000, 0)),
        boid(&config, (200_000, 0), (1000, 0)),
        boid(&config, (0, 0), (1000, 0)),
        boid(&config, (10_000, 10_000), (1000, 0)),
        boid(&config, (50_000, -50_000), (1000, 0)),
    ];
    assert_eq!(neighbor_indices(2, &boids, 100_000, -900), vec![0, 3, 4]);
}

#[test]
fn the_distance_cutoff_is_inclusive() {
    let config = config_with(50_000, -900);
    let cur = boid(&config, (0, 0), (1000, 0));
    let reach: u64 = 50_000 * 50_000;
    assert!(is_neighbor(&cur, &boid(&config, (50_000, 0), (0, 0)), reach, -900));
    assert!(is_neighbor(&cur, &boid(&config, (49_999, 0), (0, 0)), reach, -900));
    assert!(!is_neighbor(&cur, &boid(&config, (50_001, 0), (0, 0)), reach, -900));
    assert!(is_neighbor(&cur, &boid(&config, (30_000, 40_000), (0, 0)), reach, -900));
    assert!(!is_neighbor(&cur, &boid(&config, (30_001, 40_000), (0, 0)), reach, -900));
    assert!(!is_neighbor(&cur, &boid(&config, (30_000, 40_001), (0, 0)), reach, -900));
}

#[test]
fn the_cutoff_holds_in_the_list_too() {
    let config = config_with(50_000, -900);
    let boids = vec![
        boid(&config, (0, 0), (1000, 0)),
        boid(&config, (50_000, 0), (0, 0)),
        boid(&config, (50_001, 0), (0, 0)),
        boid(&config, (0, 49_999), (0, 0)),
    ];
    assert_eq!(neighbor_indices(0, &boids, 50_000, -900), vec![1, 3]);
    assert_eq!(neighbor_indices(0, &boids, 50_001, -900), vec![1, 2, 3]);
    assert_eq!(neighbor_indices(0, &boids, 49_999, -900), vec![3]);
    assert_eq!(neighbor_indices(0, &boids, 0, -900), Vec::<usize>::new());
}

#[test]
fn visibility_is_not_symmetric() {
    let config = config_with(100_000, 500);
    // a heads away from b, b heads toward a
    let a = boid(&config, (0, 0), (-1000, 0));
    let b = boid(&config, (10_000, 0), (-1000, 0));
    let reach: u64 = 100_000 * 100_000;
    assert!(!is_neighbor(&a, &b, reach, 500));
    assert!(is_neighbor(&b, &a, reach, 500));
    let boids = vec![a, b];
    assert_eq!(neighbor_indices(0, &boids, 100_000, 500), Vec::<usize>::new());
    assert_eq!(neighbor_indices(1, &boids, 100_000, 500), vec![0]);
}

#[test]
fn agents_heading_away_from_each_other_see_nothing() {
    let config = config_with(100_000, 0);
    let a = boid(&config, (0, 0), (-1000, 0));
    let b = boid(&config, (10_000, 0), (1000, 0));
    let reach: u64 = 100_000 * 100_000;
    assert!(!is_neighbor(&a, &b, reach, 0));
    assert!(!is_neighbor(&b, &a, reach, 0));
}

#[test]
fn the_field_of_view_is_a_strict_cosine_threshold() {
    let heading = Vec2::new(1000, 0);
    // cosine exactly 0.6
    let ahead = Delta::new(3_000, 4_000);
    assert!(looks_toward(&heading, &ahead, 599));
    assert!(!looks_toward(&heading, &ahead, 600));
    assert!(!looks_toward(&heading, &ahead, 601));
    // cosine exactly -0.6
    let behind = Delta::new(-3_000, 4_000);
    assert!(looks_toward(&heading, &behind, -601));
    assert!(!looks_toward(&heading, &behind, -600));
    assert!(!looks_toward(&heading, &behind, -599));
    // cosine exactly 0
    let beside = Delta::new(0, -7);
    assert!(looks_toward(&heading, &beside, -1));
    assert!(!looks_toward(&heading, &beside, 0));
    // cosine exactly 1 and -1
    assert!(looks_toward(&heading, &Delta::new(5, 0), 999));
    assert!(!looks_toward(&heading, &Delta::new(5, 0), 1000));
    assert!(!looks_toward(&heading, &Delta::new(-5, 0), -1000));
    assert!(looks_toward(&heading, &Delta::new(-5, 0), -1001));
}

#[test]
fn the_field_of_view_does_not_depend_on_speed_or_distance() {
    for scale in [1, 7, 1000, 100_000] {
        let heading = Vec2::new(scale, 0);
        let ahead = Delta::new(3 * scale as i64, 4 * scale as i64);
        assert!(looks_toward(&heading, &ahead, 599));
        assert!(!looks_toward(&heading, &ahead, 600));
    }
}

#[test]
fn the_field_of_view_is_exact_at_the_largest_coordinates() {
    let heading = Vec2::new(i32::MIN, i32::MIN);
    let far = Delta::new(-0xFFFF_FFFF, -0xFFFF_FFFF);
    // cosine exactly 1
    assert!(looks_toward(&heading, &far, 999));
    assert!(!looks_toward(&heading, &far, 1000));
    assert!(looks_toward(&heading, &far, i32::MIN));
    assert!(!looks_toward(&heading, &far, i32::MAX));
    let back = Delta::new(0xFFFF_FFFF, 0xFFFF_FFFF);
    assert!(!looks_toward(&heading, &back, -1000));
    assert!(looks_toward(&heading, &back, -1001));
    // a hair off the axis: cosine just under 1
    let nearly = Delta::new(-0xFFFF_FFFF, -0xFFFF_FFFE);
    assert!(looks_toward(&heading, &nearly, 999));
    assert!(!looks_toward(&heading, &nearly, 1000));
}

#[test]
fn an_agent_at_rest_counts_every_direction_as_cosine_zero() {
    let rest = Vec2::new(0, 0);
    assert!(looks_toward(&rest, &Delta::new(10, 0), -900));
    assert!(looks_toward(&rest, &Delta::new(-10, 0), -1));
    assert!(!looks_toward(&rest, &Delta::new(10, 0), 0));
    assert!(!looks_toward(&rest, &Delta::new(10, 0), 500));
    // so does an agent looking at its own position
    let heading = Vec2::new(1000, 0);
    assert!(looks_toward(&heading, &Delta::new(0, 0), -1));
    assert!(!looks_toward(&heading, &Delta::new(0, 0), 0));
}

#[test]
fn select_picks_in_the_order_of_the_indices() {
    let list = vec![10, 20, 30];
    let indices = vec![2, 0, 5, 1, 2];
    assert_eq!(select(&list, &indices), vec![&30, &10, &20, &30]);
    assert_eq!(select(&list, &Vec::new()), Vec::<&i32>::new());
    assert_eq!(select(&Vec::<i32>::new(), &indices), Vec::<&i32>::new());
}
