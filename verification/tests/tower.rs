use tower_defense::{nearest_target, tower_shooting, Shot, Tower};

const MILLI: u64 = 1_000_000;

#[test]
fn nearest_target_of_an_empty_row_is_none() {
    assert_eq!(nearest_target(&Vec::new()), None);
}

#[test]
fn nearest_target_has_the_smallest_key() {
    assert_eq!(nearest_target(&vec![30, 10, 20]), Some(1));
    assert_eq!(nearest_target(&vec![10, 20, 30]), Some(0));
    assert_eq!(nearest_target(&vec![30, 20, 10]), Some(2));
    assert_eq!(nearest_target(&vec![7]), Some(0));
}

#[test]
fn nearest_target_among_equals_is_the_first() {
    assert_eq!(nearest_target(&vec![5, 3, 9, 3, 3]), Some(1));
    assert_eq!(nearest_target(&vec![4, 4]), Some(0));
    assert_eq!(nearest_target(&vec![u32::MAX, u32::MAX, u32::MAX]), Some(0));
}

#[test]
fn nearest_target_by_measured_distances() {
    let distances: [f32; 4] = [2.5, 1.7, 0.4, 3.0];
    let keys: Vec<u32> = distances.iter().map(|d| d.to_bits()).collect();
    assert_eq!(nearest_target(&keys), Some(2));
}

#[test]
fn new_tower_has_no_time_accumulated() {
    let tower = Tower::new(500 * MILLI);
    assert_eq!(tower, Tower { fire_interval: 500 * MILLI, fire_timer: 0 });
}

#[test]
fn tick_below_the_interval_accumulates_without_firing() {
    let mut tower = Tower::new(500 * MILLI);
    assert!(!tower.tick(200 * MILLI));
    assert_eq!(tower.fire_timer, 200 * MILLI);
    assert!(!tower.tick(299 * MILLI));
    assert_eq!(tower.fire_timer, 499 * MILLI);
    assert_eq!(tower.fire_interval, 500 * MILLI);
}

#[test]
fn tower_fires_on_the_tick_that_reaches_the_interval() {
    let mut tower = Tower::new(500 * MILLI);
    assert!(!tower.tick(499 * MILLI));
    assert!(tower.tick(MILLI));
    assert_eq!(tower.fire_timer, 0);
}

#[test]
fn tower_starts_over_from_zero_after_firing() {
    let mut tower = Tower::new(10);
    assert!(!tower.tick(7));
    assert!(tower.tick(7));
    assert_eq!(tower.fire_timer, 0);
    assert!(!tower.tick(9));
    assert!(tower.tick(1));
    assert_eq!(tower.fire_timer, 0);
}

#[test]
fn tower_fires_once_per_tick_however_long_the_tick() {
    let mut tower = Tower::new(10);
    assert!(tower.tick(35));
    assert_eq!(tower.fire_timer, 0);
    assert!(!tower.tick(9));
}

#[test]
fn tower_fires_every_fifth_tick_of_a_fifth_of_its_interval() {
    let mut tower = Tower::new(500 * MILLI);
    let mut fired_on = Vec::new();
    for tick in 1..=20 {
        if tower.tick(100 * MILLI) {
            fired_on.push(tick);
        }
    }
    assert_eq!(fired_on, vec![5, 10, 15, 20]);
}

#[test]
fn tower_with_no_interval_never_fires() {
    let mut tower = Tower::new(0);
    assert!(!tower.tick(0));
    assert!(!tower.tick(1_000));
    assert_eq!(tower, Tower::new(0));
    assert_eq!(tower.shoot(&vec![1, 2], 1_000), None);
}

#[test]
fn tick_of_length_zero_changes_nothing() {
    let mut tower = Tower::new(10);
    tower.tick(4);
    let before = tower;
    assert!(!tower.tick(0));
    assert_eq!(tower, before);
}

#[test]
fn longest_tick_does_not_overflow() {
    let mut tower = Tower::new(u64::MAX);
    assert!(!tower.tick(u64::MAX - 1));
    assert_eq!(tower.fire_timer, u64::MAX - 1);
    assert!(tower.tick(u64::MAX));
    assert_eq!(tower.fire_timer, 0);
    let mut other = Tower::new(5);
    other.tick(4);
    assert!(other.tick(u64::MAX));
    assert_eq!(other.fire_timer, 0);
}

#[test]
fn tower_that_is_not_loading_is_left_alone() {
    let mut tower = Tower { fire_interval: 10, fire_timer: 25 };
    assert!(!tower.tick(3));
    assert_eq!(tower, Tower { fire_interval: 10, fire_timer: 25 });
    assert_eq!(tower.shoot(&vec![1], 3), None);
}

#[test]
fn tower_shoots_on_no_tick_before_the_interval_is_reached() {
    let mut tower = Tower::new(500 * MILLI);
    let keys = vec![12, 11];
    for _ in 0..4 {
        assert_eq!(tower.shoot(&keys, 100 * MILLI), None);
    }
    assert_eq!(tower.fire_timer, 400 * MILLI);
    assert_eq!(tower.shoot(&keys, 99 * MILLI), None);
}

#[test]
fn tower_shoots_once_on_the_tick_that_reaches_the_interval() {
    let mut tower = Tower::new(500 * MILLI);
    let keys = vec![12, 11];
    let mut shots = Vec::new();
    for tick in 1..=12 {
        if let Some(target) = tower.shoot(&keys, 100 * MILLI) {
            shots.push((tick, target));
        }
    }
    assert_eq!(shots, vec![(5, 1), (10, 1)]);
}

#[test]
fn tower_shoots_at_the_target_at_the_smallest_distance() {
    let mut tower = Tower::new(10);
    let distances: [f32; 3] = [1.9, 0.7, 1.2];
    let keys: Vec<u32> = distances.iter().map(|d| d.to_bits()).collect();
    assert_eq!(tower.shoot(&keys, 10), Some(1));
}

#[test]
fn tower_without_targets_never_shoots() {
    let mut tower = Tower::new(500 * MILLI);
    let nothing = Vec::new();
    for _ in 0..50 {
        assert_eq!(tower.shoot(&nothing, 100 * MILLI), None);
    }
}

#[test]
fn tower_without_targets_still_advances_its_timer() {
    let mut tower = Tower::new(500 * MILLI);
    let nothing = Vec::new();
    for _ in 0..4 {
        tower.shoot(&nothing, 100 * MILLI);
    }
    assert_eq!(tower.fire_timer, 400 * MILLI);
    assert_eq!(tower.shoot(&nothing, 100 * MILLI), None);
    assert_eq!(tower.fire_timer, 0);
    assert_eq!(tower.shoot(&vec![8], 100 * MILLI), None);
}

#[test]
fn tower_shooting_asks_for_one_shot_per_firing_tower() {
    let mut towers = vec![Tower::new(300), Tower::new(100), Tower::new(100), Tower::new(50)];
    let sightings = vec![vec![1, 2], vec![9, 4, 6], vec![], vec![5, 5]];
    let shots = tower_shooting(&mut towers, &sightings, 100);
    assert_eq!(shots, vec![Shot { tower: 1, target: 1 }, Shot { tower: 3, target: 0 }]);
    assert_eq!(towers[0].fire_timer, 100);
    assert_eq!(towers[1].fire_timer, 0);
    assert_eq!(towers[2].fire_timer, 0);
    assert_eq!(towers[3].fire_timer, 0);
}

#[test]
fn tower_shooting_without_targets_asks_for_nothing() {
    let mut towers = vec![Tower::new(100), Tower::new(200)];
    let sightings = vec![Vec::new(), Vec::new()];
    for _ in 0..30 {
        assert_eq!(tower_shooting(&mut towers, &sightings, 50), Vec::new());
    }
}

#[test]
fn tower_without_a_row_sees_no_target() {
    let mut towers = vec![Tower::new(100), Tower::new(100)];
    let sightings = vec![vec![3]];
    let shots = tower_shooting(&mut towers, &sightings, 100);
    assert_eq!(shots, vec![Shot { tower: 0, target: 0 }]);
    assert_eq!(towers[1].fire_timer, 0);
}

#[test]
fn tower_shooting_over_no_towers_asks_for_nothing() {
    let mut towers = Vec::new();
    let shots = tower_shooting(&mut towers, &vec![vec![1, 2, 3]], 100);
    assert_eq!(shots, Vec::new());
}
