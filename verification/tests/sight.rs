use tower_defense::{first_hit, nearest_target, HIT_RADIUS};

#[test]
fn keys_below_the_radius_are_the_distances_below_a_fifth() {
    let distances: [f32; 12] = [
        0.0,
        1.0e-45,
        f32::MIN_POSITIVE,
        0.1,
        0.15,
        0.19999999,
        0.2,
        0.20000002,
        0.25,
        1.0e30,
        f32::INFINITY,
        f32::NAN,
    ];
    for distance in distances {
        let within = first_hit(&vec![distance.to_bits()], HIT_RADIUS).is_some();
        assert_eq!(within, distance < 0.2, "at distance {}", distance);
    }
}

#[test]
fn order_of_the_keys_is_the_order_of_the_distances() {
    let distances: [f32; 9] =
        [0.0, 1.0e-45, f32::MIN_POSITIVE, 0.001, 0.2, 1.0, 1.0000001, 3.4e38, f32::INFINITY];
    for (i, a) in distances.iter().enumerate() {
        for (j, b) in distances.iter().enumerate() {
            assert_eq!(a.to_bits() < b.to_bits(), i < j);
            assert_eq!(a < b, i < j);
        }
    }
}

#[test]
fn nearest_target_of_distances_in_any_order() {
    let distances: [f32; 5] = [0.3, 1.5, 2.0, 4.25, 9.0];
    let orders: [[usize; 5]; 4] =
        [[0, 1, 2, 3, 4], [4, 3, 2, 1, 0], [2, 4, 0, 3, 1], [1, 2, 3, 4, 0]];
    for order in orders {
        let keys: Vec<u32> = order.iter().map(|i| distances[*i].to_bits()).collect();
        let nearest = nearest_target(&keys).map(|target| order[target]);
        assert_eq!(nearest, Some(0));
    }
}

#[test]
fn first_hit_with_the_largest_radius_skips_only_the_largest_key() {
    assert_eq!(first_hit(&vec![u32::MAX, u32::MAX - 1], u32::MAX), Some(1));
    assert_eq!(first_hit(&vec![u32::MAX], u32::MAX), None);
}
