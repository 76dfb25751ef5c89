use my_mod::geometry::{bounded_force_move_speed, chance_percent, checked_distance_to_segment_sq, distance_sq, distance_to_segment_sq, integer_sqrt, seeded_index, splitmix64, squared_len_i128};

#[test]
fn integer_square_roots() {
    assert_eq!(integer_sqrt(0), 0);
    assert_eq!(integer_sqrt(1), 1);
    assert_eq!(integer_sqrt(15), 3);
    assert_eq!(integer_sqrt(16), 4);
    assert_eq!(integer_sqrt(17), 4);
    assert_eq!(integer_sqrt(u64::MAX), 4_294_967_295);
}

#[test]
fn force_move_speed_is_bounded_by_distance() {
    assert_eq!(bounded_force_move_speed(100, 10, 55), 6);
    assert_eq!(bounded_force_move_speed(3, 10, 55), 3);
    assert_eq!(bounded_force_move_speed(100, 10, 1), 1);
    assert_eq!(bounded_force_move_speed(0, 10, 55), 0);
    assert_eq!(bounded_force_move_speed(100, 0, 55), 0);
    assert_eq!(bounded_force_move_speed(100, 10, 0), 0);
}

#[test]
fn squared_lengths_saturate() {
    assert_eq!(squared_len_i128(3, 4), 25);
    assert_eq!(squared_len_i128(-3, 4), 25);
    assert_eq!(squared_len_i128(i128::MAX, 1), i128::MAX);
    assert_eq!(distance_sq((0, 0), (3, 4)), 25);
    assert_eq!(distance_sq((10, 10), (7, 6)), 25);
    assert_eq!(distance_sq((0, 0), (u64::MAX, u64::MAX)), u64::MAX);
}

#[test]
fn distance_to_segments() {
    assert_eq!(distance_to_segment_sq((5, 5), (0, 0), (10, 0)), 25);
    assert_eq!(distance_to_segment_sq((13, 4), (0, 0), (10, 0)), 25);
    assert_eq!(distance_to_segment_sq((3, 4), (0, 0), (0, 0)), 25);
    assert_eq!(distance_to_segment_sq((5, 0), (0, 0), (10, 0)), 0);
}

#[test]
fn splitmix_values() {
    assert_eq!(splitmix64(0), 0xe220a8397b1dcdaf);
    assert_eq!(splitmix64(1), 10451216379200822465);
}

#[test]
fn deterministic_choices() {
    assert_eq!(seeded_index(42, 7, 10), 6);
    assert_eq!(seeded_index(42, 7, 10), seeded_index(42, 7, 10));
    assert_eq!(seeded_index(42, 7, 0), 0);
    assert_eq!(seeded_index(42, 7, 1), 0);
    for len in 2..50usize {
        assert!(seeded_index(9, 3, len) < len);
    }
    assert!(chance_percent(1, 2, 3, 4, 100));
    assert!(!chance_percent(1, 2, 3, 4, 0));
    assert!(chance_percent(1, 2, 3, 4, 19));
    assert!(!chance_percent(1, 2, 3, 4, 18));
    assert!(!chance_percent(0, 0, 0, 0, 60));
    assert!(chance_percent(0, 0, 0, 0, 61));
}

#[test]
fn segment_distance_is_floor_of_exact() {
    // Projection of (1, 2) on (0, 0)..(3, 1) is (1.5, 0.5): exact squared
    // distance 2.5.
    assert_eq!(distance_to_segment_sq((1, 2), (0, 0), (3, 1)), 2);
    assert_eq!(distance_to_segment_sq((1, 2), (3, 1), (0, 0)), 2);
    // Beyond the end the nearest point is the end itself.
    assert_eq!(distance_to_segment_sq((7, 3), (0, 0), (3, 1)), 20);
}

#[test]
fn checked_segment_distance() {
    assert_eq!(checked_distance_to_segment_sq((5, 5), (0, 0), (10, 0)), Some(25));
    assert_eq!(checked_distance_to_segment_sq((3, 4), (7, 7), (7, 7)), Some(25));
    assert_eq!(checked_distance_to_segment_sq((u64::MAX, u64::MAX), (0, 0), (u64::MAX, u64::MAX)), None);
}

#[test]
fn segment_distance_is_symmetric_and_bounded_by_the_ends() {
    let cases = [((3, 7), (0, 0), (10, 2)), ((50, 1), (0, 0), (10, 2)), ((900, 40), (1000, 0), (20, 700)), ((5, 5), (7, 7), (7, 7))];
    for (p, a, b) in cases {
        let d = distance_to_segment_sq(p, a, b);
        assert_eq!(d, distance_to_segment_sq(p, b, a));
        assert!(d <= distance_sq(p, a));
        assert!(d <= distance_sq(p, b));
    }
}

#[test]
fn splitmix_is_injective_on_samples() {
    let mut outputs: Vec<u64> = (0..2000u64).map(splitmix64).collect();
    outputs.extend([u64::MAX, u64::MAX - 1, 1 << 63].iter().map(|v| splitmix64(*v)));
    let mut sorted = outputs.clone();
    sorted.sort_unstable();
    sorted.dedup();
    assert_eq!(sorted.len(), outputs.len());
}
