use raytracer::trace::{count_below, nearest_hit, reflection_terminated, MAX_REFLECTION_DEPTH};

#[test]
fn nearest_hit_of_no_primitives_is_none() {
    assert_eq!(nearest_hit(&vec![]), None);
}

#[test]
fn nearest_hit_of_all_misses_is_none() {
    // A ray that misses every primitive yields no hit.
    assert_eq!(nearest_hit(&vec![None, None, None]), None);
}

#[test]
fn nearest_hit_picks_smallest_distance() {
    let dists = vec![None, Some(5u64), Some(3), Some(7)];
    assert_eq!(nearest_hit(&dists), Some(2));
    assert_eq!(nearest_hit(&vec![Some(1u64)]), Some(0));
    assert_eq!(nearest_hit(&vec![None, None, Some(9u64)]), Some(2));
}

#[test]
fn nearest_hit_keeps_first_of_equal_distances() {
    let dists = vec![Some(4u64), None, Some(4)];
    assert_eq!(nearest_hit(&dists), Some(0));
    let dists = vec![Some(9u64), Some(4), None, Some(4)];
    assert_eq!(nearest_hit(&dists), Some(1));
}

#[test]
fn distance_bits_order_as_distances() {
    // Nonnegative binary64 values order like their bit patterns, which is
    // how hit distances are handed to the selection functions.
    let samples = [0.0f64, 1e-7, 0.5, 1.0, 100.0, 1e300];
    for pair in samples.windows(2) {
        assert!(pair[0].to_bits() < pair[1].to_bits());
    }
    let dists = vec![Some(250.5f64.to_bits()), Some(2.25f64.to_bits())];
    assert_eq!(nearest_hit(&dists), Some(1));
}

#[test]
fn count_below_counts_strictly_closer_hits() {
    let dists = vec![Some(1u64), Some(10), None, Some(3)];
    assert_eq!(count_below(&dists, 5), 2);
    // The cutoff itself does not count.
    assert_eq!(count_below(&vec![Some(5u64)], 5), 0);
    assert_eq!(count_below(&vec![Some(4u64)], 5), 1);
}

#[test]
fn unoccluded_point_counts_no_hits() {
    // Samples from an isolated point: nothing within the cutoff, so the
    // occlusion estimate 1 - count/samples is exactly one.
    let misses: Vec<Option<u64>> = vec![None; 100];
    assert_eq!(count_below(&misses, 1000), 0);
    let far: Vec<Option<u64>> = vec![Some(2000); 100];
    assert_eq!(count_below(&far, 1000), 0);
}

#[test]
fn reflection_stops_past_max_depth() {
    assert_eq!(MAX_REFLECTION_DEPTH, 5);
    assert!(!reflection_terminated(0));
    assert!(!reflection_terminated(5));
    assert!(reflection_terminated(6));
    assert!(reflection_terminated(u32::MAX));
}
