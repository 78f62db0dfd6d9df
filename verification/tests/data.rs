use rdom_charts::chart::data::{evict_oldest, padded_bounds};
use rdom_charts::chart::gauge::zone_index;
use rdom_charts::{ConnectPolicy, SeriesStyle};

#[test]
fn evicts_oldest() {
    let mut pts = vec![1, 2, 3, 4, 5];
    evict_oldest(&mut pts, 3);
    assert_eq!(pts, vec![3, 4, 5]);
}

#[test]
fn eviction_keeps_buffers_within_bound() {
    let mut pts = vec![1, 2];
    evict_oldest(&mut pts, 3);
    assert_eq!(pts, vec![1, 2]);
    let mut all = vec![7, 8, 9];
    evict_oldest(&mut all, 0);
    assert!(all.is_empty());
}

#[test]
fn padded_range_adds_neighbors() {
    // Points at 1..=5; the range 2..=4 covers indices [1, 4).
    assert_eq!(padded_bounds(1, 4, 5), (0, 5));
    assert_eq!(padded_bounds(0, 5, 5), (0, 5));
    assert_eq!(padded_bounds(2, 2, 5), (1, 3));
    assert_eq!(padded_bounds(0, 0, 0), (0, 0));
}

#[test]
fn zones_pick_first_match_else_last() {
    assert_eq!(zone_index(&vec![true, true, true]), Some(0));
    assert_eq!(zone_index(&vec![false, true, true]), Some(1));
    assert_eq!(zone_index(&vec![false, false, true]), Some(2));
    assert_eq!(zone_index(&vec![false]), Some(0));
    assert_eq!(zone_index(&vec![false, false]), Some(1));
    assert_eq!(zone_index(&vec![]), None);
}

#[test]
fn default_style_and_policy() {
    assert_eq!(SeriesStyle::default(), SeriesStyle::Line);
    assert_eq!(ConnectPolicy::default(), ConnectPolicy::Gap);
}
