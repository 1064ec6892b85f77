use gc_core::components::ZoneBounds;
use gc_core::stockpiles::{find_nearest_stockpile, find_stockpiles_at_position, position_in_stockpile, StockpileBundle};

#[test]
fn stockpile_bundle_creates_with_correct_center() {
    let bundle = StockpileBundle::new(5, 5, 10, 10);
    assert_eq!(bundle.position.0, 7);
    assert_eq!(bundle.position.1, 7);
    assert_eq!(bundle.bounds.min_x, 5);
    assert_eq!(bundle.bounds.min_y, 5);
    assert_eq!(bundle.bounds.max_x, 10);
    assert_eq!(bundle.bounds.max_y, 10);
    assert!(bundle.stockpile.accepts.is_none());
}

#[test]
fn zone_bounds_contains_works_correctly() {
    let bounds = ZoneBounds::new(5, 5, 10, 10);
    assert!(bounds.contains(5, 5));
    assert!(bounds.contains(10, 10));
    assert!(bounds.contains(7, 7));
    assert!(bounds.contains(5, 10));
    assert!(bounds.contains(10, 5));
    assert!(!bounds.contains(4, 7));
    assert!(!bounds.contains(11, 7));
    assert!(!bounds.contains(7, 4));
    assert!(!bounds.contains(7, 11));
    assert!(!bounds.contains(4, 4));
}

#[test]
fn zone_bounds_center_calculation() {
    assert_eq!(ZoneBounds::new(0, 0, 10, 10).center(), (5, 5));
    assert_eq!(ZoneBounds::new(5, 5, 15, 15).center(), (10, 10));
    assert_eq!(ZoneBounds::new(0, 0, 9, 9).center(), (4, 4));
}

#[test]
fn zone_center_rounds_toward_zero() {
    assert_eq!(ZoneBounds::new(-3, -3, 0, 0).center(), (-1, -1));
    assert_eq!(ZoneBounds::new(i32::MAX - 1, i32::MIN, i32::MAX, i32::MIN + 1).center(), (i32::MAX - 1, i32::MIN + 1));
}

#[test]
fn find_nearest_stockpile_returns_closest() {
    let stockpiles = vec![
        StockpileBundle::new(0, 0, 5, 5),
        StockpileBundle::new(10, 10, 15, 15),
        StockpileBundle::new(20, 0, 25, 5),
    ];
    assert_eq!(find_nearest_stockpile(&stockpiles, 3, 3).map(|r| r.0), Some(0));
    assert_eq!(find_nearest_stockpile(&stockpiles, 13, 13).map(|r| r.0), Some(1));
    assert_eq!(find_nearest_stockpile(&stockpiles, 23, 1).map(|r| r.0), Some(2));
    assert_eq!(find_nearest_stockpile(&stockpiles, 3, 3), Some((0, 2)));
}

#[test]
fn find_nearest_stockpile_first_wins_on_tie() {
    let stockpiles = vec![StockpileBundle::new(0, 0, 0, 0), StockpileBundle::new(4, 0, 4, 0)];
    assert_eq!(find_nearest_stockpile(&stockpiles, 2, 0), Some((0, 4)));
}

#[test]
fn find_nearest_stockpile_returns_none_when_empty() {
    let stockpiles: Vec<StockpileBundle> = Vec::new();
    assert!(find_nearest_stockpile(&stockpiles, 5, 5).is_none());
}

#[test]
fn position_in_stockpile_detects_membership() {
    let stockpiles = vec![StockpileBundle::new(0, 0, 5, 5), StockpileBundle::new(10, 10, 15, 15)];
    assert!(position_in_stockpile(&stockpiles, 2, 2));
    assert!(position_in_stockpile(&stockpiles, 12, 12));
    assert!(position_in_stockpile(&stockpiles, 0, 0));
    assert!(!position_in_stockpile(&stockpiles, 7, 7));
    assert!(!position_in_stockpile(&stockpiles, 20, 20));
}

#[test]
fn find_stockpiles_at_position_returns_all_overlapping() {
    let stockpiles = vec![
        StockpileBundle::new(0, 0, 10, 10),
        StockpileBundle::new(5, 5, 15, 15),
        StockpileBundle::new(20, 20, 25, 25),
    ];
    let found = find_stockpiles_at_position(&stockpiles, 7, 7);
    assert_eq!(found.len(), 2);
    assert!(found.contains(&0));
    assert!(found.contains(&1));
    let found = find_stockpiles_at_position(&stockpiles, 2, 2);
    assert_eq!(found, vec![0]);
    let found = find_stockpiles_at_position(&stockpiles, 22, 22);
    assert_eq!(found, vec![2]);
    assert!(find_stockpiles_at_position(&stockpiles, 100, 100).is_empty());
}

#[test]
fn stockpile_integration_with_ecs() {
    let bundle = StockpileBundle::new(5, 5, 10, 10);
    assert_eq!(bundle.position.0, 7);
    assert_eq!(bundle.position.1, 7);
    assert_eq!(bundle.bounds.min_x, 5);
    assert_eq!(bundle.bounds.max_x, 10);
    assert!(bundle.stockpile.accepts.is_none());
}
