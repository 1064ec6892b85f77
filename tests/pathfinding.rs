use gc_core::path::{astar_path, PathRequest, PathService};
use gc_core::world::{GameMap, TileKind};

fn create_test_map(width: u32, height: u32) -> GameMap {
    GameMap::new(width, height)
}

fn create_map_with_walls() -> GameMap {
    let mut map = create_test_map(10, 10);
    for y in 2..8 {
        map.set_tile(5, y, TileKind::Wall);
    }
    map
}

#[test]
fn path_service_new_creates_with_capacity() {
    let service = PathService::new(100);
    assert_eq!(service.stats(), (0, 0));
}

#[test]
fn path_service_new_with_zero_capacity_still_works() {
    let service = PathService::new(0);
    assert_eq!(service.stats(), (0, 0));
}

#[test]
fn path_service_cache_hits_work() {
    let mut service = PathService::new(10);
    let map = create_test_map(10, 10);
    let path1 = service.get(&map, (0, 0), (2, 2));
    assert!(path1.is_some());
    assert_eq!(service.stats(), (0, 1));
    let path2 = service.get(&map, (0, 0), (2, 2));
    assert!(path2.is_some());
    assert_eq!(service.stats(), (1, 1));
    assert_eq!(path1, path2);
}

#[test]
fn path_service_batch_processing() {
    let mut service = PathService::new(10);
    let map = create_test_map(10, 10);
    let requests = vec![
        PathRequest { start: (0, 0), goal: (1, 1) },
        PathRequest { start: (2, 2), goal: (3, 3) },
        PathRequest { start: (0, 0), goal: (1, 1) },
    ];
    let results = service.batch(&map, &requests);
    assert_eq!(results.len(), 3);
    for result in &results {
        assert!(result.is_some());
    }
    assert_eq!(service.stats(), (1, 2));
}

#[test]
fn path_service_reset_stats() {
    let mut service = PathService::new(10);
    let map = create_test_map(10, 10);
    service.get(&map, (0, 0), (1, 1));
    service.get(&map, (0, 0), (1, 1));
    assert_eq!(service.stats(), (1, 1));
    service.reset_stats();
    assert_eq!(service.stats(), (0, 0));
}

#[test]
fn astar_path_no_path_available() {
    let mut map = create_test_map(5, 5);
    for x in 0..5 {
        for y in 0..5 {
            if x > 0 || y > 0 {
                map.set_tile(x, y, TileKind::Wall);
            }
        }
    }
    assert!(astar_path(&map, (0, 0), (4, 4)).is_none());
}

#[test]
fn astar_path_same_start_and_goal() {
    let map = create_test_map(5, 5);
    let (path, cost) = astar_path(&map, (2, 2), (2, 2)).unwrap();
    assert_eq!(path.len(), 1);
    assert_eq!(path[0], (2, 2));
    assert_eq!(cost, 0);
}

#[test]
fn astar_path_around_obstacles() {
    let map = create_map_with_walls();
    let (path, cost) = astar_path(&map, (0, 5), (9, 5)).unwrap();
    for &(x, y) in &path {
        if x == 5 && (2..8).contains(&y) {
            panic!("Path goes through wall at ({}, {})", x, y);
        }
    }
    assert_eq!(path[0], (0, 5));
    assert_eq!(path[path.len() - 1], (9, 5));
    assert_eq!(cost as usize, path.len() - 1);
    assert_eq!(cost, 15);
}

#[test]
fn astar_path_adjacent_positions() {
    let map = create_test_map(5, 5);
    let (path, cost) = astar_path(&map, (1, 1), (1, 2)).unwrap();
    assert_eq!(path.len(), 2);
    assert_eq!(path[0], (1, 1));
    assert_eq!(path[1], (1, 2));
    assert_eq!(cost, 1);
}

#[test]
fn path_request_equality() {
    let req1 = PathRequest { start: (1, 2), goal: (3, 4) };
    let req2 = PathRequest { start: (1, 2), goal: (3, 4) };
    let req3 = PathRequest { start: (1, 2), goal: (3, 5) };
    assert_eq!(req1, req2);
    assert_ne!(req1, req3);
}

#[test]
fn path_request_debug_and_clone() {
    let req = PathRequest { start: (1, 2), goal: (3, 4) };
    let cloned = req;
    assert_eq!(req, cloned);
    let debug_str = format!("{:?}", req);
    assert!(debug_str.contains("PathRequest"));
    assert!(debug_str.contains("start"));
    assert!(debug_str.contains("goal"));
}

#[test]
fn path_to_unreachable_area() {
    let mut map = create_test_map(10, 10);
    for dx in -1..=1 {
        for dy in -1..=1 {
            if dx != 0 || dy != 0 {
                map.set_tile(8 + dx, 8 + dy, TileKind::Wall);
            }
        }
    }
    assert!(astar_path(&map, (0, 0), (8, 8)).is_none());
}

#[test]
fn path_service_cache_eviction() {
    let mut service = PathService::new(2);
    let map = create_test_map(10, 10);
    service.get(&map, (0, 0), (1, 1));
    service.get(&map, (2, 2), (3, 3));
    service.get(&map, (4, 4), (5, 5));
    service.get(&map, (0, 0), (1, 1));
    let (_hits, misses) = service.stats();
    assert_eq!(misses, 4);
}

#[test]
fn astar_crosses_open_floor() {
    let map = GameMap::new(10, 10);
    let (path, cost) = astar_path(&map, (0, 0), (9, 9)).unwrap();
    assert_eq!(path.first(), Some(&(0, 0)));
    assert_eq!(path.last(), Some(&(9, 9)));
    assert_eq!(cost, 18);
}
