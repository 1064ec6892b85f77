use gc_core::components::{DesignationLifecycle, DesignationState};
use gc_core::designations::{
    designation_dedup_system, designation_to_jobs_system, DesignationBundle, DesignationConfig, MineDesignation,
};
use gc_core::jobs::{JobBoard, JobKind};
use gc_core::systems::DeterministicRng;
use gc_core::world::Position;

fn designation(x: i32, y: i32, state: DesignationState) -> DesignationBundle {
    DesignationBundle { pos: Position(x, y), kind: MineDesignation, lifecycle: DesignationLifecycle(state) }
}

#[test]
fn designation_lifecycle_defaults_to_active() {
    let d = DesignationBundle { pos: Position(5, 5), kind: MineDesignation, lifecycle: DesignationLifecycle::default() };
    assert_eq!(d.lifecycle.0, DesignationState::Active);
}

#[test]
fn single_designation_remains_active() {
    let mut ds = vec![designation(5, 5, DesignationState::Active)];
    designation_dedup_system(&mut ds);
    assert_eq!(ds[0].lifecycle.0, DesignationState::Active);
}

#[test]
fn duplicate_designations_marked_ignored() {
    let mut ds = vec![
        designation(5, 5, DesignationState::Active),
        designation(5, 5, DesignationState::Active),
        designation(5, 5, DesignationState::Active),
    ];
    designation_dedup_system(&mut ds);
    assert_eq!(ds[0].lifecycle.0, DesignationState::Active);
    assert_eq!(ds[1].lifecycle.0, DesignationState::Ignored);
    assert_eq!(ds[2].lifecycle.0, DesignationState::Ignored);
}

#[test]
fn different_positions_remain_active() {
    let mut ds = vec![
        designation(5, 5, DesignationState::Active),
        designation(6, 5, DesignationState::Active),
        designation(5, 6, DesignationState::Active),
    ];
    designation_dedup_system(&mut ds);
    for d in &ds {
        assert_eq!(d.lifecycle.0, DesignationState::Active);
    }
}

#[test]
fn only_active_designations_create_jobs() {
    let config = DesignationConfig { auto_jobs: true };
    let mut board = JobBoard::default();
    let mut rng = DeterministicRng::new(42);
    let mut ds = vec![designation(5, 5, DesignationState::Active), designation(6, 6, DesignationState::Ignored)];
    designation_to_jobs_system(&config, &mut board, &mut rng, &mut ds);
    assert_eq!(board.0.len(), 1);
    match board.0[0].kind {
        JobKind::Mine { x, y } => {
            assert_eq!(x, 5);
            assert_eq!(y, 5);
        }
        _ => panic!("Expected Mine job"),
    }
    assert_eq!(ds[0].lifecycle.0, DesignationState::Consumed);
    assert_eq!(ds[1].lifecycle.0, DesignationState::Ignored);
}

#[test]
fn full_pipeline_dedup_then_jobs() {
    let config = DesignationConfig { auto_jobs: true };
    let mut board = JobBoard::default();
    let mut rng = DeterministicRng::new(42);
    let mut ds = vec![
        designation(5, 5, DesignationState::Active),
        designation(5, 5, DesignationState::Active),
        designation(6, 6, DesignationState::Active),
        designation(6, 6, DesignationState::Active),
    ];
    designation_dedup_system(&mut ds);
    let active = ds.iter().filter(|d| d.lifecycle.0 == DesignationState::Active).count();
    let ignored = ds.iter().filter(|d| d.lifecycle.0 == DesignationState::Ignored).count();
    assert_eq!(active, 2, "Should have 2 active designations after dedup");
    assert_eq!(ignored, 2, "Should have 2 ignored designations after dedup");
    designation_to_jobs_system(&config, &mut board, &mut rng, &mut ds);
    assert_eq!(board.0.len(), 2);
    let mut positions: Vec<(i32, i32)> = board
        .0
        .iter()
        .map(|job| match job.kind {
            JobKind::Mine { x, y } => (x, y),
            _ => panic!("Expected Mine job"),
        })
        .collect();
    positions.sort();
    assert_eq!(positions, vec![(5, 5), (6, 6)]);
}

#[test]
fn ignored_designations_stay_ignored() {
    let mut ds = vec![designation(5, 5, DesignationState::Active), designation(5, 5, DesignationState::Active)];
    designation_dedup_system(&mut ds);
    let first = (ds[0].lifecycle.0, ds[1].lifecycle.0);
    designation_dedup_system(&mut ds);
    let second = (ds[0].lifecycle.0, ds[1].lifecycle.0);
    assert_eq!(first, second);
    assert_eq!(second.0, DesignationState::Active);
    assert_eq!(second.1, DesignationState::Ignored);
}

#[test]
fn dedup_keeps_first_of_k_and_settles() {
    let mut ds: Vec<DesignationBundle> = (0..5).map(|_| designation(3, 4, DesignationState::Active)).collect();
    ds.push(designation(3, 4, DesignationState::Consumed));
    designation_dedup_system(&mut ds);
    let snapshot = ds.clone();
    assert_eq!(ds.iter().filter(|d| d.lifecycle.0 == DesignationState::Active).count(), 1);
    assert_eq!(ds.iter().filter(|d| d.lifecycle.0 == DesignationState::Ignored).count(), 4);
    assert_eq!(ds[5].lifecycle.0, DesignationState::Consumed);
    designation_dedup_system(&mut ds);
    assert_eq!(ds, snapshot);
}

#[test]
fn conversion_makes_one_job_per_active_designation_only_once() {
    let config = DesignationConfig { auto_jobs: true };
    let mut board = JobBoard::default();
    let mut rng = DeterministicRng::new(7);
    let mut ds = vec![
        designation(1, 1, DesignationState::Active),
        designation(2, 2, DesignationState::Consumed),
        designation(3, 3, DesignationState::Active),
    ];
    designation_to_jobs_system(&config, &mut board, &mut rng, &mut ds);
    assert_eq!(board.0.len(), 2);
    designation_to_jobs_system(&config, &mut board, &mut rng, &mut ds);
    assert_eq!(board.0.len(), 2);
    assert_ne!(board.0[0].id, board.0[1].id);
}

#[test]
fn conversion_off_changes_nothing() {
    let config = DesignationConfig::default();
    let mut board = JobBoard::default();
    let mut rng = DeterministicRng::new(7);
    let mut ds = vec![designation(1, 1, DesignationState::Active)];
    designation_to_jobs_system(&config, &mut board, &mut rng, &mut ds);
    assert!(board.0.is_empty());
    assert_eq!(ds[0].lifecycle.0, DesignationState::Active);
}
