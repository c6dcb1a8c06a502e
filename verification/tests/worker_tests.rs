use repair_grid::worker::{
    next_position_from, status_from_draw, DecisionPolicy, RandomPolicy, ScriptedPolicy, Worker,
    WorkerStatus,
};
use repair_grid::world::World;

#[test]
fn draw_selects_the_three_actions() {
    assert_eq!(status_from_draw(0), WorkerStatus::Idle);
    assert_eq!(status_from_draw(1), WorkerStatus::Move);
    assert_eq!(status_from_draw(2), WorkerStatus::Repair);
}

#[test]
fn default_status_is_wait() {
    assert_eq!(WorkerStatus::default(), WorkerStatus::Wait);
}

#[test]
fn moves_from_corners_stay_in_bounds() {
    let size = 4;
    let corners = [(0, 0), (0, 3), (3, 0), (3, 3)];
    let draws = [(false, false), (false, true), (true, false), (true, true)];
    for &corner in &corners {
        for &(v, f) in &draws {
            let next = next_position_from(corner, size, v, f);
            assert!(next.0 < size && next.1 < size);
        }
    }
}

#[test]
fn moves_from_edges_stay_in_bounds() {
    let size = 3;
    for row in 0..size {
        for col in 0..size {
            for &(v, f) in &[(false, false), (false, true), (true, false), (true, true)] {
                let next = next_position_from((row, col), size, v, f);
                assert!(next.0 < size && next.1 < size);
            }
        }
    }
}

#[test]
fn move_on_single_cell_grid_stays_put() {
    assert_eq!(next_position_from((0, 0), 1, true, true), (0, 0));
    assert_eq!(next_position_from((0, 0), 1, false, false), (0, 0));
}

#[test]
fn random_walk_stays_in_bounds() {
    let mut worker = Worker::new(0, 1, 5, (2, 2));
    for _ in 0..200 {
        worker.move_next_position();
        assert!(worker.position.0 < 5 && worker.position.1 < 5);
    }
}

#[test]
fn new_worker_starts_clean() {
    let worker = Worker::new(7, 3, 9, (4, 5));
    assert_eq!(worker.id, 7);
    assert_eq!(worker.cells_need_to_repair, 3);
    assert_eq!(worker.world_size, 9);
    assert_eq!(worker.repaired_cells, 0);
    assert_eq!(worker.position, (4, 5));
    assert_eq!(worker.get_status(), WorkerStatus::Wait);
}

#[test]
fn generated_status_is_never_wait() {
    let mut worker = Worker::new(0, 1, 3, (0, 0));
    for _ in 0..50 {
        worker.generate_status();
        assert_ne!(worker.get_status(), WorkerStatus::Wait);
    }
}

#[test]
fn work_is_done_exactly_at_target() {
    let worker = Worker::new(0, 4, 3, (0, 0));
    assert!(!worker.is_work_done(3));
    assert!(worker.is_work_done(4));
    assert!(!worker.is_work_done(5));
}

#[test]
fn scripted_policy_follows_and_then_idles() {
    let mut policy = ScriptedPolicy::new(
        vec![WorkerStatus::Repair, WorkerStatus::Wait],
        vec![(1, 1), (9, 9)],
    );
    assert_eq!(policy.next_action(), WorkerStatus::Repair);
    // A scripted Wait is handed out as Idle, and so is an exhausted script.
    assert_eq!(policy.next_action(), WorkerStatus::Idle);
    assert_eq!(policy.next_action(), WorkerStatus::Idle);
    // A scripted in-bounds position is taken; an out-of-bounds or exhausted
    // one leaves the worker where it stands.
    assert_eq!(policy.next_position((0, 0), 3), (1, 1));
    assert_eq!(policy.next_position((2, 0), 3), (2, 0));
    assert_eq!(policy.next_position((2, 1), 3), (2, 1));
}

#[test]
fn zero_budget_does_nothing() {
    let mut world = World::new(3, 1);
    let mut worker = Worker::new(0, 1, 3, (0, 0));
    let mut policy = RandomPolicy;
    let done = worker.process_until_work_is_done(&mut world, &mut policy, 0);
    assert!(!done);
    assert_eq!(worker.repaired_cells, 0);
}

#[test]
fn lone_worker_repairing_every_broken_cell_terminates() {
    // A single worker, two broken cells, a target of two, and a script that
    // repairs while standing on each broken cell in turn: the loop exits.
    let mut world = World::new(3, 1);
    world.cells[0].is_broken = true;
    world.cells[8].is_broken = true;
    let mut worker = Worker::new(0, 2, 3, (0, 0));
    let mut policy = ScriptedPolicy::new(
        vec![
            WorkerStatus::Repair,
            WorkerStatus::Move,
            WorkerStatus::Move,
            WorkerStatus::Move,
            WorkerStatus::Move,
            WorkerStatus::Repair,
        ],
        vec![(0, 1), (0, 2), (1, 2), (2, 2)],
    );
    let done = worker.process_until_work_is_done(&mut world, &mut policy, 100);
    assert!(done);
    assert_eq!(worker.repaired_cells, 2);
    assert_eq!(worker.position, (2, 2));
}

#[test]
fn scenario_two_repairs_on_three_by_three() {
    // Grid 3x3, broken cells at (0, 0) and (2, 2), one worker starting at
    // (0, 0) with a target of 2: after repairing both, the ledger sum read
    // at (2, 2) is 2 and the loop exits with a local tally of 2.
    let mut world = World::new(3, 1);
    let i00 = world.get_cell_index((0, 0)).unwrap();
    let i22 = world.get_cell_index((2, 2)).unwrap();
    world.cells[i00].is_broken = true;
    world.cells[i22].is_broken = true;
    let mut worker = Worker::new(0, 2, 3, (0, 0));
    let mut policy = ScriptedPolicy::new(
        vec![
            WorkerStatus::Repair,
            WorkerStatus::Move,
            WorkerStatus::Move,
            WorkerStatus::Move,
            WorkerStatus::Move,
            WorkerStatus::Repair,
        ],
        vec![(0, 1), (1, 1), (2, 1), (2, 2)],
    );
    let done = worker.process_until_work_is_done(&mut world, &mut policy, 100);
    assert!(done);
    assert_eq!(worker.repaired_cells, 2);
    assert_eq!(world.get_repaired_cells_from_notes((2, 2)), Ok(2));
    assert!(!world.cells[i00].is_broken);
    assert!(!world.cells[i22].is_broken);
}

#[test]
fn worker_can_finish_on_other_workers_contributions() {
    // The aggregation is cell-scoped: a worker standing on a cell whose
    // ledger already carries enough contributions stops without repairing
    // anything itself.
    let mut world = World::new(3, 2);
    world.repair_cell(1, 5, (0, 0)).unwrap();
    let mut worker = Worker::new(0, 5, 3, (0, 0));
    let mut policy = ScriptedPolicy::new(vec![WorkerStatus::Idle], vec![]);
    let done = worker.process_until_work_is_done(&mut world, &mut policy, 10);
    assert!(done);
    assert_eq!(worker.repaired_cells, 0);
}

#[test]
fn random_policy_full_run_terminates_when_target_is_reachable() {
    // One worker on a small grid where every cell is broken: with target 1,
    // the first successful repair is observed at the cell just repaired.
    let mut world = World::new(2, 1);
    world.generate_broken_cells(4);
    let mut worker = Worker::new(0, 1, 2, (0, 0));
    let mut policy = RandomPolicy;
    let mut done = false;
    for _ in 0..1000 {
        if worker.process_until_work_is_done(&mut world, &mut policy, 100) {
            done = true;
            break;
        }
    }
    assert!(done);
    assert!(worker.repaired_cells >= 1);
}
