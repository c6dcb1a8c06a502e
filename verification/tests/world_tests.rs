use repair_grid::world::{Cell, World, WorldError};

fn count_broken(world: &World) -> usize {
    let mut n = 0;
    for cell in &world.cells {
        if cell.is_broken {
            n += 1;
        }
    }
    n
}

#[test]
fn new_cell_is_intact_and_blank() {
    let cell = Cell::new();
    assert!(!cell.is_broken);
    assert!(cell.notes.is_empty());
}

#[test]
fn new_world_has_square_of_fresh_cells() {
    let world = World::new(4, 3);
    assert_eq!(world.size, 4);
    assert_eq!(world.workers_count, 3);
    assert_eq!(world.cells.len(), 16);
    assert_eq!(count_broken(&world), 0);
    for cell in &world.cells {
        assert!(cell.notes.is_empty());
    }
}

#[test]
fn cell_index_is_row_major() {
    let world = World::new(7, 1);
    assert_eq!(world.get_cell_index((0, 0)), Ok(0));
    assert_eq!(world.get_cell_index((2, 3)), Ok(17));
    assert_eq!(world.get_cell_index((6, 6)), Ok(48));
}

#[test]
fn cell_index_rejects_out_of_bounds() {
    let world = World::new(7, 1);
    assert_eq!(world.get_cell_index((7, 0)), Err(WorldError::OutOfBounds));
    assert_eq!(world.get_cell_index((0, 7)), Err(WorldError::OutOfBounds));
    assert_eq!(world.get_cell_index((10, 10)), Err(WorldError::OutOfBounds));
}

#[test]
fn repair_rejects_out_of_bounds() {
    let mut world = World::new(3, 1);
    assert_eq!(world.repair_cell(0, 0, (3, 1)), Err(WorldError::OutOfBounds));
    assert_eq!(
        world.get_repaired_cells_from_notes((1, 3)),
        Err(WorldError::OutOfBounds)
    );
}

#[test]
fn repair_clears_broken_cell_and_increments() {
    let mut world = World::new(3, 2);
    world.cells[4].is_broken = true;
    let r = world.repair_cell(0, 0, (1, 1));
    assert_eq!(r, Ok(1));
    assert!(!world.cells[4].is_broken);
    assert_eq!(world.cells[4].notes, vec![(0, 1)]);
}

#[test]
fn at_most_one_repair_observes_the_transition() {
    // Two attempts against the same broken cell: the first clears it and
    // counts, the second finds it repaired and keeps its own count.
    let mut world = World::new(3, 2);
    world.cells[0].is_broken = true;
    let first = world.repair_cell(0, 0, (0, 0));
    let second = world.repair_cell(1, 0, (0, 0));
    assert_eq!(first, Ok(1));
    assert_eq!(second, Ok(0));
    assert!(!world.cells[0].is_broken);
}

#[test]
fn ledger_records_are_non_decreasing_per_worker() {
    let mut world = World::new(2, 1);
    world.cells[0].is_broken = true;
    world.cells[1].is_broken = true;
    world.cells[2].is_broken = true;
    let mut count = 0;
    // The worker repairs from three cells but always records at cell (0, 0)
    // as well, by repairing the already-fixed cell in between.
    count = world.repair_cell(5, count, (0, 0)).unwrap();
    count = world.repair_cell(5, count, (0, 1)).unwrap();
    count = world.repair_cell(5, count, (1, 0)).unwrap();
    assert_eq!(count, 3);
    let recorded: Vec<usize> = world.cells[0]
        .notes
        .iter()
        .filter(|n| n.0 == 5)
        .map(|n| n.1)
        .collect();
    let mut sorted = recorded.clone();
    sorted.sort();
    assert_eq!(recorded, sorted);
}

#[test]
fn never_broken_cell_keeps_status_and_record() {
    // A worker that keeps repairing the same never-broken cell: the flag
    // never changes and its record stays at the handed-in count.
    let mut world = World::new(3, 1);
    for _ in 0..5 {
        let r = world.repair_cell(2, 7, (1, 2));
        assert_eq!(r, Ok(7));
        assert!(!world.cells[5].is_broken);
    }
    let last = world.cells[5].notes.iter().rev().find(|n| n.0 == 2).unwrap();
    assert_eq!(last.1, 7);
}

#[test]
fn ledger_sum_takes_each_workers_latest_record() {
    let mut world = World::new(3, 3);
    // All on the intact cell (0, 1): records land as handed in.
    assert_eq!(world.repair_cell(1, 2, (0, 1)), Ok(2));
    assert_eq!(world.repair_cell(2, 3, (0, 1)), Ok(3));
    assert_eq!(world.repair_cell(1, 5, (0, 1)), Ok(5));
    // Worker 1's latest record is 5 and worker 2's is 3.
    assert_eq!(world.get_repaired_cells_from_notes((0, 1)), Ok(8));
}

#[test]
fn ledger_sum_is_scoped_to_one_cell() {
    let mut world = World::new(3, 2);
    world.repair_cell(0, 4, (0, 0)).unwrap();
    assert_eq!(world.get_repaired_cells_from_notes((0, 0)), Ok(4));
    assert_eq!(world.get_repaired_cells_from_notes((2, 2)), Ok(0));
}

#[test]
fn empty_ledger_sums_to_zero() {
    let world = World::new(2, 1);
    assert_eq!(world.get_repaired_cells_from_notes((0, 0)), Ok(0));
}

#[test]
fn generate_broken_cells_breaks_exactly_count() {
    let mut world = World::new(5, 2);
    world.generate_broken_cells(7);
    assert_eq!(count_broken(&world), 7);
    for cell in &world.cells {
        assert!(cell.notes.is_empty());
    }
}

#[test]
fn generate_broken_cells_can_break_all() {
    let mut world = World::new(2, 1);
    world.generate_broken_cells(4);
    assert_eq!(count_broken(&world), 4);
}

#[test]
fn generate_broken_cells_none() {
    let mut world = World::new(3, 1);
    world.generate_broken_cells(0);
    assert_eq!(count_broken(&world), 0);
}

#[test]
fn apply_repair_on_single_cell() {
    let mut cell = Cell::new();
    cell.is_broken = true;
    let r = cell.apply_repair(3, 0);
    assert_eq!(r, 1);
    assert!(!cell.is_broken);
    assert_eq!(cell.notes, vec![(3, 1)]);
    assert_eq!(cell.repaired_sum(), 1);
}
