use repair_grid::repairman::{
    repairman_status_from_draw, Repairman, RepairmanStatus,
};

#[test]
fn repairman_draw_selects_the_three_actions() {
    assert_eq!(repairman_status_from_draw(0), RepairmanStatus::Idle);
    assert_eq!(repairman_status_from_draw(1), RepairmanStatus::Move);
    assert_eq!(repairman_status_from_draw(2), RepairmanStatus::Repair);
}

#[test]
fn new_repairman_starts_with_repair_pending() {
    let repairman = Repairman::new(6, (2, 3));
    assert_eq!(repairman.cells_need_to_repair, 6);
    assert_eq!(repairman.cells_repaird, 0);
    assert_eq!(repairman.position, (2, 3));
    assert_eq!(repairman.get_status(), RepairmanStatus::Repair);
}

#[test]
fn repairman_work_is_done_exactly_at_target() {
    let done_at_once = Repairman::new(0, (1, 1));
    assert!(done_at_once.is_work_done());
    let with_target = Repairman::new(2, (1, 1));
    assert!(!with_target.is_work_done());
}

#[test]
fn repairman_generate_status_keeps_the_rest() {
    let mut repairman = Repairman::new(3, (4, 4));
    for _ in 0..20 {
        repairman.generate_status();
        assert_eq!(repairman.cells_need_to_repair, 3);
        assert_eq!(repairman.cells_repaird, 0);
        assert_eq!(repairman.position, (4, 4));
    }
}

#[test]
fn repairman_moves_one_step_along_one_axis() {
    let mut repairman = Repairman::new(1, (10, 10));
    repairman.next_move();
    let (row, col) = repairman.position;
    let row_step = if row > 10 { row - 10 } else { 10 - row };
    let col_step = if col > 10 { col - 10 } else { 10 - col };
    assert_eq!(row_step + col_step, 1);
    assert_eq!(repairman.cells_repaird, 0);
    assert_eq!(repairman.cells_need_to_repair, 1);
}
