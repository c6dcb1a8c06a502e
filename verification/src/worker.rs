//! Workers: independent agents that move across the grid, attempt repairs,
//! and stop once the ledger sum at their current cell reaches their target.

use vstd::prelude::*;

use crate::rng::{rand_below, rand_flip};
use crate::world::{
    broken_count, cord_in_bounds, last_count, ledger_sum, Coordinates, World,
};

verus! {

/// What a worker does on one tick. `Wait` is the neutral state between
/// ticks; a decision policy hands out one of the other three.
#[derive(Clone, Copy, Debug, PartialEq, Eq, Structural)]
pub enum WorkerStatus {
    Idle,
    Move,
    Repair,
    Wait,
}

impl Default for WorkerStatus {
    /// The entry state: no action pending.
    fn default() -> (r: WorkerStatus)
        ensures
            r == WorkerStatus::Wait,
    {
        WorkerStatus::Wait
    }
}

/// The action a draw below 3 selects.
pub open spec fn status_from_draw_spec(draw: usize) -> WorkerStatus {
    if draw == 0 {
        WorkerStatus::Idle
    } else if draw == 1 {
        WorkerStatus::Move
    } else {
        WorkerStatus::Repair
    }
}

/// Map a random draw to the action it selects.
pub fn status_from_draw(draw: usize) -> (r: WorkerStatus)
    ensures
        r == status_from_draw_spec(draw),
{
    match draw {
        0 => WorkerStatus::Idle,
        1 => WorkerStatus::Move,
        _ => WorkerStatus::Repair,
    }
}

/// Where one move from `pos` lands on a grid of side `size`, given the two
/// draws: `vertical` picks the column axis, `forward` the growing direction.
/// Edge cells override the draws so that the step stays inside the grid; on
/// a single-cell grid the position stays put.
pub open spec fn next_position_spec(
    pos: (int, int),
    size: int,
    vertical: bool,
    forward: bool,
) -> (int, int) {
    if size <= 1 {
        pos
    } else {
        let move_col = if pos.0 == 0 || pos.0 == size - 1 {
            true
        } else if pos.1 == 0 || pos.1 == size - 1 {
            false
        } else {
            vertical
        };
        if move_col {
            let grow = if pos.1 == 0 {
                true
            } else if pos.1 == size - 1 {
                false
            } else {
                forward
            };
            (pos.0, if grow {
                pos.1 + 1
            } else {
                pos.1 - 1
            })
        } else {
            let grow = if pos.0 == 0 {
                true
            } else if pos.0 == size - 1 {
                false
            } else {
                forward
            };
            ((if grow {
                pos.0 + 1
            } else {
                pos.0 - 1
            }), pos.1)
        }
    }
}

/// True when `pos` lies on the grid of side `size`.
pub open spec fn pos_in_bounds(pos: (int, int), size: int) -> bool {
    0 <= pos.0 < size && 0 <= pos.1 < size
}

/// Where a whole sequence of moves lands, draw pair by draw pair.
pub open spec fn position_after(pos: (int, int), size: int, draws: Seq<(bool, bool)>) -> (int, int)
    decreases draws.len(),
{
    if draws.len() == 0 {
        pos
    } else {
        position_after(
            next_position_spec(pos, size, draws.first().0, draws.first().1),
            size,
            draws.drop_first(),
        )
    }
}

/// Bounded-movement law: any sequence of moves from any in-bounds position
/// stays within the grid.
pub proof fn lemma_bounded_movement(pos: (int, int), size: int, draws: Seq<(bool, bool)>)
    requires
        size >= 1,
        pos_in_bounds(pos, size),
    ensures
        pos_in_bounds(position_after(pos, size, draws), size),
    decreases draws.len(),
{
    if draws.len() > 0 {
        lemma_bounded_movement(
            next_position_spec(pos, size, draws.first().0, draws.first().1),
            size,
            draws.drop_first(),
        );
    }
}

/// Take one move step from `current` on a grid of side `size`.
pub fn next_position_from(current: Coordinates, size: usize, vertical: bool, forward: bool) -> (r:
    Coordinates)
    requires
        size >= 1,
        cord_in_bounds(current, size),
    ensures
        (r.0 as int, r.1 as int) == next_position_spec(
            (current.0 as int, current.1 as int),
            size as int,
            vertical,
            forward,
        ),
        cord_in_bounds(r, size),
{
    if size <= 1 {
        return current;
    }
    let move_col = if current.0 == 0 || current.0 == size - 1 {
        true
    } else if current.1 == 0 || current.1 == size - 1 {
        false
    } else {
        vertical
    };
    if move_col {
        let grow = if current.1 == 0 {
            true
        } else if current.1 == size - 1 {
            false
        } else {
            forward
        };
        if grow {
            (current.0, current.1 + 1)
        } else {
            (current.0, current.1 - 1)
        }
    } else {
        let grow = if current.0 == 0 {
            true
        } else if current.0 == size - 1 {
            false
        } else {
            forward
        };
        if grow {
            (current.0 + 1, current.1)
        } else {
            (current.0 - 1, current.1)
        }
    }
}

/// What decides a worker's next action and next position each tick. The
/// reference behaviour draws both uniformly at random; tests may script
/// them. An implementation never hands out `Wait` and never leaves the grid.
pub trait DecisionPolicy {
    /// The action for the coming tick.
    fn next_action(&mut self) -> (r: WorkerStatus)
        ensures
            r != WorkerStatus::Wait,
    ;

    /// The position a `Move` action leads to.
    fn next_position(&mut self, current: Coordinates, size: usize) -> (r: Coordinates)
        requires
            size >= 1,
            cord_in_bounds(current, size),
        ensures
            cord_in_bounds(r, size),
    ;
}

/// The reference policy: a uniform draw over the three actions, and a move
/// whose axis and direction are coin flips, biased inward at the edges.
pub struct RandomPolicy;

impl DecisionPolicy for RandomPolicy {
    fn next_action(&mut self) -> (r: WorkerStatus) {
        status_from_draw(rand_below(3))
    }

    fn next_position(&mut self, current: Coordinates, size: usize) -> (r: Coordinates) {
        next_position_from(current, size, rand_flip(), rand_flip())
    }
}

/// A deterministic policy for driving a worker through a known scenario:
/// actions and positions are read off two scripts; an exhausted action
/// script yields `Idle`, an exhausted or out-of-bounds position script
/// leaves the worker where it stands.
pub struct ScriptedPolicy {
    pub actions: Vec<WorkerStatus>,
    pub next_action_index: usize,
    pub positions: Vec<Coordinates>,
    pub next_position_index: usize,
}

impl ScriptedPolicy {
    /// A policy that follows the two scripts from their start.
    pub fn new(actions: Vec<WorkerStatus>, positions: Vec<Coordinates>) -> (r: ScriptedPolicy)
        ensures
            r.actions == actions,
            r.positions == positions,
            r.next_action_index == 0,
            r.next_position_index == 0,
    {
        ScriptedPolicy { actions, next_action_index: 0, positions, next_position_index: 0 }
    }
}

impl DecisionPolicy for ScriptedPolicy {
    fn next_action(&mut self) -> (r: WorkerStatus) {
        if self.next_action_index < self.actions.len() {
            let a = self.actions[self.next_action_index];
            self.next_action_index = self.next_action_index + 1;
            match a {
                WorkerStatus::Wait => WorkerStatus::Idle,
                other => other,
            }
        } else {
            WorkerStatus::Idle
        }
    }

    fn next_position(&mut self, current: Coordinates, size: usize) -> (r: Coordinates) {
        if self.next_position_index < self.positions.len() {
            let p = self.positions[self.next_position_index];
            self.next_position_index = self.next_position_index + 1;
            if p.0 < size && p.1 < size {
                p
            } else {
                current
            }
        } else {
            current
        }
    }
}

/// One agent: its identity, where it stands, what it still owes, and what it
/// has repaired so far.
pub struct Worker {
    pub id: usize,
    pub world_size: usize,
    pub cells_need_to_repair: usize,
    pub repaired_cells: usize,
    pub status: WorkerStatus,
    pub position: Coordinates,
}

impl Worker {
    /// A worker standing at `position` on a grid of side `world_size`, with
    /// nothing repaired yet and no action pending.
    pub fn new(
        id: usize,
        cells_need_to_repair: usize,
        world_size: usize,
        position: Coordinates,
    ) -> (w: Worker)
        requires
            cord_in_bounds(position, world_size),
        ensures
            w.id == id,
            w.world_size == world_size,
            w.cells_need_to_repair == cells_need_to_repair,
            w.repaired_cells == 0,
            w.status == WorkerStatus::Wait,
            w.position == position,
    {
        Worker {
            id,
            world_size,
            cells_need_to_repair,
            repaired_cells: 0,
            status: WorkerStatus::default(),
            position,
        }
    }

    /// The pending action.
    pub fn get_status(&self) -> (r: WorkerStatus)
        ensures
            r == self.status,
    {
        self.status
    }

    /// Draw the next action uniformly at random from the three non-neutral
    /// actions.
    pub fn generate_status(&mut self)
        ensures
            final(self).status != WorkerStatus::Wait,
            final(self).id == old(self).id,
            final(self).world_size == old(self).world_size,
            final(self).cells_need_to_repair == old(self).cells_need_to_repair,
            final(self).repaired_cells == old(self).repaired_cells,
            final(self).position == old(self).position,
    {
        self.status = status_from_draw(rand_below(3));
    }

    /// Take one random move step, biased inward at the grid's edges; the new
    /// position is always in bounds.
    pub fn move_next_position(&mut self)
        requires
            old(self).world_size >= 1,
            cord_in_bounds(old(self).position, old(self).world_size),
        ensures
            cord_in_bounds(final(self).position, final(self).world_size),
            exists|v: bool, f: bool|
                (final(self).position.0 as int, final(self).position.1 as int)
                    == next_position_spec(
                    (old(self).position.0 as int, old(self).position.1 as int),
                    old(self).world_size as int,
                    v,
                    f,
                ),
            final(self).id == old(self).id,
            final(self).world_size == old(self).world_size,
            final(self).cells_need_to_repair == old(self).cells_need_to_repair,
            final(self).repaired_cells == old(self).repaired_cells,
            final(self).status == old(self).status,
    {
        let vertical = rand_flip();
        let forward = rand_flip();
        self.position = next_position_from(self.position, self.world_size, vertical, forward);
    }

    /// True when the observed aggregate equals this worker's target.
    pub fn is_work_done(&self, all_repaired_cells: usize) -> (r: bool)
        ensures
            r == (self.cells_need_to_repair == all_repaired_cells),
    {
        self.cells_need_to_repair == all_repaired_cells
    }

    /// Run the worker's loop for at most `max_ticks` ticks: each tick the
    /// policy assigns the next action, the worker applies it against the
    /// grid, returns to `Wait`, and stops the instant the ledger sum at its
    /// current cell equals its target.
    ///
    /// The two quantified preconditions are machine limits on an otherwise
    /// arbitrary starting grid: this worker's recorded counts never exceed
    /// its current count, and no cell's ledger sum can be pushed past
    /// `usize::MAX` by this worker's remaining repairs.
    ///
    /// Returns whether the target was seen met; a `false` after a positive
    /// budget means the last look at the current cell's ledger sum missed
    /// the target.
    pub fn process_until_work_is_done<P: DecisionPolicy>(
        &mut self,
        world: &mut World,
        policy: &mut P,
        max_ticks: usize,
    ) -> (done: bool)
        requires
            old(world).wf(),
            old(self).world_size == old(world).size,
            cord_in_bounds(old(self).position, old(world).size),
            forall|i: int|
                0 <= i < old(world).cells@.len() ==> last_count(
                    (#[trigger] old(world).cells@[i]).notes@,
                    old(self).id,
                ) <= old(self).repaired_cells,
            forall|i: int|
                0 <= i < old(world).cells@.len() ==> ledger_sum(
                    (#[trigger] old(world).cells@[i]).notes@,
                ) - last_count(old(world).cells@[i].notes@, old(self).id) + old(
                    self,
                ).repaired_cells + broken_count(old(world).cells@) <= usize::MAX,
        ensures
            final(world).wf(),
            final(world).size == old(world).size,
            final(world).workers_count == old(world).workers_count,
            final(world).cells@.len() == old(world).cells@.len(),
            final(self).id == old(self).id,
            final(self).world_size == old(self).world_size,
            final(self).cells_need_to_repair == old(self).cells_need_to_repair,
            final(self).repaired_cells >= old(self).repaired_cells,
            cord_in_bounds(final(self).position, final(world).size),
            forall|i: int|
                0 <= i < old(world).cells@.len() ==> ((#[trigger] final(world).cells@[i]).is_broken
                    ==> old(world).cells@[i].is_broken),
            forall|i: int|
                0 <= i < old(world).cells@.len() ==> last_count(
                    (#[trigger] final(world).cells@[i]).notes@,
                    old(self).id,
                ) >= last_count(old(world).cells@[i].notes@, old(self).id),
            max_ticks > 0 ==> final(self).status == WorkerStatus::Wait,
            done ==> ledger_sum(
                final(world).cells@[final(world).spec_cell_index(final(self).position)].notes@,
            ) == final(self).cells_need_to_repair,
            !done && max_ticks > 0 ==> ledger_sum(
                final(world).cells@[final(world).spec_cell_index(final(self).position)].notes@,
            ) != final(self).cells_need_to_repair,
            max_ticks == 0 ==> !done && *final(self) == *old(self) && final(world).cells@ == old(
                world,
            ).cells@,
    {
        let mut ticks: usize = 0;
        let mut done = false;
        while !done && ticks < max_ticks
            invariant
                ticks <= max_ticks,
                world.wf(),
                world.size == old(world).size,
                world.workers_count == old(world).workers_count,
                world.cells@.len() == old(world).cells@.len(),
                self.id == old(self).id,
                self.world_size == old(self).world_size,
                self.world_size == world.size,
                self.cells_need_to_repair == old(self).cells_need_to_repair,
                self.repaired_cells >= old(self).repaired_cells,
                cord_in_bounds(self.position, world.size),
                self.repaired_cells + broken_count(world.cells@) == old(self).repaired_cells
                    + broken_count(old(world).cells@),
                forall|i: int|
                    0 <= i < world.cells@.len() ==> last_count(
                        (#[trigger] world.cells@[i]).notes@,
                        self.id,
                    ) <= self.repaired_cells,
                forall|i: int|
                    0 <= i < world.cells@.len() ==> ledger_sum(
                        (#[trigger] world.cells@[i]).notes@,
                    ) - last_count(world.cells@[i].notes@, self.id) == ledger_sum(
                        old(world).cells@[i].notes@,
                    ) - last_count(old(world).cells@[i].notes@, self.id),
                forall|i: int|
                    0 <= i < old(world).cells@.len() ==> ledger_sum(
                        (#[trigger] old(world).cells@[i]).notes@,
                    ) - last_count(old(world).cells@[i].notes@, self.id) + old(
                        self,
                    ).repaired_cells + broken_count(old(world).cells@) <= usize::MAX,
                forall|i: int|
                    0 <= i < world.cells@.len() ==> ((#[trigger] world.cells@[i]).is_broken ==> old(
                        world,
                    ).cells@[i].is_broken),
                forall|i: int|
                    0 <= i < world.cells@.len() ==> last_count(
                        (#[trigger] world.cells@[i]).notes@,
                        self.id,
                    ) >= last_count(old(world).cells@[i].notes@, self.id),
                ticks > 0 ==> self.status == WorkerStatus::Wait,
                done ==> ledger_sum(
                    world.cells@[world.spec_cell_index(self.position)].notes@,
                ) == self.cells_need_to_repair,
                !done && ticks > 0 ==> ledger_sum(
                    world.cells@[world.spec_cell_index(self.position)].notes@,
                ) != self.cells_need_to_repair,
                ticks == 0 ==> !done && *self == *old(self) && world.cells@ == old(world).cells@,
            decreases max_ticks - ticks,
        {
            self.status = policy.next_action();
            match self.status {
                WorkerStatus::Move => {
                    self.position = policy.next_position(self.position, self.world_size);
                    self.status = WorkerStatus::Wait;
                },
                WorkerStatus::Repair => {
                    let ghost pre_cells = world.cells@;
                    let ghost i = world.spec_cell_index(self.position);
                    proof {
                        world.lemma_cell_index_bound(self.position);
                        crate::world::lemma_last_count_le_tail_sum(
                            pre_cells[i].notes@,
                            0,
                            self.id,
                        );
                        crate::world::lemma_broken_count_nonneg(pre_cells);
                        if pre_cells[i].is_broken {
                            crate::world::lemma_broken_count_at(pre_cells, i);
                        }
                    }
                    let repair_outcome = world.repair_cell(
                        self.id,
                        self.repaired_cells,
                        self.position,
                    );
                    match repair_outcome {
                        Ok(new_count) => {
                            proof {
                                crate::world::lemma_ledger_push(
                                    pre_cells[i].notes@,
                                    self.id,
                                    new_count,
                                );
                                assert(world.cells@ =~= pre_cells.update(i, world.cells@[i]));
                                crate::world::lemma_broken_count_update(
                                    pre_cells,
                                    i,
                                    world.cells@[i],
                                );
                            }
                            self.repaired_cells = new_count;
                        },
                        Err(_) => {
                            proof {
                                assert(false);
                            }
                        },
                    }
                    self.status = WorkerStatus::Wait;
                },
                _ => {
                    self.status = WorkerStatus::Wait;
                },
            }
            proof {
                world.lemma_cell_index_bound(self.position);
                crate::world::lemma_last_count_le_tail_sum(
                    world.cells@[world.spec_cell_index(self.position)].notes@,
                    0,
                    self.id,
                );
                crate::world::lemma_broken_count_nonneg(world.cells@);
            }
            let observed = match world.get_repaired_cells_from_notes(self.position) {
                Ok(v) => v,
                Err(_) => {
                    proof {
                        assert(false);
                    }
                    0
                },
            };
            if self.is_work_done(observed) {
                done = true;
            }
            ticks = ticks + 1;
        }
        done
    }
}

} // verus!
