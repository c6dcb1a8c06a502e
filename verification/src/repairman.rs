//! A standalone repair agent that tracks its own tally and wanders freely,
//! with no grid to consult: the precursor of the grid-backed worker.

use vstd::prelude::*;

use crate::rng::{rand_below, rand_flip};
use crate::world::Coordinates;

verus! {

/// What a repairman does on one tick; `Repair` is its entry state.
#[derive(Clone, Copy, Debug, PartialEq, Eq, Structural)]
pub enum RepairmanStatus {
    Idle,
    Move,
    Repair,
}

impl Default for RepairmanStatus {
    /// The entry state.
    fn default() -> (r: RepairmanStatus)
        ensures
            r == RepairmanStatus::Repair,
    {
        RepairmanStatus::Repair
    }
}

/// The action a draw below 3 selects for a repairman.
pub open spec fn repairman_status_from_draw_spec(draw: usize) -> RepairmanStatus {
    if draw == 0 {
        RepairmanStatus::Idle
    } else if draw == 1 {
        RepairmanStatus::Move
    } else {
        RepairmanStatus::Repair
    }
}

/// Map a random draw to the action it selects.
pub fn repairman_status_from_draw(draw: usize) -> (r: RepairmanStatus)
    ensures
        r == repairman_status_from_draw_spec(draw),
{
    match draw {
        0 => RepairmanStatus::Idle,
        1 => RepairmanStatus::Move,
        _ => RepairmanStatus::Repair,
    }
}

/// Where one unconstrained move step lands: one cell along one axis, the
/// axis and direction given by the two draws.
pub open spec fn free_move_spec(pos: (int, int), vertical: bool, forward: bool) -> (int, int) {
    if vertical {
        (pos.0, if forward {
            pos.1 + 1
        } else {
            pos.1 - 1
        })
    } else {
        ((if forward {
            pos.0 + 1
        } else {
            pos.0 - 1
        }), pos.1)
    }
}

/// A repair agent with a target, a tally, a pending action and a position.
pub struct Repairman {
    pub cells_need_to_repair: usize,
    pub cells_repaird: usize,
    pub status: RepairmanStatus,
    pub position: Coordinates,
}

impl Repairman {
    /// A repairman at `position` owing `cells_need_to_repair` repairs, with
    /// nothing repaired yet and the entry action pending.
    pub fn new(cells_need_to_repair: usize, position: Coordinates) -> (r: Repairman)
        ensures
            r.cells_need_to_repair == cells_need_to_repair,
            r.cells_repaird == 0,
            r.status == RepairmanStatus::Repair,
            r.position == position,
    {
        Repairman {
            cells_need_to_repair,
            cells_repaird: 0,
            status: RepairmanStatus::default(),
            position,
        }
    }

    /// The pending action.
    pub fn get_status(&self) -> (r: RepairmanStatus)
        ensures
            r == self.status,
    {
        self.status
    }

    /// Draw the next action uniformly at random.
    pub fn generate_status(&mut self)
        ensures
            final(self).cells_need_to_repair == old(self).cells_need_to_repair,
            final(self).cells_repaird == old(self).cells_repaird,
            final(self).position == old(self).position,
    {
        self.status = repairman_status_from_draw(rand_below(3));
    }

    /// True when the tally has reached the target.
    pub fn is_work_done(&self) -> (r: bool)
        ensures
            r == (self.cells_need_to_repair == self.cells_repaird),
    {
        self.cells_need_to_repair == self.cells_repaird
    }

    /// Take one unconstrained move step: one cell along one random axis in
    /// one random direction. The position must lie strictly inside the
    /// coordinate space, since nothing here clamps the walk.
    pub fn next_move(&mut self)
        requires
            1 <= old(self).position.0 < usize::MAX,
            1 <= old(self).position.1 < usize::MAX,
        ensures
            exists|v: bool, f: bool|
                (final(self).position.0 as int, final(self).position.1 as int) == free_move_spec(
                    (old(self).position.0 as int, old(self).position.1 as int),
                    v,
                    f,
                ),
            final(self).cells_need_to_repair == old(self).cells_need_to_repair,
            final(self).cells_repaird == old(self).cells_repaird,
            final(self).status == old(self).status,
    {
        let vertical = rand_flip();
        let forward = rand_flip();
        let p = self.position;
        self.position = if vertical {
            if forward {
                (p.0, p.1 + 1)
            } else {
                (p.0, p.1 - 1)
            }
        } else {
            if forward {
                (p.0 + 1, p.1)
            } else {
                (p.0 - 1, p.1)
            }
        };
        proof {
            assert((self.position.0 as int, self.position.1 as int) == free_move_spec(
                (p.0 as int, p.1 as int),
                vertical,
                forward,
            ));
        }
    }
}

} // verus!
