//! The shared grid: per-cell broken/repaired status and contribution ledgers.

use vstd::prelude::*;

verus! {

/// A grid position: `(row, col)`, each in `[0, size)`.
pub type Coordinates = (usize, usize);

/// One ledger record: `(worker id, that worker's repair count at the time of writing)`.
pub type Note = (usize, usize);

/// The errors a grid operation can surface.
///
/// `LockPoisoned` never arises in this sequential core; it is the fatal
/// error a synchronized deployment maps a poisoned per-cell lock to.
#[derive(Clone, Copy, Debug, PartialEq, Eq, Structural)]
pub enum WorldError {
    OutOfBounds,
    LockPoisoned,
}

/// One grid cell: a broken flag and the ledger of per-worker records.
pub struct Cell {
    pub is_broken: bool,
    pub notes: Vec<Note>,
}

/// True when no later record in `notes` carries the same worker id as the
/// record at `k`: the record at `k` is that worker's most recent entry.
pub open spec fn is_last_note(notes: Seq<Note>, k: int) -> bool {
    forall|j: int| k < j < notes.len() ==> (#[trigger] notes[j]).0 != notes[k].0
}

/// Sum, over the records at positions `k..`, of the counts that are some
/// worker's most recent entry in the whole of `notes`.
pub open spec fn tail_sum(notes: Seq<Note>, k: int) -> int
    decreases notes.len() - k,
{
    if k < 0 || k >= notes.len() {
        0
    } else {
        (if is_last_note(notes, k) {
            notes[k].1 as int
        } else {
            0
        }) + tail_sum(notes, k + 1)
    }
}

/// The ledger sum of a cell: over all distinct worker ids that ever wrote to
/// it, the sum of each worker's most recently recorded count.
pub open spec fn ledger_sum(notes: Seq<Note>) -> int {
    tail_sum(notes, 0)
}

/// The count at worker `id`'s most recent record within `notes[k..]`,
/// or 0 when that worker never wrote there.
pub open spec fn last_count_from(notes: Seq<Note>, k: int, id: usize) -> int
    decreases notes.len() - k,
{
    if k < 0 || k >= notes.len() {
        0
    } else if notes[k].0 == id && is_last_note(notes, k) {
        notes[k].1 as int
    } else {
        last_count_from(notes, k + 1, id)
    }
}

/// The count at worker `id`'s most recent record in `notes`, or 0.
pub open spec fn last_count(notes: Seq<Note>, id: usize) -> int {
    last_count_from(notes, 0, id)
}

pub proof fn lemma_tail_sum_nonneg(notes: Seq<Note>, k: int)
    ensures
        tail_sum(notes, k) >= 0,
    decreases notes.len() - k,
{
    if 0 <= k < notes.len() {
        lemma_tail_sum_nonneg(notes, k + 1);
    }
}

/// The terms of `tail_sum` are nonnegative, so the sum over a suffix is
/// no more than the sum over a longer suffix.
pub proof fn lemma_tail_sum_mono(notes: Seq<Note>, a: int, b: int)
    requires
        0 <= a <= b,
    ensures
        tail_sum(notes, a) >= tail_sum(notes, b),
    decreases b - a,
{
    if a < b {
        lemma_tail_sum_mono(notes, a + 1, b);
    }
}

/// A worker's most recent record is one of the ledger sum's terms, so it is
/// bounded by the sum.
pub proof fn lemma_last_count_le_tail_sum(notes: Seq<Note>, k: int, id: usize)
    ensures
        0 <= last_count_from(notes, k, id),
        last_count_from(notes, k, id) <= tail_sum(notes, k),
    decreases notes.len() - k,
{
    if 0 <= k < notes.len() {
        lemma_last_count_le_tail_sum(notes, k + 1, id);
        lemma_tail_sum_nonneg(notes, k + 1);
    }
}

proof fn lemma_is_last_note_push(notes: Seq<Note>, w: usize, r: usize, k: int)
    requires
        0 <= k < notes.len(),
    ensures
        is_last_note(notes.push((w, r)), k) == (is_last_note(notes, k) && notes[k].0 != w),
{
    let pushed = notes.push((w, r));
    assert(pushed[k] == notes[k]);
    if is_last_note(notes, k) && notes[k].0 != w {
        assert forall|j: int| k < j < pushed.len() implies (#[trigger] pushed[j]).0
            != pushed[k].0 by {
            if j < notes.len() {
                assert(pushed[j] == notes[j]);
            } else {
                assert(pushed[j] == (w, r));
            }
        }
    }
    if !is_last_note(notes, k) {
        let j = choose|j: int|
            k < j < notes.len() && (#[trigger] notes[j]).0 == notes[k].0;
        assert(pushed[j] == notes[j]);
        assert(!is_last_note(pushed, k));
    }
    if notes[k].0 == w {
        assert(pushed[notes.len() as int].0 == pushed[k].0);
        assert(!is_last_note(pushed, k));
    }
}

proof fn lemma_no_note_zero(notes: Seq<Note>, k: int, id: usize)
    requires
        forall|j: int| k <= j < notes.len() ==> (#[trigger] notes[j]).0 != id,
    ensures
        last_count_from(notes, k, id) == 0,
    decreases notes.len() - k,
{
    if 0 <= k < notes.len() {
        lemma_no_note_zero(notes, k + 1, id);
    }
}

proof fn lemma_last_count_push_same(notes: Seq<Note>, w: usize, r: usize, k: int)
    requires
        0 <= k <= notes.len(),
    ensures
        last_count_from(notes.push((w, r)), k, w) == r,
    decreases notes.len() - k,
{
    let pushed = notes.push((w, r));
    if k == notes.len() {
        assert(pushed[k] == (w, r));
        assert(is_last_note(pushed, k));
    } else {
        assert(pushed[k] == notes[k]);
        lemma_is_last_note_push(notes, w, r, k);
        lemma_last_count_push_same(notes, w, r, k + 1);
    }
}

proof fn lemma_last_count_push_other(notes: Seq<Note>, w: usize, r: usize, k: int, id: usize)
    requires
        0 <= k <= notes.len(),
        id != w,
    ensures
        last_count_from(notes.push((w, r)), k, id) == last_count_from(notes, k, id),
    decreases notes.len() - k,
{
    let pushed = notes.push((w, r));
    if k == notes.len() {
        assert(pushed[k].0 == w);
        lemma_no_note_zero(pushed, k + 1, id);
        lemma_no_note_zero(pushed, k, id);
    } else {
        assert(pushed[k] == notes[k]);
        lemma_is_last_note_push(notes, w, r, k);
        lemma_last_count_push_other(notes, w, r, k + 1, id);
    }
}

proof fn lemma_tail_sum_push(notes: Seq<Note>, w: usize, r: usize, k: int)
    requires
        0 <= k <= notes.len(),
    ensures
        tail_sum(notes.push((w, r)), k) == tail_sum(notes, k) - last_count_from(notes, k, w) + r,
    decreases notes.len() - k,
{
    let pushed = notes.push((w, r));
    if k == notes.len() {
        assert(pushed[k] == (w, r));
        assert(is_last_note(pushed, k));
        assert(tail_sum(pushed, k + 1) == 0);
    } else {
        assert(pushed[k] == notes[k]);
        lemma_tail_sum_push(notes, w, r, k + 1);
        lemma_is_last_note_push(notes, w, r, k);
        if notes[k].0 == w && is_last_note(notes, k) {
            lemma_no_note_zero(notes, k + 1, w);
        }
    }
}

/// How one appended ledger record changes a cell's ledger: the writing
/// worker's recorded count becomes the new value, every other worker's
/// record is untouched, and the ledger sum changes by the difference.
pub proof fn lemma_ledger_push(notes: Seq<Note>, w: usize, r: usize)
    ensures
        ledger_sum(notes.push((w, r))) == ledger_sum(notes) - last_count(notes, w) + r,
        last_count(notes.push((w, r)), w) == r,
        forall|id: usize| id != w ==> last_count(notes.push((w, r)), id) == last_count(notes, id),
{
    lemma_tail_sum_push(notes, w, r, 0);
    lemma_last_count_push_same(notes, w, r, 0);
    assert forall|id: usize| id != w implies last_count(notes.push((w, r)), id) == last_count(
        notes,
        id,
    ) by {
        lemma_last_count_push_other(notes, w, r, 0, id);
    }
}

/// The ghost image of a cell, for stating laws about repair sequences.
pub ghost struct CellModel {
    pub is_broken: bool,
    pub notes: Seq<Note>,
}

impl Cell {
    /// The ghost image of this cell.
    pub open spec fn model(self) -> CellModel {
        CellModel { is_broken: self.is_broken, notes: self.notes@ }
    }

    /// A fresh cell: not broken, with an empty ledger.
    pub fn new() -> (c: Cell)
        ensures
            !c.is_broken,
            c.notes@.len() == 0,
    {
        Cell { is_broken: false, notes: Vec::new() }
    }
}

/// The count a repair attempt hands back: incremented exactly when the cell
/// was still broken.
pub open spec fn repair_result_model(c: CellModel, count: usize) -> usize {
    if c.is_broken {
        (count + 1) as usize
    } else {
        count
    }
}

/// The cell after a repair attempt by `worker_id` holding `count`: the
/// broken flag is cleared and the handed-back count is recorded.
pub open spec fn repair_next_model(c: CellModel, worker_id: usize, count: usize) -> CellModel {
    CellModel { is_broken: false, notes: c.notes.push((worker_id, repair_result_model(c, count))) }
}

impl Cell {
    /// One repair attempt by `worker_id`, whose repair count so far is
    /// `count`: if the cell is broken, clear it and increment the count;
    /// either way, record the resulting count in the ledger and return it.
    pub fn apply_repair(&mut self, worker_id: usize, count: usize) -> (r: usize)
        requires
            old(self).is_broken ==> count < usize::MAX,
        ensures
            r == repair_result_model(old(self).model(), count),
            final(self).model() == repair_next_model(old(self).model(), worker_id, count),
            !final(self).is_broken,
            old(self).is_broken ==> r == count + 1,
            !old(self).is_broken ==> r == count && final(self).is_broken == old(self).is_broken,
            final(self).notes@ == old(self).notes@.push((worker_id, r)),
            ledger_sum(final(self).notes@) == ledger_sum(old(self).notes@) - last_count(
                old(self).notes@,
                worker_id,
            ) + r,
            last_count(final(self).notes@, worker_id) == r,
            forall|id: usize|
                id != worker_id ==> last_count(final(self).notes@, id) == last_count(
                    old(self).notes@,
                    id,
                ),
    {
        let mut r = count;
        if self.is_broken {
            self.is_broken = false;
            r = r + 1;
        }
        proof {
            lemma_ledger_push(self.notes@, worker_id, r);
        }
        self.notes.push((worker_id, r));
        r
    }

    /// The ledger sum at this cell: over all distinct worker ids that ever
    /// wrote to it, the sum of each worker's most recently recorded count.
    pub fn repaired_sum(&self) -> (r: usize)
        requires
            ledger_sum(self.notes@) <= usize::MAX,
        ensures
            r as int == ledger_sum(self.notes@),
    {
        let n = self.notes.len();
        let mut k = n;
        let mut sum: usize = 0;
        while k > 0
            invariant
                k <= n,
                n == self.notes@.len(),
                ledger_sum(self.notes@) <= usize::MAX,
                sum as int == tail_sum(self.notes@, k as int),
            decreases k,
        {
            k = k - 1;
            proof {
                lemma_tail_sum_mono(self.notes@, 0, k as int);
                lemma_tail_sum_nonneg(self.notes@, k + 1 as int);
            }
            if is_latest_note(&self.notes, k) {
                sum = sum + self.notes[k].1;
            }
        }
        sum
    }
}

/// How many cells of `cells` are broken.
pub open spec fn broken_count(cells: Seq<Cell>) -> int
    decreases cells.len(),
{
    if cells.len() == 0 {
        0
    } else {
        broken_count(cells.drop_last()) + if cells.last().is_broken {
            1int
        } else {
            0int
        }
    }
}

pub proof fn lemma_broken_count_nonneg(cells: Seq<Cell>)
    ensures
        broken_count(cells) >= 0,
    decreases cells.len(),
{
    if cells.len() > 0 {
        lemma_broken_count_nonneg(cells.drop_last());
    }
}

/// Replacing one cell changes the broken count by the difference of the two
/// cells' broken flags.
pub proof fn lemma_broken_count_update(cells: Seq<Cell>, i: int, c: Cell)
    requires
        0 <= i < cells.len(),
    ensures
        broken_count(cells.update(i, c)) == broken_count(cells) - (if cells[i].is_broken {
            1int
        } else {
            0int
        }) + (if c.is_broken {
            1int
        } else {
            0int
        }),
    decreases cells.len(),
{
    let updated = cells.update(i, c);
    if i == cells.len() - 1 {
        assert(updated.drop_last() =~= cells.drop_last());
    } else {
        assert(updated.drop_last() =~= cells.drop_last().update(i, c));
        lemma_broken_count_update(cells.drop_last(), i, c);
    }
}

/// A broken cell makes the broken count positive.
pub proof fn lemma_broken_count_at(cells: Seq<Cell>, i: int)
    requires
        0 <= i < cells.len(),
        cells[i].is_broken,
    ensures
        broken_count(cells) >= 1,
    decreases cells.len(),
{
    lemma_broken_count_nonneg(cells.drop_last());
    if i < cells.len() - 1 {
        lemma_broken_count_at(cells.drop_last(), i);
    }
}

/// True when `cord` addresses a cell of a grid with side length `size`.
pub open spec fn cord_in_bounds(cord: Coordinates, size: usize) -> bool {
    cord.0 < size && cord.1 < size
}

/// The grid: a square matrix of cells in row-major order.
pub struct World {
    pub size: usize,
    pub workers_count: usize,
    pub cells: Vec<Cell>,
}

impl World {
    /// The structural invariant: the cell vector covers the whole
    /// `size` x `size` matrix.
    pub open spec fn wf(self) -> bool {
        self.cells@.len() == self.size * self.size
    }

    /// A grid of `size` x `size` fresh cells, none broken, shared by
    /// `workers_count` workers.
    pub fn new(size: usize, workers_count: usize) -> (w: World)
        requires
            size * size <= usize::MAX,
        ensures
            w.wf(),
            w.size == size,
            w.workers_count == workers_count,
            forall|i: int|
                0 <= i < w.cells@.len() ==> !(#[trigger] w.cells@[i]).is_broken && w.cells@[i].notes@
                    =~= Seq::<Note>::empty(),
    {
        let cells_count = size * size;
        let mut cells: Vec<Cell> = Vec::with_capacity(cells_count);
        let mut k: usize = 0;
        while k < cells_count
            invariant
                k <= cells_count,
                cells@.len() == k,
                forall|i: int|
                    0 <= i < k ==> !(#[trigger] cells@[i]).is_broken && cells@[i].notes@ =~= Seq::<
                        Note,
                    >::empty(),
            decreases cells_count - k,
        {
            cells.push(Cell::new());
            k = k + 1;
        }
        World { size, workers_count, cells }
    }

    /// The row-major index of `cord`: `row * size + col`; out-of-bounds
    /// coordinates are rejected, never clamped.
    pub fn get_cell_index(&self, cord: Coordinates) -> (r: Result<usize, WorldError>)
        requires
            self.wf(),
        ensures
            cord_in_bounds(cord, self.size) ==> r is Ok && r->Ok_0 as int == self.spec_cell_index(
                cord,
            ) && r->Ok_0 < self.cells@.len(),
            !cord_in_bounds(cord, self.size) ==> r == Err::<usize, WorldError>(
                WorldError::OutOfBounds,
            ),
    {
        if cord.0 >= self.size || cord.1 >= self.size {
            return Err(WorldError::OutOfBounds);
        }
        let n = self.cells.len();
        proof {
            lemma_index_in_range(cord.0 as int, cord.1 as int, self.size as int);
            assert(cord.0 * self.size + cord.1 < n);
        }
        Ok(cord.0 * self.size + cord.1)
    }

    /// The row-major index of `cord`, as a ghost value.
    pub open spec fn spec_cell_index(self, cord: Coordinates) -> int {
        cord.0 * self.size + cord.1
    }

    /// An in-bounds coordinate addresses a cell of the vector.
    pub proof fn lemma_cell_index_bound(self, cord: Coordinates)
        requires
            self.wf(),
            cord_in_bounds(cord, self.size),
        ensures
            0 <= self.spec_cell_index(cord) < self.cells@.len(),
    {
        lemma_index_in_range(cord.0 as int, cord.1 as int, self.size as int);
    }

    /// Exclusive access to the cell at `index`.
    pub fn get_cell_mut(&mut self, index: usize) -> (cell: &mut Cell)
        requires
            index < old(self).cells@.len(),
        ensures
            *cell == old(self).cells@[index as int],
            final(self).cells@ == old(self).cells@.update(index as int, *final(cell)),
            final(self).size == old(self).size,
            final(self).workers_count == old(self).workers_count,
    {
        &mut self.cells[index]
    }

    /// One repair attempt by `worker_id`, whose repair count so far is
    /// `worker_repaired_cells`, against the cell at `cord`: mutates exactly
    /// that cell as `repair_next_model` says and returns the possibly
    /// incremented count; an out-of-bounds coordinate is rejected and
    /// nothing changes.
    pub fn repair_cell(
        &mut self,
        worker_id: usize,
        worker_repaired_cells: usize,
        cord: Coordinates,
    ) -> (r: Result<usize, WorldError>)
        requires
            old(self).wf(),
            cord_in_bounds(cord, old(self).size) && old(self).cells@[old(self).spec_cell_index(
                cord,
            )].is_broken ==> worker_repaired_cells < usize::MAX,
        ensures
            final(self).wf(),
            final(self).size == old(self).size,
            final(self).workers_count == old(self).workers_count,
            final(self).cells@.len() == old(self).cells@.len(),
            !cord_in_bounds(cord, old(self).size) ==> r == Err::<usize, WorldError>(
                WorldError::OutOfBounds,
            ) && *final(self) == *old(self),
            cord_in_bounds(cord, old(self).size) ==> {
                let i = old(self).spec_cell_index(cord);
                &&& r == Ok::<usize, WorldError>(
                    repair_result_model(old(self).cells@[i].model(), worker_repaired_cells),
                )
                &&& final(self).cells@[i].model() == repair_next_model(
                    old(self).cells@[i].model(),
                    worker_id,
                    worker_repaired_cells,
                )
                &&& forall|j: int|
                    0 <= j < old(self).cells@.len() && j != i ==> final(self).cells@[j] == old(
                        self,
                    ).cells@[j]
            },
    {
        let index = match self.get_cell_index(cord) {
            Ok(i) => i,
            Err(e) => {
                return Err(e);
            },
        };
        let cell = self.get_cell_mut(index);
        let new_repaired_cells = cell.apply_repair(worker_id, worker_repaired_cells);
        Ok(new_repaired_cells)
    }

    /// The ledger sum at the cell `cord`: across all distinct worker ids
    /// that ever wrote to that cell, the sum of each worker's most recently
    /// recorded count. This is a cell-scoped snapshot of global progress,
    /// not a whole-grid total.
    pub fn get_repaired_cells_from_notes(&self, cord: Coordinates) -> (r: Result<
        usize,
        WorldError,
    >)
        requires
            self.wf(),
            cord_in_bounds(cord, self.size) ==> ledger_sum(
                self.cells@[self.spec_cell_index(cord)].notes@,
            ) <= usize::MAX,
        ensures
            cord_in_bounds(cord, self.size) ==> r is Ok && r->Ok_0 as int == ledger_sum(
                self.cells@[self.spec_cell_index(cord)].notes@,
            ),
            !cord_in_bounds(cord, self.size) ==> r == Err::<usize, WorldError>(
                WorldError::OutOfBounds,
            ),
    {
        let index = match self.get_cell_index(cord) {
            Ok(i) => i,
            Err(e) => {
                return Err(e);
            },
        };
        let cell = &self.cells[index];
        Ok(cell.repaired_sum())
    }

    /// Setup-only: mark `count` distinct cells, drawn at random without
    /// replacement, as broken. Must run once, on a fresh grid, before any
    /// worker starts; it is not synchronized against concurrent repairs.
    pub fn generate_broken_cells(&mut self, count: usize)
        requires
            old(self).wf(),
            old(self).size >= 1,
            count <= old(self).cells@.len(),
            forall|i: int| 0 <= i < old(self).cells@.len() ==> !(#[trigger] old(self).cells@[i]).is_broken,
        ensures
            final(self).wf(),
            final(self).size == old(self).size,
            final(self).workers_count == old(self).workers_count,
            final(self).cells@.len() == old(self).cells@.len(),
            forall|i: int|
                0 <= i < old(self).cells@.len() ==> (#[trigger] final(self).cells@[i]).notes@ == old(
                    self,
                ).cells@[i].notes@,
            broken_count(final(self).cells@) == count,
    {
        let n = self.cells.len();
        let mut free: Vec<usize> = Vec::with_capacity(n);
        let mut k: usize = 0;
        while k < n
            invariant
                k <= n,
                free@.len() == k,
                forall|i: int| 0 <= i < k ==> free@[i] == i,
            decreases n - k,
        {
            free.push(k);
            k = k + 1;
        }
        proof {
            assert(free@.no_duplicates());
            assert forall|j: usize| j < n implies free@.contains(j) by {
                assert(free@[j as int] == j);
            }
            assert(broken_count(self.cells@) == 0) by {
                lemma_broken_count_all_clear(self.cells@);
            }
        }
        let ghost orig = *self;
        let mut chosen: usize = 0;
        while chosen < count
            invariant
                chosen <= count,
                count <= n,
                n == self.cells@.len(),
                self.wf(),
                self.size == orig.size,
                self.workers_count == orig.workers_count,
                self.cells@.len() == orig.cells@.len(),
                forall|i: int|
                    0 <= i < n ==> (#[trigger] self.cells@[i]).notes@ == orig.cells@[i].notes@,
                free@.no_duplicates(),
                forall|i: int| 0 <= i < free@.len() ==> (#[trigger] free@[i]) < n,
                forall|j: usize| j < n ==> ((#[trigger] self.cells@[j as int]).is_broken <==> !free@.contains(j)),
                broken_count(self.cells@) == chosen,
                free@.len() == n - chosen,
            decreases count - chosen,
        {
            let p = crate::rng::rand_below(free.len());
            let ghost old_free = free@;
            let target = free.swap_remove(p);
            proof {
                lemma_swap_remove_distinct(old_free, p as int);
                assert(old_free.contains(target));
                assert(!self.cells@[target as int].is_broken);
                lemma_broken_count_update(
                    self.cells@,
                    target as int,
                    Cell { is_broken: true, notes: self.cells@[target as int].notes },
                );
            }
            let cell = self.get_cell_mut(target);
            cell.is_broken = true;
            chosen = chosen + 1;
        }
    }
}

/// The cell after a whole sequence of repair attempts, each a pair of a
/// worker id and that worker's count at the time of its call.
pub open spec fn apply_repairs(c: CellModel, calls: Seq<(usize, usize)>) -> CellModel
    decreases calls.len(),
{
    if calls.len() == 0 {
        c
    } else {
        apply_repairs(repair_next_model(c, calls.first().0, calls.first().1), calls.drop_first())
    }
}

/// How many of the attempts in `calls` observe the cell broken, i.e. are the
/// one that transitions it from broken to repaired.
pub open spec fn repairs_observed(c: CellModel, calls: Seq<(usize, usize)>) -> int
    decreases calls.len(),
{
    if calls.len() == 0 {
        0
    } else {
        (if c.is_broken {
            1int
        } else {
            0int
        }) + repairs_observed(
            repair_next_model(c, calls.first().0, calls.first().1),
            calls.drop_first(),
        )
    }
}

/// Single-repair law: across however many repair attempts target one cell,
/// at most one observes the broken-to-repaired transition; all others find
/// the cell already repaired. On a cell that is not broken, none does.
pub proof fn lemma_single_repair(c: CellModel, calls: Seq<(usize, usize)>)
    ensures
        repairs_observed(c, calls) <= 1,
        !c.is_broken ==> repairs_observed(c, calls) == 0,
    decreases calls.len(),
{
    if calls.len() > 0 {
        lemma_single_repair(
            repair_next_model(c, calls.first().0, calls.first().1),
            calls.drop_first(),
        );
    }
}

/// Ledger monotonicity law: a repair attempt by a worker whose current count
/// is at least its last recorded count at that cell never lowers the record;
/// successive writes from one worker are non-decreasing.
pub proof fn lemma_ledger_monotonic(c: CellModel, worker_id: usize, count: usize)
    requires
        last_count(c.notes, worker_id) <= count,
        count < usize::MAX,
    ensures
        last_count(repair_next_model(c, worker_id, count).notes, worker_id) >= last_count(
            c.notes,
            worker_id,
        ),
        last_count(repair_next_model(c, worker_id, count).notes, worker_id)
            == repair_result_model(c, count),
{
    lemma_ledger_push(c.notes, worker_id, repair_result_model(c, count));
}

/// No-double-counting law: a worker that keeps attempting repairs on one
/// never-broken cell, always handing in the same count, never changes the
/// cell's broken status, and its ledger record stays at that count.
pub proof fn lemma_no_double_counting(c: CellModel, worker_id: usize, count: usize, n: nat)
    requires
        !c.is_broken,
    ensures
        apply_repairs(c, Seq::new(n, |i: int| (worker_id, count))).is_broken == c.is_broken,
        repairs_observed(c, Seq::new(n, |i: int| (worker_id, count))) == 0,
        n > 0 ==> last_count(
            apply_repairs(c, Seq::new(n, |i: int| (worker_id, count))).notes,
            worker_id,
        ) == count,
    decreases n,
{
    let calls = Seq::new(n, |i: int| (worker_id, count));
    if n > 0 {
        let c1 = repair_next_model(c, worker_id, count);
        assert(calls.drop_first() =~= Seq::new((n - 1) as nat, |i: int| (worker_id, count)));
        lemma_ledger_push(c.notes, worker_id, count);
        lemma_no_double_counting(c1, worker_id, count, (n - 1) as nat);
        if n == 1 {
            assert(apply_repairs(c, calls) == c1);
        }
    }
}

/// Termination-signal law: at a cell to which a single worker ever wrote,
/// the ledger sum is exactly that worker's most recent record; so a lone
/// worker whose last write at its cell recorded its target count sees the
/// termination condition met there.
pub proof fn lemma_single_worker_ledger(notes: Seq<Note>, worker_id: usize)
    requires
        notes.len() > 0,
        forall|j: int| 0 <= j < notes.len() ==> (#[trigger] notes[j]).0 == worker_id,
    ensures
        ledger_sum(notes) == notes.last().1,
        last_count(notes, worker_id) == notes.last().1,
{
    lemma_single_worker_tail(notes, worker_id, 0);
}

proof fn lemma_single_worker_tail(notes: Seq<Note>, worker_id: usize, k: int)
    requires
        0 <= k < notes.len(),
        forall|j: int| 0 <= j < notes.len() ==> (#[trigger] notes[j]).0 == worker_id,
    ensures
        tail_sum(notes, k) == notes.last().1,
        last_count_from(notes, k, worker_id) == notes.last().1,
    decreases notes.len() - k,
{
    if k == notes.len() - 1 {
        assert(is_last_note(notes, k));
        assert(tail_sum(notes, k + 1) == 0);
        assert(tail_sum(notes, k) == notes[k].1);
    } else {
        lemma_single_worker_tail(notes, worker_id, k + 1);
        assert(!is_last_note(notes, k)) by {
            assert(notes[k + 1].0 == notes[k].0);
        }
    }
}

/// A grid with no broken cell has a broken count of zero.
proof fn lemma_broken_count_all_clear(cells: Seq<Cell>)
    requires
        forall|i: int| 0 <= i < cells.len() ==> !(#[trigger] cells[i]).is_broken,
    ensures
        broken_count(cells) == 0,
    decreases cells.len(),
{
    if cells.len() > 0 {
        lemma_broken_count_all_clear(cells.drop_last());
    }
}

/// Swap-removing position `p` from a duplicate-free sequence keeps it
/// duplicate-free and removes exactly the value that stood at `p`.
proof fn lemma_swap_remove_distinct(s: Seq<usize>, p: int)
    requires
        0 <= p < s.len(),
        s.no_duplicates(),
    ensures
        (s.update(p, s.last()).drop_last()).no_duplicates(),
        forall|v: usize|
            (s.update(p, s.last()).drop_last()).contains(v) <==> (s.contains(v) && v != s[p]),
{
    let t = s.update(p, s.last()).drop_last();
    assert(t.len() == s.len() - 1);
    assert(forall|i: int| 0 <= i < t.len() ==> t[i] == (if i == p { s.last() } else { s[i] }));
    assert forall|v: usize| t.contains(v) implies (s.contains(v) && v != s[p]) by {
        let i = choose|i: int| 0 <= i < t.len() && t[i] == v;
        if i == p {
            assert(s[s.len() - 1] == v);
        } else {
            assert(s[i] == v);
        }
    }
    assert forall|v: usize| s.contains(v) && v != s[p] implies t.contains(v) by {
        let q = choose|q: int| 0 <= q < s.len() && s[q] == v;
        if q < s.len() - 1 {
            assert(t[q] == v);
        } else {
            assert(p < s.len() - 1);
            assert(t[p] == v);
        }
    }
}

/// In-bounds coordinates index into the `size * size` cell vector.
proof fn lemma_index_in_range(row: int, col: int, size: int)
    requires
        0 <= row < size,
        0 <= col < size,
    ensures
        row * size + col < size * size,
{
    assert(row * size + col < (row + 1) * size <= size * size) by (nonlinear_arith)
        requires
            0 <= row < size,
            0 <= col < size,
    ;
}

/// True when no record after position `k` carries the same worker id.
fn is_latest_note(notes: &Vec<Note>, k: usize) -> (r: bool)
    requires
        k < notes@.len(),
    ensures
        r == is_last_note(notes@, k as int),
{
    let n = notes.len();
    let mut j = k + 1;
    while j < n
        invariant
            k < j <= n,
            n == notes@.len(),
            forall|t: int| k < t < j ==> (#[trigger] notes@[t]).0 != notes@[k as int].0,
        decreases n - j,
    {
        if notes[j].0 == notes[k].0 {
            return false;
        }
        j = j + 1;
    }
    true
}

} // verus!
