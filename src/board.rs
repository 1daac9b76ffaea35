use vstd::prelude::*;
use crate::cell::{Cell, CellState};
use crate::grid::{Grid, in_bounds, mines_around, index_of, MAX_CELLS};

verus! {

pub open spec fn pos(c: Cell) -> (u32, u32) {
    (c.x, c.y)
}

pub open spec fn cell_at(cells: Seq<Cell>, h: u32, p: (u32, u32)) -> Cell {
    cells[index_of(h, p)]
}

/// One cell per position, stored column by column.
pub open spec fn cells_wf(cells: Seq<Cell>, w: u32, h: u32) -> bool {
    &&& 1 <= w
    &&& 1 <= h
    &&& w * h <= MAX_CELLS
    &&& cells.len() == w * h
    &&& forall|i: int|
        0 <= i < cells.len() ==> {
            &&& in_bounds(w, h, pos(#[trigger] cells[i]))
            &&& index_of(h, pos(cells[i])) == i
            &&& cells[i].num_mines_around <= 8
        }
}

/// The cells agree with the mine layout `mines`.
pub open spec fn cells_planted(cells: Seq<Cell>, w: u32, h: u32, mines: Set<(u32, u32)>) -> bool {
    forall|i: int|
        0 <= i < cells.len() ==> {
            &&& (#[trigger] cells[i]).is_mine == mines.contains(pos(cells[i]))
            &&& cells[i].num_mines_around == mines_around(w, h, mines, pos(cells[i]))
        }
}

/// Every cell is flagged or revealed.
pub open spec fn all_cleared(cells: Seq<Cell>) -> bool {
    forall|i: int|
        0 <= i < cells.len() ==> (#[trigger] cells[i]).state == CellState::Flagged || cells[i].state
            == CellState::Revealed
}

pub open spec fn is_flag(c: Cell) -> bool {
    c.state == CellState::Flagged || c.state == CellState::WrongFlagged
}

/// Number of cells that carry a flag, right or wrong.
pub open spec fn flag_count(cells: Seq<Cell>) -> nat
    decreases cells.len(),
{
    if cells.len() == 0 {
        0
    } else {
        flag_count(cells.drop_last()) + if is_flag(cells.last()) {
            1nat
        } else {
            0nat
        }
    }
}

pub proof fn lemma_flag_count_bound(cells: Seq<Cell>)
    ensures
        flag_count(cells) <= cells.len(),
    decreases cells.len(),
{
    if cells.len() > 0 {
        lemma_flag_count_bound(cells.drop_last());
    }
}

/// The cells after the primary button is held over `target` (over no cell
/// when `None`).
pub open spec fn pressed_at(cells: Seq<Cell>, target: Option<(u32, u32)>) -> Seq<Cell> {
    cells.map_values(
        |c: Cell|
            if target == Some(pos(c)) {
                c.after_left_pressed()
            } else {
                c.after_left_out()
            },
    )
}

/// The cells after the primary button is released over `target`.
pub open spec fn released_at(cells: Seq<Cell>, target: Option<(u32, u32)>) -> Seq<Cell> {
    cells.map_values(
        |c: Cell|
            if target == Some(pos(c)) {
                c.after_left_released()
            } else {
                c
            },
    )
}

/// The cells after the secondary button goes down over `target`.
pub open spec fn flag_toggled_at(cells: Seq<Cell>, target: Option<(u32, u32)>) -> Seq<Cell> {
    cells.map_values(
        |c: Cell|
            if target == Some(pos(c)) {
                c.after_flag_toggle()
            } else {
                c
            },
    )
}

/// Cells and grid of one game.
pub struct Board {
    pub grid: Grid,
    pub cells: Vec<Cell>,
}

impl Board {
    pub open spec fn width(&self) -> u32 {
        self.grid.width
    }

    pub open spec fn height(&self) -> u32 {
        self.grid.height
    }

    pub open spec fn wf(&self) -> bool {
        &&& self.grid.wf()
        &&& cells_wf(self.cells@, self.grid.width, self.grid.height)
    }

    pub open spec fn planted(&self) -> bool {
        cells_planted(self.cells@, self.grid.width, self.grid.height, self.grid.mines())
    }

    /// One hidden cell for every position of `grid`, carrying its mine data.
    pub fn new(grid: Grid) -> (r: Board)
        requires
            grid.wf(),
        ensures
            r.wf(),
            r.planted(),
            r.grid == grid,
            forall|i: int|
                0 <= i < r.cells@.len() ==> (#[trigger] r.cells@[i]).is_fresh(),
    {
        let width = grid.width;
        let height = grid.height;
        let mut cells: Vec<Cell> = Vec::new();
        let mut x: u32 = 1;
        proof {
            assert(width <= width * height && height <= width * height) by (nonlinear_arith)
                requires
                    1 <= height,
                    1 <= width,
            ;
        }
        while x <= width
            invariant
                grid.wf(),
                width == grid.width,
                height == grid.height,
                1 <= x <= width + 1,
                width <= MAX_CELLS,
                height <= MAX_CELLS,
                cells@.len() == (x - 1) * height,
                forall|i: int|
                    0 <= i < cells@.len() ==> {
                        &&& in_bounds(width, height, pos(#[trigger] cells@[i]))
                        &&& index_of(height, pos(cells@[i])) == i
                        &&& cells@[i].num_mines_around <= 8
                        &&& cells@[i].is_mine == grid.mines().contains(pos(cells@[i]))
                        &&& cells@[i].num_mines_around == mines_around(
                            width,
                            height,
                            grid.mines(),
                            pos(cells@[i]),
                        )
                        &&& cells@[i].is_fresh()
                    },
            decreases width + 1 - x,
        {
            let mut y: u32 = 1;
            proof {
                assert((x - 1) * height + height == x * height) by (nonlinear_arith);
            }
            while y <= height
                invariant
                    grid.wf(),
                    width == grid.width,
                    height == grid.height,
                    1 <= x <= width,
                    width <= MAX_CELLS,
                    height <= MAX_CELLS,
                height <= MAX_CELLS,
                    1 <= y <= height + 1,
                    (x - 1) * height + height == x * height,
                    cells@.len() == (x - 1) * height + (y - 1),
                    forall|i: int|
                        0 <= i < cells@.len() ==> {
                            &&& in_bounds(width, height, pos(#[trigger] cells@[i]))
                            &&& index_of(height, pos(cells@[i])) == i
                            &&& cells@[i].num_mines_around <= 8
                            &&& cells@[i].is_mine == grid.mines().contains(pos(cells@[i]))
                            &&& cells@[i].num_mines_around == mines_around(
                                width,
                                height,
                                grid.mines(),
                                pos(cells@[i]),
                            )
                            &&& cells@[i].is_fresh()
                        },
                decreases height + 1 - y,
            {
                let is_mine = grid.is_mine(x, y);
                let num_mines_around = grid.get_num_mines_around(x, y);
                cells.push(Cell::new(x, y, is_mine, num_mines_around));
                y = y + 1;
            }
            x = x + 1;
        }
        proof {
            assert((x - 1) * height == width * height);
        }
        Board { grid, cells }
    }

    /// Copies the grid's mine layout into every cell.
    pub fn plant_mines_cells(&mut self)
        requires
            old(self).wf(),
        ensures
            final(self).wf(),
            final(self).planted(),
            final(self).grid == old(self).grid,
            final(self).cells@.len() == old(self).cells@.len(),
            forall|i: int|
                0 <= i < old(self).cells@.len() ==> #[trigger] final(self).cells@[i] == (Cell {
                    is_mine: final(self).cells@[i].is_mine,
                    num_mines_around: final(self).cells@[i].num_mines_around,
                    ..old(self).cells@[i]
                }),
    {
        let n = self.cells.len();
        let mut i: usize = 0;
        while i < n
            invariant
                old(self).wf(),
                n == old(self).cells@.len(),
                self.grid == old(self).grid,
                self.cells@.len() == n,
                0 <= i <= n,
                forall|j: int|
                    i <= j < n ==> #[trigger] self.cells@[j] == old(self).cells@[j],
                forall|j: int|
                    0 <= j < i ==> #[trigger] self.cells@[j] == (Cell {
                        is_mine: self.cells@[j].is_mine,
                        num_mines_around: self.cells@[j].num_mines_around,
                        ..old(self).cells@[j]
                    }),
                forall|j: int|
                    0 <= j < i ==> (#[trigger] self.cells@[j]).is_mine
                        == old(self).grid.mines().contains(pos(old(self).cells@[j]))
                        && self.cells@[j].num_mines_around == mines_around(
                        old(self).grid.width,
                        old(self).grid.height,
                        old(self).grid.mines(),
                        pos(old(self).cells@[j]),
                    ) && self.cells@[j].num_mines_around <= 8,
            decreases n - i,
        {
            let mut c = self.cells[i];
            let is_mine = self.grid.is_mine(c.x, c.y);
            let num_mines_around = self.grid.get_num_mines_around(c.x, c.y);
            c.change_mine(is_mine, num_mines_around);
            self.cells.set(i, c);
            i = i + 1;
        }
    }

    /// Every cell back to hidden, with no pending press, opening or chord.
    pub fn reset(&mut self)
        requires
            old(self).wf(),
        ensures
            final(self).wf(),
            final(self).grid == old(self).grid,
            final(self).cells@.len() == old(self).cells@.len(),
            forall|i: int|
                0 <= i < old(self).cells@.len() ==> #[trigger] final(self).cells@[i]
                    == old(self).cells@[i].after_reset(),
    {
        let n = self.cells.len();
        let mut i: usize = 0;
        while i < n
            invariant
                old(self).wf(),
                n == old(self).cells@.len(),
                self.grid == old(self).grid,
                self.cells@.len() == n,
                0 <= i <= n,
                forall|j: int| i <= j < n ==> #[trigger] self.cells@[j] == old(self).cells@[j],
                forall|j: int|
                    0 <= j < i ==> #[trigger] self.cells@[j] == old(self).cells@[j].after_reset(),
            decreases n - i,
        {
            let mut c = self.cells[i];
            c.reset();
            self.cells.set(i, c);
            i = i + 1;
        }
    }

    /// Shows every hidden mine; used once a game is lost.
    pub fn bomb(&mut self)
        requires
            old(self).wf(),
        ensures
            final(self).wf(),
            final(self).grid == old(self).grid,
            final(self).cells@.len() == old(self).cells@.len(),
            forall|i: int|
                0 <= i < old(self).cells@.len() ==> #[trigger] final(self).cells@[i]
                    == old(self).cells@[i].after_bomb(),
    {
        let n = self.cells.len();
        let mut i: usize = 0;
        while i < n
            invariant
                old(self).wf(),
                n == old(self).cells@.len(),
                self.grid == old(self).grid,
                self.cells@.len() == n,
                0 <= i <= n,
                forall|j: int| i <= j < n ==> #[trigger] self.cells@[j] == old(self).cells@[j],
                forall|j: int|
                    0 <= j < i ==> #[trigger] self.cells@[j] == old(self).cells@[j].after_bomb(),
            decreases n - i,
        {
            let mut c = self.cells[i];
            c.bomb();
            self.cells.set(i, c);
            i = i + 1;
        }
    }

    /// The primary button is held, over the cell at `target` if any: that
    /// cell is pressed, every other one sees the button leave.
    pub fn left_pressed_at(&mut self, target: Option<(u32, u32)>)
        requires
            old(self).wf(),
        ensures
            final(self).wf(),
            final(self).grid == old(self).grid,
            final(self).cells@.len() == old(self).cells@.len(),
            final(self).cells@ == pressed_at(old(self).cells@, target),
    {
        let n = self.cells.len();
        let mut i: usize = 0;
        while i < n
            invariant
                old(self).wf(),
                n == old(self).cells@.len(),
                self.grid == old(self).grid,
                self.cells@.len() == n,
                0 <= i <= n,
                forall|j: int| i <= j < n ==> #[trigger] self.cells@[j] == old(self).cells@[j],
                forall|j: int|
                    0 <= j < i ==> #[trigger] self.cells@[j] == if target == Some(
                        pos(old(self).cells@[j]),
                    ) {
                        old(self).cells@[j].after_left_pressed()
                    } else {
                        old(self).cells@[j].after_left_out()
                    },
            decreases n - i,
        {
            let mut c = self.cells[i];
            let inside = match target {
                Some((x, y)) => c.x == x && c.y == y,
                None => false,
            };
            if inside {
                if !c.is_left_pressed {
                    c.left_pressed();
                }
            } else {
                if c.is_left_pressed {
                    c.left_out();
                }
            }
            self.cells.set(i, c);
            i = i + 1;
        }
        proof {
            assert(self.cells@ =~= pressed_at(old(self).cells@, target));
        }
    }

    /// The primary button was released over the cell at `target`.
    pub fn left_released_at(&mut self, target: Option<(u32, u32)>)
        requires
            old(self).wf(),
        ensures
            final(self).wf(),
            final(self).grid == old(self).grid,
            final(self).cells@.len() == old(self).cells@.len(),
            final(self).cells@ == released_at(old(self).cells@, target),
    {
        let n = self.cells.len();
        let mut i: usize = 0;
        while i < n
            invariant
                old(self).wf(),
                n == old(self).cells@.len(),
                self.grid == old(self).grid,
                self.cells@.len() == n,
                0 <= i <= n,
                forall|j: int| i <= j < n ==> #[trigger] self.cells@[j] == old(self).cells@[j],
                forall|j: int|
                    0 <= j < i ==> #[trigger] self.cells@[j] == if target == Some(
                        pos(old(self).cells@[j]),
                    ) {
                        old(self).cells@[j].after_left_released()
                    } else {
                        old(self).cells@[j]
                    },
            decreases n - i,
        {
            let mut c = self.cells[i];
            let inside = match target {
                Some((x, y)) => c.x == x && c.y == y,
                None => false,
            };
            if inside && c.is_left_pressed {
                c.left_released();
            }
            self.cells.set(i, c);
            i = i + 1;
        }
        proof {
            assert(self.cells@ =~= released_at(old(self).cells@, target));
        }
    }

    /// The secondary button went down over the cell at `target`.
    pub fn right_just_pressed_at(&mut self, target: Option<(u32, u32)>)
        requires
            old(self).wf(),
        ensures
            final(self).wf(),
            final(self).grid == old(self).grid,
            final(self).cells@.len() == old(self).cells@.len(),
            final(self).cells@ == flag_toggled_at(old(self).cells@, target),
    {
        let n = self.cells.len();
        let mut i: usize = 0;
        while i < n
            invariant
                old(self).wf(),
                n == old(self).cells@.len(),
                self.grid == old(self).grid,
                self.cells@.len() == n,
                0 <= i <= n,
                forall|j: int| i <= j < n ==> #[trigger] self.cells@[j] == old(self).cells@[j],
                forall|j: int|
                    0 <= j < i ==> #[trigger] self.cells@[j] == if target == Some(
                        pos(old(self).cells@[j]),
                    ) {
                        old(self).cells@[j].after_flag_toggle()
                    } else {
                        old(self).cells@[j]
                    },
            decreases n - i,
        {
            let mut c = self.cells[i];
            let inside = match target {
                Some((x, y)) => c.x == x && c.y == y,
                None => false,
            };
            if inside {
                c.right_just_pressed();
            }
            self.cells.set(i, c);
            i = i + 1;
        }
        proof {
            assert(self.cells@ =~= flag_toggled_at(old(self).cells@, target));
        }
    }

    /// Whether every cell is flagged or revealed.
    pub fn check_win(&self) -> (r: bool)
        ensures
            r == all_cleared(self.cells@),
    {
        let mut i: usize = 0;
        while i < self.cells.len()
            invariant
                0 <= i <= self.cells@.len(),
                forall|j: int|
                    0 <= j < i ==> (#[trigger] self.cells@[j]).state == CellState::Flagged
                        || self.cells@[j].state == CellState::Revealed,
            decreases self.cells@.len() - i,
        {
            let state = self.cells[i].state;
            if !(state == CellState::Flagged || state == CellState::Revealed) {
                return false;
            }
            i = i + 1;
        }
        true
    }

    /// Number of flagged cells, wrong flags included.
    pub fn count_flags(&self) -> (r: u32)
        requires
            self.wf(),
        ensures
            r == flag_count(self.cells@),
    {
        let n = self.cells.len();
        let mut count: u32 = 0;
        let mut i: usize = 0;
        while i < n
            invariant
                n == self.cells@.len(),
                n <= MAX_CELLS,
                0 <= i <= n,
                count == flag_count(self.cells@.take(i as int)),
                count <= i,
            decreases n - i,
        {
            proof {
                assert(self.cells@.take(i + 1).drop_last() =~= self.cells@.take(i as int));
            }
            let state = self.cells[i].state;
            if state == CellState::Flagged || state == CellState::WrongFlagged {
                count = count + 1;
            }
            i = i + 1;
        }
        proof {
            assert(self.cells@.take(n as int) =~= self.cells@);
        }
        count
    }

    /// Sprite index of every cell, in board order.
    pub fn texture_indices(&self) -> (r: Vec<u32>)
        requires
            self.wf(),
        ensures
            r@.len() == self.cells@.len(),
            forall|i: int| 0 <= i < r@.len() ==> r@[i] == #[trigger] self.cells@[i].texture_index(),
    {
        let mut r: Vec<u32> = Vec::new();
        let mut i: usize = 0;
        while i < self.cells.len()
            invariant
                self.wf(),
                0 <= i <= self.cells@.len(),
                r@.len() == i,
                forall|j: int| 0 <= j < i ==> r@[j] == #[trigger] self.cells@[j].texture_index(),
            decreases self.cells@.len() - i,
        {
            r.push(self.cells[i].get_texture_index());
            i = i + 1;
        }
        r
    }
}

} // verus!
