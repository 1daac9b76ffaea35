use vstd::prelude::*;
use crate::cell::Cell;
use crate::board::{Board, pos, all_cleared};
use crate::grid::{Grid, capacity};
use crate::flood::{after_flood, flood_ok};
use crate::chord::after_queries;
use crate::mine::TotalMine;
use crate::state::{Difficulty, GameState, get_difficulty, preset};

verus! {

/// What one update cycle leads to: a win once every cell is flagged or
/// revealed, a defeat when a mine or a wrong flag was opened, else nothing.
pub open spec fn cycle_outcome(cells: Seq<Cell>, w: u32, h: u32) -> Option<GameState> {
    let queried = after_queries(cells, w, h);
    if all_cleared(after_flood(queried, w, h)) {
        Some(GameState::Win)
    } else if !flood_ok(queried, w, h) {
        Some(GameState::Defeated)
    } else {
        None
    }
}

/// The cells after one update cycle.
pub open spec fn after_cycle(cells: Seq<Cell>, w: u32, h: u32) -> Seq<Cell> {
    after_flood(after_queries(cells, w, h), w, h)
}

/// Index of the last cell that asked to be opened, or -1.
pub open spec fn last_opening(cells: Seq<Cell>) -> int
    decreases cells.len(),
{
    if cells.len() == 0 {
        -1
    } else if cells.last().is_opening {
        cells.len() - 1
    } else {
        last_opening(cells.drop_last())
    }
}

pub proof fn lemma_last_opening(cells: Seq<Cell>)
    ensures
        -1 <= last_opening(cells) < cells.len(),
        last_opening(cells) >= 0 ==> cells[last_opening(cells)].is_opening,
        last_opening(cells) == -1 ==> forall|i: int|
            0 <= i < cells.len() ==> !(#[trigger] cells[i]).is_opening,
    decreases cells.len(),
{
    if cells.len() > 0 && !cells.last().is_opening {
        lemma_last_opening(cells.drop_last());
        assert forall|i: int| 0 <= i < cells.len() && last_opening(cells) == -1 implies !(
        #[trigger] cells[i]).is_opening by {
            if i < cells.len() - 1 {
                assert(cells.drop_last()[i] == cells[i]);
            }
        }
    }
}

/// A new board for `difficulty`: the preset's mines laid out at random, every
/// cell hidden. `mines` takes the preset's mine count.
pub fn init(difficulty: Difficulty, mines: &mut TotalMine) -> (r: Board)
    ensures
        r.wf(),
        r.planted(),
        (r.grid.width, r.grid.height, final(mines).0) == preset(difficulty),
        r.grid.mines().len() == if preset(difficulty).2 <= r.grid.width * r.grid.height {
            preset(difficulty).2 as int
        } else {
            r.grid.width * r.grid.height
        },
        forall|i: int| 0 <= i < r.cells@.len() ==> (#[trigger] r.cells@[i]).is_fresh(),
{
    let (width, height, num_mines) = get_difficulty(&difficulty);
    let mut grid = Grid::new();
    grid.init(width, height);
    mines.init(num_mines);
    grid.create_mine_positions(mines.0, None);
    Board::new(grid)
}

impl Board {
    /// One update cycle while playing: chord requests, then the flood open,
    /// then the end of the game if it came.
    pub fn update(&mut self) -> (r: Option<GameState>)
        requires
            old(self).wf(),
        ensures
            final(self).wf(),
            final(self).grid == old(self).grid,
            final(self).cells@ == after_cycle(old(self).cells@, old(self).width(), old(self).height()),
            r == cycle_outcome(old(self).cells@, old(self).width(), old(self).height()),
    {
        self.update_cells_query();
        let result = self.update_cells_open();
        if self.check_win() {
            Some(GameState::Win)
        } else if !result {
            Some(GameState::Defeated)
        } else {
            None
        }
    }

    /// While no cell has been opened yet: once one asks to be, the mines are
    /// laid out again with that cell kept free, and play begins.
    pub fn first_click(&mut self, mines: &TotalMine) -> (r: Option<GameState>)
        requires
            old(self).wf(),
        ensures
            final(self).wf(),
            final(self).grid.width == old(self).grid.width,
            final(self).grid.height == old(self).grid.height,
            r == if last_opening(old(self).cells@) >= 0 {
                Some(GameState::Playing)
            } else {
                None::<GameState>
            },
            r is None ==> final(self).cells@ == old(self).cells@ && final(self).grid == old(
                self,
            ).grid,
            r is Some ==> {
                let p = pos(old(self).cells@[last_opening(old(self).cells@)]);
                &&& final(self).planted()
                &&& !final(self).grid.mines().contains(p)
                &&& final(self).grid.mines().len() == if mines.0 <= capacity(
                    old(self).width(),
                    old(self).height(),
                    Some(p),
                ) {
                    mines.0 as int
                } else {
                    capacity(old(self).width(), old(self).height(), Some(p))
                }
                &&& forall|i: int|
                    0 <= i < old(self).cells@.len() ==> #[trigger] final(self).cells@[i] == (Cell {
                        is_mine: final(self).cells@[i].is_mine,
                        num_mines_around: final(self).cells@[i].num_mines_around,
                        ..old(self).cells@[i]
                    })
            },
    {
        let ghost orig = self.cells@;
        let n = self.cells.len();
        let mut last: Option<usize> = None;
        let mut i: usize = 0;
        while i < n
            invariant
                n == orig.len(),
                orig == self.cells@,
                0 <= i <= n,
                last == if last_opening(orig.take(i as int)) >= 0 {
                    Some(last_opening(orig.take(i as int)) as usize)
                } else {
                    None::<usize>
                },
            decreases n - i,
        {
            proof {
                assert(orig.take(i + 1).drop_last() =~= orig.take(i as int));
                lemma_last_opening(orig.take(i as int));
            }
            if self.cells[i].is_opening {
                last = Some(i);
            }
            i = i + 1;
        }
        proof {
            assert(orig.take(n as int) =~= orig);
            lemma_last_opening(orig);
        }
        match last {
            None => None,
            Some(index) => {
                let c = self.cells[index];
                self.grid.create_mine_positions(mines.0, Some((c.x, c.y)));
                self.plant_mines_cells();
                Some(GameState::Playing)
            },
        }
    }
}

} // verus!
