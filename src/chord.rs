use vstd::prelude::*;
use crate::cell::{Cell, CellState, QueryState};
use crate::board::{Board, pos, cell_at};
use crate::grid::{in_bounds, adjacent, neighbor_set, lemma_count_step, lemma_index_in_range};
use crate::flood::lemma_pos_index;

verus! {

/// What a chord does to one neighbor of its source.
#[derive(PartialEq, Eq, Structural, Clone, Copy, Debug)]
pub enum Touch {
    /// Shows a hidden neighbor as pressed.
    Preview,
    /// Takes back a preview the user is not holding.
    Unpreview,
    /// Ends the preview; with `true`, pressed and flagged neighbors are also
    /// marked for opening.
    Chord(bool),
}

pub open spec fn touched(c: Cell, kind: Touch) -> Cell {
    match kind {
        Touch::Preview => if c.state == CellState::Hidden {
            Cell { state: CellState::Pressed, ..c }
        } else {
            c
        },
        Touch::Unpreview => if c.state == CellState::Pressed && !c.is_left_pressed {
            Cell { state: CellState::Hidden, ..c }
        } else {
            c
        },
        Touch::Chord(open_others) => if c.state == CellState::Pressed {
            Cell { state: CellState::Hidden, is_opening: c.is_opening || open_others, ..c }
        } else if c.state == CellState::Flagged {
            Cell { is_opening: c.is_opening || open_others, ..c }
        } else {
            c
        },
    }
}

/// `cells` with `kind` applied to the cells at the positions in `qs`.
pub open spec fn touch_at(cells: Seq<Cell>, qs: Set<(u32, u32)>, kind: Touch) -> Seq<Cell> {
    cells.map_values(|c: Cell| if qs.contains(pos(c)) { touched(c, kind) } else { c })
}

pub open spec fn flag_set(cells: Seq<Cell>, w: u32, h: u32) -> Set<(u32, u32)> {
    Set::new(|p: (u32, u32)| in_bounds(w, h, p) && cell_at(cells, h, p).state == CellState::Flagged)
}

/// Number of flagged cells around `p`.
pub open spec fn flags_around(cells: Seq<Cell>, w: u32, h: u32, p: (u32, u32)) -> nat {
    neighbor_set(w, h, p).intersect(flag_set(cells, w, h)).len()
}

/// Chord preview around the cell at index `s`.
pub open spec fn querying_step(cells: Seq<Cell>, w: u32, h: u32, s: int) -> Seq<Cell> {
    if cells[s].is_chord_source() {
        touch_at(cells, neighbor_set(w, h, pos(cells[s])), Touch::Preview)
    } else {
        cells
    }
}

/// Chord preview taken back around the cell at index `s`.
pub open spec fn querying_out_step(cells: Seq<Cell>, w: u32, h: u32, s: int) -> Seq<Cell> {
    if cells[s].is_chord_source() {
        touch_at(cells, neighbor_set(w, h, pos(cells[s])), Touch::Unpreview)
    } else {
        cells
    }
}

/// Chord released on the cell at index `s`: its neighbors open when the
/// flags around it match its number.
pub open spec fn querying_done_step(cells: Seq<Cell>, w: u32, h: u32, s: int) -> Seq<Cell> {
    if cells[s].is_chord_source() {
        let p = pos(cells[s]);
        touch_at(
            cells,
            neighbor_set(w, h, p),
            Touch::Chord(flags_around(cells, w, h, p) == cells[s].num_mines_around),
        )
    } else {
        cells
    }
}

/// Index of the last cell whose chord request is `q`, or -1.
pub open spec fn last_with(cells: Seq<Cell>, q: QueryState) -> int
    decreases cells.len(),
{
    if cells.len() == 0 {
        -1
    } else if cells.last().query_state == q {
        cells.len() - 1
    } else {
        last_with(cells.drop_last(), q)
    }
}

pub proof fn lemma_last_with_range(cells: Seq<Cell>, q: QueryState)
    ensures
        -1 <= last_with(cells, q) < cells.len(),
        last_with(cells, q) >= 0 ==> cells[last_with(cells, q)].query_state == q,
    decreases cells.len(),
{
    if cells.len() > 0 && cells.last().query_state != q {
        lemma_last_with_range(cells.drop_last(), q);
    }
}

pub open spec fn clear_queries(cells: Seq<Cell>) -> Seq<Cell> {
    cells.map_values(|c: Cell| Cell { query_state: QueryState::Idle, ..c })
}

/// One cycle of chord handling: every request is cleared, then the last
/// request of each kind is served, taking back first, then preview, then
/// release.
pub open spec fn after_queries(cells: Seq<Cell>, w: u32, h: u32) -> Seq<Cell> {
    let o = last_with(cells, QueryState::QueryingOut);
    let q = last_with(cells, QueryState::Querying);
    let d = last_with(cells, QueryState::QueryingDone);
    let c0 = clear_queries(cells);
    let c1 = if o >= 0 {
        querying_out_step(c0, w, h, o)
    } else {
        c0
    };
    let c2 = if q >= 0 {
        querying_step(c1, w, h, q)
    } else {
        c1
    };
    if d >= 0 {
        querying_done_step(c2, w, h, d)
    } else {
        c2
    }
}

fn touch(c: &mut Cell, kind: Touch)
    ensures
        *final(c) == touched(*old(c), kind),
{
    match kind {
        Touch::Preview => {
            if c.state == CellState::Hidden {
                c.state = CellState::Pressed;
            }
        },
        Touch::Unpreview => {
            if c.state == CellState::Pressed && !c.is_left_pressed {
                c.state = CellState::Hidden;
            }
        },
        Touch::Chord(open_others) => {
            if c.state == CellState::Pressed {
                c.state = CellState::Hidden;
                if open_others {
                    c.is_opening = true;
                }
            } else if c.state == CellState::Flagged {
                if open_others {
                    c.is_opening = true;
                }
            }
        },
    }
}

impl Board {
    /// Applies `kind` to every cell around `(x, y)`.
    fn touch_around(&mut self, x: u32, y: u32, kind: Touch)
        requires
            old(self).wf(),
            in_bounds(old(self).width(), old(self).height(), (x, y)),
        ensures
            final(self).wf(),
            final(self).grid == old(self).grid,
            final(self).cells@ == touch_at(
                old(self).cells@,
                neighbor_set(old(self).width(), old(self).height(), (x, y)),
                kind,
            ),
    {
        let ghost orig = self.cells@;
        let ghost w = self.grid.width;
        let ghost h = self.grid.height;
        let around = self.grid.get_arround_cells(x, y);
        let mut k: usize = 0;
        proof {
            assert(orig =~= touch_at(orig, around@.take(0).to_set(), kind));
        }
        while k < around.len()
            invariant
                old(self).wf(),
                orig == old(self).cells@,
                w == old(self).grid.width,
                h == old(self).grid.height,
                self.grid == old(self).grid,
                around@.no_duplicates(),
                forall|q: (u32, u32)| around@.contains(q) <==> adjacent(w, h, (x, y), q),
                0 <= k <= around@.len(),
                self.cells@ == touch_at(orig, around@.take(k as int).to_set(), kind),
            decreases around@.len() - k,
        {
            let (qx, qy) = around[k];
            proof {
                assert(around@.contains(around@[k as int]));
                lemma_index_in_range(w, h, (qx, qy));
            }
            let j = self.grid.find_cell(qx, qy).unwrap();
            let mut c = self.cells[j];
            touch(&mut c, kind);
            self.cells.set(j, c);
            proof {
                let t0 = around@.take(k as int).to_set();
                let t1 = around@.take(k + 1).to_set();
                assert(around@.take(k + 1) =~= around@.take(k as int).push((qx, qy)));
                around@.take(k as int).lemma_push_to_set_commute((qx, qy));
                assert(!around@.take(k as int).contains((qx, qy)));
                assert(!t0.contains((qx, qy)));
                assert(pos(orig[j as int]) == (qx, qy)) by {
                    lemma_pos_index(orig, w, h, j as int, (qx, qy));
                }
                assert forall|i: int| 0 <= i < orig.len() implies #[trigger] self.cells@[i]
                    == touch_at(orig, t1, kind)[i] by {
                    lemma_pos_index(orig, w, h, i, (qx, qy));
                }
                assert(self.cells@ =~= touch_at(orig, t1, kind));
            }
            k = k + 1;
        }
        proof {
            assert(around@.take(around@.len() as int) =~= around@);
            assert(around@.to_set() =~= neighbor_set(w, h, (x, y)));
        }
    }

    /// Number of flagged cells around `(x, y)`.
    fn count_flagged_around(&self, x: u32, y: u32) -> (r: u32)
        requires
            self.wf(),
            in_bounds(self.width(), self.height(), (x, y)),
        ensures
            r == flags_around(self.cells@, self.width(), self.height(), (x, y)),
    {
        let ghost w = self.grid.width;
        let ghost h = self.grid.height;
        let ghost m = flag_set(self.cells@, w, h);
        let around = self.grid.get_arround_cells(x, y);
        let ghost s = around@;
        let mut count: u32 = 0;
        let mut k: usize = 0;
        proof {
            assert(s.take(0).to_set().intersect(m) =~= Set::<(u32, u32)>::empty());
        }
        while k < around.len()
            invariant
                self.wf(),
                w == self.grid.width,
                h == self.grid.height,
                m == flag_set(self.cells@, w, h),
                s == around@,
                s.no_duplicates(),
                s.len() <= 8,
                forall|q: (u32, u32)| s.contains(q) <==> adjacent(w, h, (x, y), q),
                0 <= k <= s.len(),
                count == s.take(k as int).to_set().intersect(m).len(),
                count <= k,
            decreases s.len() - k,
        {
            proof {
                lemma_count_step(s, k as int, m);
                assert(s.contains(s[k as int]));
            }
            let (qx, qy) = around[k];
            proof {
                lemma_index_in_range(w, h, (qx, qy));
            }
            let j = self.grid.find_cell(qx, qy).unwrap();
            proof {
                assert(m.contains((qx, qy)) == (self.cells@[j as int].state == CellState::Flagged));
            }
            if self.cells[j].state == CellState::Flagged {
                count = count + 1;
            }
            k = k + 1;
        }
        proof {
            assert(s.take(s.len() as int) =~= s);
            assert(s.to_set() =~= neighbor_set(w, h, (x, y)));
        }
        count
    }

    /// Chord preview around the cell at `index`.
    pub fn update_querying_cell(&mut self, index: usize)
        requires
            old(self).wf(),
            index < old(self).cells@.len(),
        ensures
            final(self).wf(),
            final(self).grid == old(self).grid,
            final(self).cells@ == querying_step(
                old(self).cells@,
                old(self).width(),
                old(self).height(),
                index as int,
            ),
    {
        let c = self.cells[index];
        if c.is_mine {
            return;
        }
        if c.num_mines_around == 0 {
            return;
        }
        self.touch_around(c.x, c.y, Touch::Preview);
    }

    /// Chord preview taken back around the cell at `index`.
    pub fn update_querying_out_cell(&mut self, index: usize)
        requires
            old(self).wf(),
            index < old(self).cells@.len(),
        ensures
            final(self).wf(),
            final(self).grid == old(self).grid,
            final(self).cells@ == querying_out_step(
                old(self).cells@,
                old(self).width(),
                old(self).height(),
                index as int,
            ),
    {
        let c = self.cells[index];
        if c.is_mine {
            return;
        }
        if c.num_mines_around == 0 {
            return;
        }
        self.touch_around(c.x, c.y, Touch::Unpreview);
    }

    /// Chord released on the cell at `index`: the previewed neighbors go back
    /// to hidden, and they and the flagged ones are marked for opening when
    /// the flag count matches the cell's number.
    pub fn update_querying_done_cell(&mut self, index: usize)
        requires
            old(self).wf(),
            index < old(self).cells@.len(),
        ensures
            final(self).wf(),
            final(self).grid == old(self).grid,
            final(self).cells@ == querying_done_step(
                old(self).cells@,
                old(self).width(),
                old(self).height(),
                index as int,
            ),
    {
        let c = self.cells[index];
        if c.is_mine {
            return;
        }
        if c.num_mines_around == 0 {
            return;
        }
        let num_of_flagged = self.count_flagged_around(c.x, c.y);
        let open_others = num_of_flagged == c.num_mines_around;
        self.touch_around(c.x, c.y, Touch::Chord(open_others));
    }

    /// Clears every chord request and serves the last one of each kind.
    pub fn update_cells_query(&mut self)
        requires
            old(self).wf(),
        ensures
            final(self).wf(),
            final(self).grid == old(self).grid,
            final(self).cells@ == after_queries(
                old(self).cells@,
                old(self).width(),
                old(self).height(),
            ),
    {
        let ghost orig = self.cells@;
        let n = self.cells.len();
        let mut querying: Option<usize> = None;
        let mut querying_out: Option<usize> = None;
        let mut querying_done: Option<usize> = None;
        let mut i: usize = 0;
        while i < n
            invariant
                old(self).wf(),
                orig == old(self).cells@,
                n == orig.len(),
                self.grid == old(self).grid,
                self.cells@.len() == n,
                0 <= i <= n,
                forall|j: int| i <= j < n ==> #[trigger] self.cells@[j] == orig[j],
                forall|j: int|
                    0 <= j < i ==> #[trigger] self.cells@[j] == (Cell {
                        query_state: QueryState::Idle,
                        ..orig[j]
                    }),
                querying == (if last_with(orig.take(i as int), QueryState::Querying) >= 0 {
                    Some(last_with(orig.take(i as int), QueryState::Querying) as usize)
                } else {
                    None::<usize>
                }),
                querying_out == (if last_with(orig.take(i as int), QueryState::QueryingOut) >= 0 {
                    Some(last_with(orig.take(i as int), QueryState::QueryingOut) as usize)
                } else {
                    None::<usize>
                }),
                querying_done == (if last_with(orig.take(i as int), QueryState::QueryingDone) >= 0 {
                    Some(last_with(orig.take(i as int), QueryState::QueryingDone) as usize)
                } else {
                    None::<usize>
                }),
            decreases n - i,
        {
            proof {
                assert(orig.take(i + 1).drop_last() =~= orig.take(i as int));
                lemma_last_with_range(orig.take(i as int), QueryState::Querying);
                lemma_last_with_range(orig.take(i as int), QueryState::QueryingOut);
                lemma_last_with_range(orig.take(i as int), QueryState::QueryingDone);
            }
            let mut c = self.cells[i];
            match c.query_state {
                QueryState::Querying => {
                    querying = Some(i);
                },
                QueryState::QueryingOut => {
                    querying_out = Some(i);
                },
                QueryState::QueryingDone => {
                    querying_done = Some(i);
                },
                QueryState::Idle => {},
            }
            c.query_state = QueryState::Idle;
            self.cells.set(i, c);
            i = i + 1;
        }
        proof {
            assert(orig.take(n as int) =~= orig);
            assert(self.cells@ =~= clear_queries(orig));
            lemma_last_with_range(orig, QueryState::Querying);
            lemma_last_with_range(orig, QueryState::QueryingOut);
            lemma_last_with_range(orig, QueryState::QueryingDone);
        }
        if let Some(index) = querying_out {
            self.update_querying_out_cell(index);
        }
        if let Some(index) = querying {
            self.update_querying_cell(index);
        }
        if let Some(index) = querying_done {
            self.update_querying_done_cell(index);
        }
    }
}

} // verus!
