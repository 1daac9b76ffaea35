use vstd::prelude::*;
use rand::seq::SliceRandom;

verus! {

/// Upper bound on `width * height`: cell and flag counts must fit the signed
/// mine counter.
pub const MAX_CELLS: u32 = 0x7fff_ffff;

/// `p` lies on a `w` by `h` board; coordinates start at 1.
pub open spec fn in_bounds(w: u32, h: u32, p: (u32, u32)) -> bool {
    1 <= p.0 <= w && 1 <= p.1 <= h
}

/// `q` is one of the (up to eight) cells around `p`, corners included.
pub open spec fn adjacent(w: u32, h: u32, p: (u32, u32), q: (u32, u32)) -> bool {
    &&& in_bounds(w, h, q)
    &&& q != p
    &&& p.0 - 1 <= q.0 <= p.0 + 1
    &&& p.1 - 1 <= q.1 <= p.1 + 1
}

pub open spec fn neighbor_set(w: u32, h: u32, p: (u32, u32)) -> Set<(u32, u32)> {
    Set::new(|q: (u32, u32)| adjacent(w, h, p, q))
}

/// Number of mines among the cells around `p`.
pub open spec fn mines_around(w: u32, h: u32, mines: Set<(u32, u32)>, p: (u32, u32)) -> nat {
    neighbor_set(w, h, p).intersect(mines).len()
}

/// The `k`-th of the eight places around `p`, in reading order: the row
/// above, then `p`'s own row, then the row below, each left to right.
pub open spec fn around_candidate(p: (u32, u32), k: int) -> (u32, u32) {
    let dx: int = if k == 0 || k == 3 || k == 5 {
        -1
    } else if k == 1 || k == 6 {
        0
    } else {
        1
    };
    let dy: int = if k < 3 {
        -1
    } else if k < 5 {
        0
    } else {
        1
    };
    ((p.0 + dx) as u32, (p.1 + dy) as u32)
}

/// The first `k` places around `p` in reading order, keeping those on the
/// board.
pub open spec fn around_in_order(w: u32, h: u32, p: (u32, u32), k: nat) -> Seq<(u32, u32)>
    decreases k,
{
    if k == 0 {
        Seq::empty()
    } else {
        let prev = around_in_order(w, h, p, (k - 1) as nat);
        let c = around_candidate(p, k - 1);
        if in_bounds(w, h, c) {
            prev.push(c)
        } else {
            prev
        }
    }
}

/// Position of the cell at `p` in a column-by-column layout.
pub open spec fn index_of(h: u32, p: (u32, u32)) -> int {
    (p.0 - 1) * h + (p.1 - 1)
}

/// `a` comes before `b` column by column.
pub open spec fn precedes(a: (u32, u32), b: (u32, u32)) -> bool {
    a.0 < b.0 || (a.0 == b.0 && a.1 < b.1)
}

/// How many cells can take a mine when `exclude` must stay free.
pub open spec fn capacity(w: u32, h: u32, exclude: Option<(u32, u32)>) -> int {
    match exclude {
        Some(p) => if in_bounds(w, h, p) {
            w * h - 1
        } else {
            w * h
        },
        None => w * h,
    }
}

pub open spec fn excluded(exclude: Option<(u32, u32)>, p: (u32, u32)) -> bool {
    exclude == Some(p)
}

pub proof fn lemma_index_in_range(w: u32, h: u32, p: (u32, u32))
    requires
        in_bounds(w, h, p),
    ensures
        0 <= index_of(h, p) < w * h,
{
    let a = p.0 - 1;
    let b = p.1 - 1;
    assert(0 <= a * h + b < w * h) by (nonlinear_arith)
        requires
            0 <= a < w,
            0 <= b < h,
    ;
}

pub proof fn lemma_index_injective(w: u32, h: u32, p: (u32, u32), q: (u32, u32))
    requires
        in_bounds(w, h, p),
        in_bounds(w, h, q),
        index_of(h, p) == index_of(h, q),
    ensures
        p == q,
{
    let a1 = p.0 - 1;
    let b1 = p.1 - 1;
    let a2 = q.0 - 1;
    let b2 = q.1 - 1;
    assert(a1 == a2) by (nonlinear_arith)
        requires
            a1 * h + b1 == a2 * h + b2,
            0 <= b1 < h,
            0 <= b2 < h,
            0 <= a1,
            0 <= a2,
    {
        if a1 < a2 {
            assert((a2 - a1) * h >= h);
        } else if a2 < a1 {
            assert((a1 - a2) * h >= h);
        }
    }
}

/// Counting the members of `m` along a list without repeats, one element at
/// a time.
pub proof fn lemma_count_step(s: Seq<(u32, u32)>, i: int, m: Set<(u32, u32)>)
    requires
        s.no_duplicates(),
        0 <= i < s.len(),
    ensures
        s.take(i + 1).to_set().intersect(m).len() == s.take(i).to_set().intersect(m).len() + (
        if m.contains(s[i]) {
            1int
        } else {
            0int
        }),
{
    let before = s.take(i).to_set().intersect(m);
    assert(s.take(i + 1) =~= s.take(i).push(s[i]));
    s.take(i).lemma_push_to_set_commute(s[i]);
    assert(!s.take(i).contains(s[i]));
    vstd::set_lib::lemma_len_subset(before, s.take(i).to_set());
    if m.contains(s[i]) {
        assert(s.take(i + 1).to_set().intersect(m) =~= before.insert(s[i]));
    } else {
        assert(s.take(i + 1).to_set().intersect(m) =~= before);
    }
}

/// Every position of a `width` by `height` board but `exclude`, column by
/// column.
fn all_positions(width: u32, height: u32, exclude: Option<(u32, u32)>) -> (r: Vec<(u32, u32)>)
    requires
        1 <= width,
        1 <= height,
        width * height <= MAX_CELLS,
    ensures
        forall|i: int, j: int|
            0 <= i < j < r@.len() ==> precedes(#[trigger] r@[i], #[trigger] r@[j]),
        r@.no_duplicates(),
        forall|q: (u32, u32)|
            #[trigger] r@.contains(q) <==> in_bounds(width, height, q) && !excluded(exclude, q),
        r@.len() == capacity(width, height, exclude),
{
    broadcast use Seq::lemma_push_to_set_commute;

    let ghost skip = match exclude {
        Some(p) => in_bounds(width, height, p),
        None => false,
    };
    let mut positions: Vec<(u32, u32)> = Vec::new();
    let mut x: u32 = 1;
    proof {
        assert(width <= width * height) by (nonlinear_arith)
            requires
                1 <= height,
        ;
    }
    while x <= width
        invariant
            1 <= x <= width + 1,
            1 <= width <= MAX_CELLS,
            1 <= height,
            width * height <= MAX_CELLS,
            skip == (match exclude {
                Some(p) => in_bounds(width, height, p),
                None => false,
            }),
            forall|i: int, j: int|
                0 <= i < j < positions@.len() ==> precedes(
                    #[trigger] positions@[i],
                    #[trigger] positions@[j],
                ),
            forall|i: int| 0 <= i < positions@.len() ==> (#[trigger] positions@[i]).0 < x,
            forall|q: (u32, u32)|
                #[trigger] positions@.contains(q) <==> in_bounds(width, height, q)
                    && !excluded(exclude, q) && q.0 < x,
            positions@.len() == (x - 1) * height - (if skip && exclude.unwrap().0 < x {
                1int
            } else {
                0int
            }),
        decreases width + 1 - x,
    {
        let mut y: u32 = 1;
        proof {
            assert((x - 1) * height + height == x * height) by (nonlinear_arith);
            assert(x * height <= width * height) by (nonlinear_arith)
                requires
                    x <= width,
            ;
            assert forall|q: (u32, u32)|
                #[trigger] positions@.contains(q) <==> in_bounds(width, height, q)
                    && !excluded(exclude, q) && precedes(q, (x, 1u32)) by {
                assert(positions@.contains(q) <==> positions@.to_set().contains(q));
            }
        }
        while y <= height
            invariant
                1 <= x <= width,
                1 <= y <= height + 1,
                1 <= height,
                (x - 1) * height + height == x * height,
                x * height <= width * height,
                width * height <= MAX_CELLS,
                skip == (match exclude {
                    Some(p) => in_bounds(width, height, p),
                    None => false,
                }),
                forall|i: int, j: int|
                    0 <= i < j < positions@.len() ==> precedes(
                        #[trigger] positions@[i],
                        #[trigger] positions@[j],
                    ),
                forall|i: int|
                    0 <= i < positions@.len() ==> precedes(#[trigger] positions@[i], (x, y)),
                forall|q: (u32, u32)|
                    #[trigger] positions@.contains(q) <==> in_bounds(width, height, q) && !excluded(
                        exclude,
                        q,
                    ) && precedes(q, (x, y)),
                positions@.len() == (x - 1) * height + (y - 1) - (if skip && precedes(
                    exclude.unwrap(),
                    (x, y),
                ) {
                    1int
                } else {
                    0int
                }),
            decreases height + 1 - y,
        {
            let skipped = match exclude {
                Some((ex, ey)) => ex == x && ey == y,
                None => false,
            };
            let ghost prev = positions@;
            if !skipped {
                positions.push((x, y));
            }
            proof {
                assert(skipped == excluded(exclude, (x, y)));
                if skipped {
                    assert(positions@.to_set() =~= prev.to_set());
                } else {
                    prev.lemma_push_to_set_commute((x, y));
                    assert(positions@.to_set() =~= prev.to_set().insert((x, y)));
                }
                assert forall|q: (u32, u32)|
                    #[trigger] positions@.contains(q) <==> in_bounds(width, height, q) && !excluded(
                        exclude,
                        q,
                    ) && precedes(q, (x, (y + 1) as u32)) by {
                    assert(positions@.contains(q) <==> positions@.to_set().contains(q));
                    assert(prev.contains(q) <==> prev.to_set().contains(q));
                }
            }
            y = y + 1;
        }
        proof {
            assert forall|i: int| 0 <= i < positions@.len() implies (#[trigger] positions@[i]).0
                < x + 1 by {
                assert(precedes(positions@[i], (x, y)));
            }
        }
        x = x + 1;
    }
    proof {
        assert forall|i: int, j: int|
            0 <= i < positions@.len() && 0 <= j < positions@.len() && i != j implies positions@[i]
            != positions@[j] by {
            if i < j {
                assert(precedes(positions@[i], positions@[j]));
            } else {
                assert(precedes(positions@[j], positions@[i]));
            }
        }
        assert((x - 1) * height == width * height);
        assert forall|q: (u32, u32)|
            #[trigger] positions@.contains(q) <==> in_bounds(width, height, q)
                && !excluded(exclude, q) by {
            assert(positions@.contains(q) <==> positions@.to_set().contains(q));
        }
    }
    positions
}

/// Relies on rand's `SliceRandom::shuffle`, drawn from `rand::thread_rng`: it
/// only swaps elements, so what comes back is a permutation of what went in.
/// Nothing is assumed of the order. `thread_rng` panics only when the
/// operating system cannot seed it, which no argument here can rule out.
#[verifier::external_body]
fn shuffle_positions(positions: &mut Vec<(u32, u32)>)
    ensures
        final(positions)@.to_multiset() == old(positions)@.to_multiset(),
{
    positions.shuffle(&mut rand::thread_rng());
}

/// Width, height and mine layout of a board.
pub struct Grid {
    pub width: u32,
    pub height: u32,
    pub mine_positions: Vec<(u32, u32)>,
}

impl Default for Grid {
    fn default() -> (r: Grid)
        ensures
            r.width == 30,
            r.height == 16,
            r.mine_positions@.len() == 0,
    {
        Grid { width: 30, height: 16, mine_positions: Vec::new() }
    }
}

impl Grid {
    /// Dimensions in range, mines on the board and listed once each.
    pub open spec fn wf(&self) -> bool {
        &&& 1 <= self.width
        &&& 1 <= self.height
        &&& self.width * self.height <= MAX_CELLS
        &&& self.mine_positions@.no_duplicates()
        &&& forall|i: int|
            0 <= i < self.mine_positions@.len() ==> in_bounds(
                self.width,
                self.height,
                #[trigger] self.mine_positions@[i],
            )
    }

    pub open spec fn mines(&self) -> Set<(u32, u32)> {
        self.mine_positions@.to_set()
    }

    pub open spec fn holds(&self, p: (u32, u32)) -> bool {
        in_bounds(self.width, self.height, p)
    }

    /// A 30 by 16 board without mines.
    pub fn new() -> (r: Grid)
        ensures
            r.wf(),
            r.width == 30,
            r.height == 16,
            r.mines() == Set::<(u32, u32)>::empty(),
    {
        let r = Grid::default();
        proof {
            assert(r.mines() =~= Set::<(u32, u32)>::empty());
        }
        r
    }

    /// Sets the dimensions and removes every mine.
    pub fn init(&mut self, width: u32, height: u32)
        requires
            1 <= width,
            1 <= height,
            width * height <= MAX_CELLS,
        ensures
            final(self).wf(),
            final(self).width == width,
            final(self).height == height,
            final(self).mines() == Set::<(u32, u32)>::empty(),
    {
        self.width = width;
        self.height = height;
        self.mine_positions.clear();
        proof {
            assert(self.mines() =~= Set::<(u32, u32)>::empty());
        }
    }

    /// Index of the cell at `(x, y)` in a column-by-column layout, if the
    /// position is on the board.
    pub fn find_cell(&self, x: u32, y: u32) -> (r: Option<usize>)
        requires
            self.wf(),
        ensures
            r == (if self.holds((x, y)) {
                Some(index_of(self.height, (x, y)) as usize)
            } else {
                None::<usize>
            }),
    {
        if 1 <= x && x <= self.width && 1 <= y && y <= self.height {
            proof {
                lemma_index_in_range(self.width, self.height, (x, y));
            }
            let i = ((x - 1) as usize) * (self.height as usize) + ((y - 1) as usize);
            Some(i)
        } else {
            None
        }
    }

    /// The cells around `(x, y)`, each once, in reading order (row above,
    /// own row, row below, left to right); fewer than eight at an edge.
    pub fn get_arround_cells(&self, x: u32, y: u32) -> (r: Vec<(u32, u32)>)
        requires
            self.wf(),
            self.holds((x, y)),
        ensures
            r@ == around_in_order(self.width, self.height, (x, y), 8),
            r@.no_duplicates(),
            r@.len() <= 8,
            forall|q: (u32, u32)| r@.contains(q) <==> adjacent(self.width, self.height, (x, y), q),
    {
        broadcast use Seq::lemma_push_to_set_commute;

        let width = self.width;
        let height = self.height;
        proof {
            assert(width <= width * height && height <= width * height) by (nonlinear_arith)
                requires
                    1 <= width,
                    1 <= height,
            ;
        }
        let mut cells: Vec<(u32, u32)> = Vec::new();
        proof {
            assert(around_in_order(width, height, (x, y), 0) =~= cells@);
        }
        // 1 2 3
        // 4 x 5
        // 6 7 8
        if x > 1 && y > 1 {
            cells.push((x - 1, y - 1));
        }
        proof {
            assert(cells@ =~= around_in_order(width, height, (x, y), 1));
        }
        if y > 1 {
            cells.push((x, y - 1));
        }
        proof {
            assert(cells@ =~= around_in_order(width, height, (x, y), 2));
        }
        if x < width && y > 1 {
            cells.push((x + 1, y - 1));
        }
        proof {
            assert(cells@ =~= around_in_order(width, height, (x, y), 3));
        }
        if x > 1 {
            cells.push((x - 1, y));
        }
        proof {
            assert(cells@ =~= around_in_order(width, height, (x, y), 4));
        }
        if x < width {
            cells.push((x + 1, y));
        }
        proof {
            assert(cells@ =~= around_in_order(width, height, (x, y), 5));
        }
        if x > 1 && y < height {
            cells.push((x - 1, y + 1));
        }
        proof {
            assert(cells@ =~= around_in_order(width, height, (x, y), 6));
        }
        if y < height {
            cells.push((x, y + 1));
        }
        proof {
            assert(cells@ =~= around_in_order(width, height, (x, y), 7));
        }
        if x < width && y < height {
            cells.push((x + 1, y + 1));
        }
        proof {
            assert(cells@ =~= around_in_order(width, height, (x, y), 8));
        }
        proof {
            assert forall|q: (u32, u32)| #[trigger]
                cells@.contains(q) <==> adjacent(width, height, (x, y), q) by {
                assert(cells@.contains(q) <==> cells@.to_set().contains(q));
            }
        }
        cells
    }

    /// Makes the first `num_mines` positions of `order` (all of them if there
    /// are fewer) the mines.
    pub fn take_mine_positions(&mut self, order: &Vec<(u32, u32)>, num_mines: u32)
        requires
            old(self).wf(),
            order@.no_duplicates(),
            forall|i: int| 0 <= i < order@.len() ==> #[trigger] old(self).holds(order@[i]),
        ensures
            final(self).wf(),
            final(self).width == old(self).width,
            final(self).height == old(self).height,
            final(self).mine_positions@ == order@.take(
                if num_mines <= order@.len() {
                    num_mines as int
                } else {
                    order@.len() as int
                },
            ),
    {
        let count: usize = if (num_mines as usize) <= order.len() {
            num_mines as usize
        } else {
            order.len()
        };
        self.mine_positions.clear();
        let mut i: usize = 0;
        while i < count
            invariant
                count <= order@.len(),
                0 <= i <= count,
                old(self).wf(),
                self.width == old(self).width,
                self.height == old(self).height,
                self.mine_positions@ == order@.take(i as int),
            decreases count - i,
        {
            self.mine_positions.push(order[i]);
            proof {
                assert(order@.take(i + 1) =~= order@.take(i as int).push(order@[i as int]));
            }
            i = i + 1;
        }
        proof {
            let t = order@.take(count as int);
            assert forall|a: int, b: int| 0 <= a < t.len() && 0 <= b < t.len() && a != b implies t[a]
                != t[b] by {
                assert(t[a] == order@[a] && t[b] == order@[b]);
            }
            assert forall|k: int| 0 <= k < t.len() implies in_bounds(
                self.width,
                self.height,
                #[trigger] t[k],
            ) by {
                assert(t[k] == order@[k]);
                assert(old(self).holds(order@[k]));
            }
        }
    }

    /// Lays out `min(num_mines, capacity)` mines at random, never on
    /// `exclude_pos`.
    pub fn create_mine_positions(&mut self, num_mines: u32, exclude_pos: Option<(u32, u32)>)
        requires
            old(self).wf(),
        ensures
            final(self).wf(),
            final(self).width == old(self).width,
            final(self).height == old(self).height,
            exclude_pos is Some ==> !final(self).mines().contains(exclude_pos.unwrap()),
            final(self).mines().len() == (if num_mines <= capacity(
                old(self).width,
                old(self).height,
                exclude_pos,
            ) {
                num_mines as int
            } else {
                capacity(old(self).width, old(self).height, exclude_pos)
            }),
    {
        broadcast use Seq::to_multiset_ensures;

        let mut positions = all_positions(self.width, self.height, exclude_pos);
        let ghost before = positions@;
        shuffle_positions(&mut positions);
        proof {
            before.to_multiset_ensures();
            positions@.to_multiset_ensures();
            before.lemma_multiset_has_no_duplicates();
            positions@.lemma_multiset_has_no_duplicates_conv();
            assert forall|i: int| 0 <= i < positions@.len() implies #[trigger] self.holds(
                positions@[i],
            ) by {
                assert(positions@.contains(positions@[i]));
                assert(positions@.to_multiset().count(positions@[i]) > 0);
                assert(before.contains(positions@[i]));
            }
        }
        self.take_mine_positions(&positions, num_mines);
        proof {
            let t = self.mine_positions@;
            t.unique_seq_to_set();
            if exclude_pos is Some {
                let p = exclude_pos.unwrap();
                assert(excluded(exclude_pos, p));
                if self.mines().contains(p) {
                    let k = choose|k: int| 0 <= k < t.len() && t[k] == p;
                    assert(positions@[k] == p);
                    assert(positions@.contains(p));
                    assert(positions@.to_multiset().count(p) > 0);
                    assert(!before.contains(p));
                }
            }
        }
    }

    /// Whether `(x, y)` holds a mine.
    pub fn is_mine(&self, x: u32, y: u32) -> (r: bool)
        ensures
            r == self.mines().contains((x, y)),
    {
        let mut i: usize = 0;
        while i < self.mine_positions.len()
            invariant
                0 <= i <= self.mine_positions@.len(),
                forall|j: int| 0 <= j < i ==> self.mine_positions@[j] != (x, y),
            decreases self.mine_positions@.len() - i,
        {
            let p = self.mine_positions[i];
            if p.0 == x && p.1 == y {
                proof {
                    assert(self.mine_positions@.contains((x, y)));
                }
                return true;
            }
            i = i + 1;
        }
        false
    }

    /// Number of mines around `(x, y)`.
    pub fn get_num_mines_around(&self, x: u32, y: u32) -> (r: u32)
        requires
            self.wf(),
            self.holds((x, y)),
        ensures
            r == mines_around(self.width, self.height, self.mines(), (x, y)),
            r <= 8,
    {
        let arround_cells = self.get_arround_cells(x, y);
        let ghost s = arround_cells@;
        let mut num_mines_around: u32 = 0;
        let mut i: usize = 0;
        proof {
            assert(s.take(0).to_set().intersect(self.mines()) =~= Set::<(u32, u32)>::empty());
        }
        while i < arround_cells.len()
            invariant
                s == arround_cells@,
                s.no_duplicates(),
                s.len() <= 8,
                0 <= i <= s.len(),
                num_mines_around == s.take(i as int).to_set().intersect(self.mines()).len(),
                num_mines_around <= i,
            decreases s.len() - i,
        {
            proof {
                lemma_count_step(s, i as int, self.mines());
            }
            let (px, py) = arround_cells[i];
            if self.is_mine(px, py) {
                num_mines_around = num_mines_around + 1;
            }
            i = i + 1;
        }
        proof {
            assert(s.take(s.len() as int) =~= s);
            assert(s.to_set() =~= neighbor_set(self.width, self.height, (x, y)));
        }
        num_mines_around
    }
}

} // verus!
