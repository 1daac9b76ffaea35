use vstd::prelude::*;
use crate::cell::Cell;
use crate::board::{Board, pos, cell_at, cells_wf};
use crate::grid::{in_bounds, adjacent, neighbor_set, index_of};
use crate::grid::{lemma_index_in_range, lemma_index_injective};

verus! {

/// A cell from which flood-fill spreads: no mine in it or around it.
pub open spec fn expandable(c: Cell) -> bool {
    !c.is_mine && c.num_mines_around == 0
}

/// Positions of the cells from which flood-fill spreads.
pub open spec fn zero_set(cells: Seq<Cell>, w: u32, h: u32) -> Set<(u32, u32)> {
    Set::new(|p: (u32, u32)| in_bounds(w, h, p) && expandable(cell_at(cells, h, p)))
}

/// Positions of the cells that asked to be opened this cycle.
pub open spec fn seed_set(cells: Seq<Cell>, w: u32, h: u32) -> Set<(u32, u32)> {
    Set::new(|p: (u32, u32)| in_bounds(w, h, p) && cell_at(cells, h, p).is_opening)
}

/// `t` holds every neighbor of each of its members that lies in `zeros`.
pub open spec fn closed_under(w: u32, h: u32, zeros: Set<(u32, u32)>, t: Set<(u32, u32)>) -> bool {
    forall|p: (u32, u32), q: (u32, u32)|
        #[trigger] t.contains(p) && zeros.contains(p) && #[trigger] adjacent(w, h, p, q)
            ==> t.contains(q)
}

/// The smallest set that holds `seeds` and is closed under spreading from
/// `zeros`: the positions that lie in every such set.
pub open spec fn flood_region(
    w: u32,
    h: u32,
    zeros: Set<(u32, u32)>,
    seeds: Set<(u32, u32)>,
) -> Set<(u32, u32)> {
    Set::new(
        |p: (u32, u32)|
            forall|s: Set<(u32, u32)>|
                seeds.subset_of(s) && #[trigger] closed_under(w, h, zeros, s) ==> s.contains(p),
    )
}

/// `t` holds the seeds, is closed, and lies inside every closed set that
/// holds the seeds.
pub open spec fn is_flood_region(
    w: u32,
    h: u32,
    zeros: Set<(u32, u32)>,
    seeds: Set<(u32, u32)>,
    t: Set<(u32, u32)>,
) -> bool {
    &&& seeds.subset_of(t)
    &&& closed_under(w, h, zeros, t)
    &&& forall|s: Set<(u32, u32)>|
        seeds.subset_of(s) && #[trigger] closed_under(w, h, zeros, s) ==> t.subset_of(s)
}

/// The cells one flood open reaches.
pub open spec fn flood_target(cells: Seq<Cell>, w: u32, h: u32) -> Set<(u32, u32)> {
    flood_region(w, h, zero_set(cells, w, h), seed_set(cells, w, h))
}

/// A cell after a flood open that reached `t`.
pub open spec fn opened(c: Cell, t: Set<(u32, u32)>) -> Cell {
    let c1 = Cell { is_opening: false, ..c };
    if t.contains(pos(c)) {
        c1.after_open()
    } else {
        c1
    }
}

pub open spec fn after_flood(cells: Seq<Cell>, w: u32, h: u32) -> Seq<Cell> {
    cells.map_values(|c: Cell| opened(c, flood_target(cells, w, h)))
}

/// No cell that the flood open reaches is a mine or a wrong flag.
pub open spec fn flood_ok(cells: Seq<Cell>, w: u32, h: u32) -> bool {
    forall|i: int|
        0 <= i < cells.len() && flood_target(cells, w, h).contains(pos(#[trigger] cells[i]))
            ==> cells[i].open_ok()
}

/// The flood region holds the seeds, spreads from every zero cell it holds to
/// all of that cell's neighbors, and reaches nothing else.
pub proof fn lemma_flood_region(w: u32, h: u32, zeros: Set<(u32, u32)>, seeds: Set<(u32, u32)>)
    ensures
        is_flood_region(w, h, zeros, seeds, flood_region(w, h, zeros, seeds)),
{
    let t = flood_region(w, h, zeros, seeds);
    assert forall|p: (u32, u32), q: (u32, u32)|
        #[trigger] t.contains(p) && zeros.contains(p) && #[trigger] adjacent(w, h, p, q) implies t.contains(
        q,
    ) by {
        assert forall|s: Set<(u32, u32)>|
            seeds.subset_of(s) && #[trigger] closed_under(w, h, zeros, s) implies s.contains(q) by {
            assert(s.contains(p));
        }
    }
}

pub open spec fn count_true(s: Seq<bool>) -> nat
    decreases s.len(),
{
    if s.len() == 0 {
        0
    } else {
        count_true(s.drop_last()) + if s.last() {
            1nat
        } else {
            0nat
        }
    }
}

proof fn lemma_count_true_bound(s: Seq<bool>)
    ensures
        count_true(s) <= s.len(),
    decreases s.len(),
{
    if s.len() > 0 {
        lemma_count_true_bound(s.drop_last());
    }
}

proof fn lemma_count_true_set(s: Seq<bool>, j: int)
    requires
        0 <= j < s.len(),
        !s[j],
    ensures
        count_true(s.update(j, true)) == count_true(s) + 1,
    decreases s.len(),
{
    let u = s.update(j, true);
    if j == s.len() - 1 {
        assert(u.drop_last() =~= s.drop_last());
    } else {
        assert(u.drop_last() =~= s.drop_last().update(j, true));
        lemma_count_true_set(s.drop_last(), j);
    }
}

/// Positions whose flag in `visited` is set.
pub open spec fn marked(visited: Seq<bool>, w: u32, h: u32) -> Set<(u32, u32)> {
    Set::new(|p: (u32, u32)| in_bounds(w, h, p) && visited[index_of(h, p)])
}

/// Within a well-formed board, the cell at index `i` sits at `p` exactly when
/// `i` is the index of `p`.
pub proof fn lemma_pos_index(cells: Seq<Cell>, w: u32, h: u32, i: int, p: (u32, u32))
    requires
        cells_wf(cells, w, h),
        0 <= i < cells.len(),
        in_bounds(w, h, p),
    ensures
        pos(cells[i]) == p <==> i == index_of(h, p),
{
    if i == index_of(h, p) {
        lemma_index_injective(w, h, pos(cells[i]), p);
    }
}

impl Board {
    /// Opens the cells that asked to be, spreading through cells with no mine
    /// around them; returns false when a mine or a wrong flag was opened.
    pub fn update_cells_open(&mut self) -> (r: bool)
        requires
            old(self).wf(),
        ensures
            final(self).wf(),
            final(self).grid == old(self).grid,
            final(self).cells@ == after_flood(old(self).cells@, old(self).width(), old(self).height()),
            r == flood_ok(old(self).cells@, old(self).width(), old(self).height()),
    {
        let ghost orig = self.cells@;
        let ghost w = self.grid.width;
        let ghost h = self.grid.height;
        let ghost zeros = zero_set(orig, w, h);
        let ghost seeds = seed_set(orig, w, h);
        let n = self.cells.len();
        let mut visited: Vec<bool> = Vec::new();
        let mut queue: Vec<usize> = Vec::new();
        let mut i: usize = 0;
        while i < n
            invariant
                old(self).wf(),
                orig == old(self).cells@,
                w == old(self).grid.width,
                h == old(self).grid.height,
                n == orig.len(),
                self.grid == old(self).grid,
                self.cells@.len() == n,
                0 <= i <= n,
                visited@.len() == i,
                forall|j: int| i <= j < n ==> #[trigger] self.cells@[j] == orig[j],
                forall|j: int|
                    0 <= j < i ==> #[trigger] self.cells@[j] == (Cell {
                        is_opening: false,
                        ..orig[j]
                    }),
                forall|j: int| 0 <= j < i ==> #[trigger] visited@[j] == orig[j].is_opening,
                queue@.no_duplicates(),
                forall|k: int|
                    0 <= k < queue@.len() ==> #[trigger] queue@[k] < i && visited@[queue@[k] as int],
                forall|j: int| 0 <= j < i && #[trigger] visited@[j] ==> queue@.contains(j as usize),
            decreases n - i,
        {
            let mut c = self.cells[i];
            let ghost qb = queue@;
            if c.is_opening {
                c.is_opening = false;
                self.cells.set(i, c);
                queue.push(i);
                visited.push(true);
                proof {
                    assert(queue@[queue@.len() - 1] == i);
                    assert forall|j: int| 0 <= j < i + 1 && #[trigger] visited@[j] implies queue@.contains(
                        j as usize,
                    ) by {
                        if j < i {
                            let k = choose|k: int| 0 <= k < qb.len() && qb[k] == j as usize;
                            assert(queue@[k] == qb[k]);
                        }
                    }
                    assert forall|k: int| 0 <= k < queue@.len() implies #[trigger] queue@[k] < i + 1
                        && visited@[queue@[k] as int] by {
                        if k < qb.len() {
                            assert(queue@[k] == qb[k]);
                        }
                    }
                    assert forall|a: int, b: int|
                        0 <= a < queue@.len() && 0 <= b < queue@.len() && a != b implies queue@[a]
                        != queue@[b] by {
                        if a < qb.len() {
                            assert(queue@[a] == qb[a]);
                        }
                        if b < qb.len() {
                            assert(queue@[b] == qb[b]);
                        }
                    }
                }
            } else {
                visited.push(false);
            }
            i = i + 1;
        }
        proof {
            assert forall|p: (u32, u32)| seeds.contains(p) implies #[trigger] marked(
                visited@,
                w,
                h,
            ).contains(p) by {
                lemma_index_in_range(w, h, p);
            }
            assert forall|s: Set<(u32, u32)>|
                seeds.subset_of(s) && #[trigger] closed_under(w, h, zeros, s) implies marked(
                visited@,
                w,
                h,
            ).subset_of(s) by {
                assert forall|p: (u32, u32)| marked(visited@, w, h).contains(p) implies s.contains(
                    p,
                ) by {
                    lemma_index_in_range(w, h, p);
                    assert(seeds.contains(p));
                }
            }
            lemma_count_true_bound(visited@);
            assert forall|p: (u32, u32)|
                #[trigger] marked(visited@, w, h).contains(p) && !queue@.contains(
                    index_of(h, p) as usize,
                ) && zeros.contains(p) implies neighbor_set(w, h, p).subset_of(
                marked(visited@, w, h),
            ) by {
                lemma_index_in_range(w, h, p);
            }
        }
        while queue.len() > 0
            invariant
                old(self).wf(),
                orig == old(self).cells@,
                w == old(self).grid.width,
                h == old(self).grid.height,
                zeros == zero_set(orig, w, h),
                seeds == seed_set(orig, w, h),
                n == orig.len(),
                self.grid == old(self).grid,
                self.cells@.len() == n,
                visited@.len() == n,
                forall|j: int|
                    0 <= j < n ==> #[trigger] self.cells@[j] == (Cell {
                        is_opening: false,
                        ..orig[j]
                    }),
                queue@.no_duplicates(),
                forall|k: int|
                    0 <= k < queue@.len() ==> #[trigger] queue@[k] < n && visited@[queue@[k] as int],
                seeds.subset_of(marked(visited@, w, h)),
                forall|s: Set<(u32, u32)>|
                    seeds.subset_of(s) && #[trigger] closed_under(w, h, zeros, s) ==> marked(
                        visited@,
                        w,
                        h,
                    ).subset_of(s),
                forall|p: (u32, u32)|
                    #[trigger] marked(visited@, w, h).contains(p) && !queue@.contains(
                        index_of(h, p) as usize,
                    ) && zeros.contains(p) ==> neighbor_set(w, h, p).subset_of(
                        marked(visited@, w, h),
                    ),
                count_true(visited@) <= n,
            decreases 2 * (n - count_true(visited@)) + queue@.len(),
        {
            let ghost measure = 2 * (n - count_true(visited@)) + queue@.len();
            let ghost q0 = queue@;
            let i = queue.pop().unwrap();
            let ghost pi = pos(orig[i as int]);
            proof {
                assert(q0 =~= queue@.push(i));
                assert(!queue@.contains(i)) by {
                    if queue@.contains(i) {
                        let k = choose|k: int| 0 <= k < queue@.len() && queue@[k] == i;
                        assert(q0[k] == q0[q0.len() - 1]);
                    }
                }
                assert forall|k: int| 0 <= k < queue@.len() implies #[trigger] queue@[k] < n
                    && visited@[queue@[k] as int] by {
                    assert(queue@[k] == q0[k]);
                }
            }
            proof {
                lemma_index_in_range(w, h, pi);
                assert forall|p: (u32, u32)|
                    #[trigger] marked(visited@, w, h).contains(p) && !queue@.contains(
                        index_of(h, p) as usize,
                    ) && zeros.contains(p) && p != pi implies neighbor_set(w, h, p).subset_of(
                    marked(visited@, w, h),
                ) by {
                    lemma_index_in_range(w, h, p);
                    if index_of(h, p) == i {
                        lemma_index_injective(w, h, p, pi);
                    }
                    if q0.contains(index_of(h, p) as usize) {
                        let kk = choose|kk: int|
                            0 <= kk < q0.len() && q0[kk] == index_of(h, p) as usize;
                        if kk < queue@.len() {
                            assert(queue@[kk] == q0[kk]);
                        }
                    }
                }
            }
            let c = self.cells[i];
            if !c.is_mine && c.num_mines_around == 0 {
                let around = self.grid.get_arround_cells(c.x, c.y);
                let ghost v0 = visited@;
                let mut k: usize = 0;
                while k < around.len()
                    invariant
                        old(self).wf(),
                        orig == old(self).cells@,
                        w == old(self).grid.width,
                        h == old(self).grid.height,
                        zeros == zero_set(orig, w, h),
                        seeds == seed_set(orig, w, h),
                        n == orig.len(),
                        self.grid == old(self).grid,
                        self.cells@.len() == n,
                        visited@.len() == n,
                        forall|j: int|
                            0 <= j < n ==> #[trigger] self.cells@[j] == (Cell {
                                is_opening: false,
                                ..orig[j]
                            }),
                        0 <= i < n,
                        pi == pos(orig[i as int]),
                        zeros.contains(pi),
                        marked(visited@, w, h).contains(pi),
                        !queue@.contains(i),
                        around@.no_duplicates(),
                        forall|q: (u32, u32)| around@.contains(q) <==> adjacent(w, h, pi, q),
                        0 <= k <= around@.len(),
                        queue@.no_duplicates(),
                        forall|kk: int|
                            0 <= kk < queue@.len() ==> #[trigger] queue@[kk] < n
                                && visited@[queue@[kk] as int],
                        v0.len() == n,
                        forall|j: int| 0 <= j < n && v0[j] ==> #[trigger] visited@[j],
                        seeds.subset_of(marked(visited@, w, h)),
                        forall|s: Set<(u32, u32)>|
                            seeds.subset_of(s) && #[trigger] closed_under(w, h, zeros, s)
                                ==> marked(visited@, w, h).subset_of(s),
                        forall|p: (u32, u32)|
                            #[trigger] marked(visited@, w, h).contains(p) && !queue@.contains(
                                index_of(h, p) as usize,
                            ) && zeros.contains(p) && p != pi ==> neighbor_set(w, h, p).subset_of(
                                marked(visited@, w, h),
                            ),
                        forall|m: int|
                            0 <= m < k ==> marked(visited@, w, h).contains(#[trigger] around@[m]),
                        count_true(visited@) <= n,
                        2 * (n - count_true(visited@)) + queue@.len() < measure,
                    decreases around@.len() - k,
                {
                    let (qx, qy) = around[k];
                    proof {
                        assert(around@.contains(around@[k as int]));
                    }
                    let j = self.grid.find_cell(qx, qy).unwrap();
                    proof {
                        lemma_index_in_range(w, h, (qx, qy));
                    }
                    if !visited[j] {
                        let ghost vb = visited@;
                        let ghost qb = queue@;
                        visited.set(j, true);
                        queue.push(j);
                        proof {
                            lemma_count_true_set(vb, j as int);
                            lemma_count_true_bound(visited@);
                            assert forall|p: (u32, u32)|
                                #[trigger] marked(visited@, w, h).contains(p) == marked(
                                    vb,
                                    w,
                                    h,
                                ).insert((qx, qy)).contains(p) by {
                                if in_bounds(w, h, p) {
                                    lemma_index_in_range(w, h, p);
                                    if index_of(h, p) == j {
                                        lemma_index_injective(w, h, p, (qx, qy));
                                    }
                                }
                            }
                            assert(marked(visited@, w, h) =~= marked(vb, w, h).insert((qx, qy)));
                            assert(!qb.contains(j)) by {
                                if qb.contains(j) {
                                    let kk = choose|kk: int| 0 <= kk < qb.len() && qb[kk] == j;
                                }
                            }
                            assert forall|kk: int| 0 <= kk < queue@.len() implies #[trigger] queue@[kk]
                                < n && visited@[queue@[kk] as int] by {
                                if kk < qb.len() {
                                    assert(queue@[kk] == qb[kk]);
                                }
                            }
                            assert forall|s: Set<(u32, u32)>|
                                seeds.subset_of(s) && #[trigger] closed_under(w, h, zeros, s)
                                    implies marked(visited@, w, h).subset_of(s) by {
                                assert(marked(vb, w, h).subset_of(s));
                                assert(s.contains(pi));
                                assert(adjacent(w, h, pi, (qx, qy)));
                            }
                            assert forall|p: (u32, u32)|
                                #[trigger] marked(visited@, w, h).contains(p) && !queue@.contains(
                                    index_of(h, p) as usize,
                                ) && zeros.contains(p) && p != pi implies neighbor_set(
                                w,
                                h,
                                p,
                            ).subset_of(marked(visited@, w, h)) by {
                                if p != (qx, qy) {
                                    assert(marked(vb, w, h).contains(p));
                                    if qb.contains(index_of(h, p) as usize) {
                                        let kk = choose|kk: int|
                                            0 <= kk < qb.len() && qb[kk] == index_of(h, p) as usize;
                                        assert(queue@[kk] == qb[kk]);
                                    }
                                    assert(neighbor_set(w, h, p).subset_of(marked(vb, w, h)));
                                } else {
                                    assert(queue@[queue@.len() - 1] == j);
                                }
                            }
                        }
                    }
                    k = k + 1;
                }
                proof {
                    assert forall|q: (u32, u32)| neighbor_set(w, h, pi).contains(q) implies marked(
                        visited@,
                        w,
                        h,
                    ).contains(q) by {
                        assert(around@.contains(q));
                        let m = choose|m: int| 0 <= m < around@.len() && around@[m] == q;
                    }
                }
            } else {
                proof {
                    assert(!zeros.contains(pi)) by {
                        lemma_index_in_range(w, h, pi);
                    }
                }
            }
        }
        let ghost t = marked(visited@, w, h);
        proof {
            assert(closed_under(w, h, zeros, t)) by {
                assert forall|p: (u32, u32), q: (u32, u32)|
                    #[trigger] t.contains(p) && zeros.contains(p) && #[trigger] adjacent(w, h, p, q)
                        implies t.contains(q) by {
                    assert(neighbor_set(w, h, p).contains(q));
                }
            }
            assert(t =~= flood_target(orig, w, h)) by {
                assert forall|p: (u32, u32)| t.contains(p) implies flood_target(
                    orig,
                    w,
                    h,
                ).contains(p) by {
                    assert forall|s: Set<(u32, u32)>|
                        seeds.subset_of(s) && #[trigger] closed_under(w, h, zeros, s) implies s.contains(
                        p,
                    ) by {
                        assert(t.subset_of(s));
                    }
                }
                assert forall|p: (u32, u32)| flood_target(orig, w, h).contains(p) implies t.contains(
                    p,
                ) by {
                    assert(seeds.subset_of(t));
                }
            }
        }
        let mut result = true;
        let mut i: usize = 0;
        while i < n
            invariant
                old(self).wf(),
                orig == old(self).cells@,
                w == old(self).grid.width,
                h == old(self).grid.height,
                n == orig.len(),
                self.grid == old(self).grid,
                self.cells@.len() == n,
                visited@.len() == n,
                t == marked(visited@, w, h),
                t == flood_target(orig, w, h),
                0 <= i <= n,
                forall|j: int|
                    i <= j < n ==> #[trigger] self.cells@[j] == (Cell { is_opening: false, ..orig[j] }),
                forall|j: int| 0 <= j < i ==> #[trigger] self.cells@[j] == opened(orig[j], t),
                result == (forall|j: int|
                    0 <= j < i && t.contains(pos(#[trigger] orig[j])) ==> orig[j].open_ok()),
            decreases n - i,
        {
            proof {
                lemma_index_in_range(w, h, pos(orig[i as int]));
                assert(t.contains(pos(orig[i as int])) == visited@[i as int]);
            }
            if visited[i] {
                let mut c = self.cells[i];
                let ok = c.open();
                self.cells.set(i, c);
                result = result && ok;
            }
            i = i + 1;
        }
        proof {
            assert(self.cells@ =~= after_flood(orig, w, h));
        }
        result
    }
}

} // verus!
