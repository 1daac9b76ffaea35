use vstd::prelude::*;
use crate::cell::{Cell, CellState};
use crate::board::{pos, cell_at, cells_wf, all_cleared, pressed_at, released_at};
use crate::grid::{in_bounds, adjacent, neighbor_set, index_of, MAX_CELLS};
use crate::grid::lemma_index_in_range;
use crate::flood::{
    after_flood,
    flood_ok,
    flood_target,
    closed_under,
    seed_set,
    zero_set,
    opened,
    flood_region,
    lemma_flood_region,
    lemma_pos_index,
};
use crate::chord::{
    Touch,
    touched,
    touch_at,
    after_queries,
    clear_queries,
    querying_step,
    querying_out_step,
    querying_done_step,
    flags_around,
};
use crate::game::{cycle_outcome, after_cycle};
use crate::state::GameState;

verus! {

proof fn lemma_bounded_by(w: u32, h: u32, p: (u32, u32), s: Set<(u32, u32)>)
    requires
        s.finite(),
        forall|q: (u32, u32)| adjacent(w, h, p, q) ==> s.contains(q),
    ensures
        neighbor_set(w, h, p).finite(),
        neighbor_set(w, h, p).len() <= s.len(),
{
    vstd::set_lib::lemma_len_subset(neighbor_set(w, h, p), s);
}

/// Neighbors never wrap around the board: a cell has at most eight of them,
/// a cell on an edge at most five, a corner cell at most three.
pub proof fn lemma_neighbor_counts(w: u32, h: u32, p: (u32, u32))
    requires
        1 <= w,
        1 <= h,
        w * h <= MAX_CELLS,
        in_bounds(w, h, p),
    ensures
        neighbor_set(w, h, p).finite(),
        neighbor_set(w, h, p).len() <= 8,
        p.0 == 1 || p.0 == w || p.1 == 1 || p.1 == h ==> neighbor_set(w, h, p).len() <= 5,
        (p.0 == 1 || p.0 == w) && (p.1 == 1 || p.1 == h) ==> neighbor_set(w, h, p).len() <= 3,
{
    assert(w <= w * h && h <= w * h) by (nonlinear_arith)
        requires
            1 <= w,
            1 <= h,
    ;
    let x = p.0;
    let y = p.1;
    let l = (x - 1) as u32;
    let r = (x + 1) as u32;
    let d = (y - 1) as u32;
    let u = (y + 1) as u32;
    lemma_bounded_by(w, h, p, set![(l, d), (x, d), (r, d), (l, y), (r, y), (l, u), (x, u), (r, u)]);
    if x == 1 {
        lemma_bounded_by(w, h, p, set![(x, d), (r, d), (r, y), (x, u), (r, u)]);
    }
    if x == w {
        lemma_bounded_by(w, h, p, set![(l, d), (x, d), (l, y), (l, u), (x, u)]);
    }
    if y == 1 {
        lemma_bounded_by(w, h, p, set![(l, y), (r, y), (l, u), (x, u), (r, u)]);
    }
    if y == h {
        lemma_bounded_by(w, h, p, set![(l, d), (x, d), (r, d), (l, y), (r, y)]);
    }
    if x == 1 && y == 1 {
        lemma_bounded_by(w, h, p, set![(r, y), (x, u), (r, u)]);
    }
    if x == 1 && y == h {
        lemma_bounded_by(w, h, p, set![(x, d), (r, d), (r, y)]);
    }
    if x == w && y == 1 {
        lemma_bounded_by(w, h, p, set![(l, y), (l, u), (x, u)]);
    }
    if x == w && y == h {
        lemma_bounded_by(w, h, p, set![(l, d), (x, d), (l, y)]);
    }
}

/// Flagging a hidden cell twice leaves it as it was.
pub proof fn lemma_flag_twice(c: Cell)
    requires
        c.state == CellState::Hidden,
    ensures
        c.after_flag_toggle().state == CellState::Flagged,
        c.after_flag_toggle().after_flag_toggle() == c,
{
}

/// Opening a cell a second time changes nothing and is safe.
pub proof fn lemma_open_twice(c: Cell)
    ensures
        c.after_open().after_open() == c.after_open(),
        c.after_open().open_ok(),
{
}

/// Flood-fill shape: the region holds every cell asked to be opened and every
/// neighbor of each zero cell it holds, and any other cell in it borders a
/// zero cell it holds; nothing beyond that border is reached.
pub proof fn lemma_flood_region_shape(
    w: u32,
    h: u32,
    zeros: Set<(u32, u32)>,
    seeds: Set<(u32, u32)>,
)
    ensures
        seeds.subset_of(flood_region(w, h, zeros, seeds)),
        forall|p: (u32, u32), q: (u32, u32)|
            flood_region(w, h, zeros, seeds).contains(p) && zeros.contains(p) && adjacent(w, h, p, q)
                ==> flood_region(w, h, zeros, seeds).contains(q),
        forall|q: (u32, u32)|
            #[trigger] flood_region(w, h, zeros, seeds).contains(q) ==> seeds.contains(q) || exists|
                p: (u32, u32),
            |
                flood_region(w, h, zeros, seeds).contains(p) && zeros.contains(p) && adjacent(
                    w,
                    h,
                    p,
                    q,
                ),
{
    let t = flood_region(w, h, zeros, seeds);
    lemma_flood_region(w, h, zeros, seeds);
    let border = Set::new(
        |q: (u32, u32)|
            seeds.contains(q) || exists|p: (u32, u32)|
                t.contains(p) && zeros.contains(p) && adjacent(w, h, p, q),
    );
    assert(border.subset_of(t));
    assert(closed_under(w, h, zeros, border)) by {
        assert forall|p: (u32, u32), q: (u32, u32)|
            #[trigger] border.contains(p) && zeros.contains(p) && #[trigger] adjacent(
                w,
                h,
                p,
                q,
            ) implies border.contains(q) by {
            assert(t.contains(p));
        }
    }
    assert(seeds.subset_of(border));
    assert(t.subset_of(border));
}

/// `cells` with exactly the cells at positions in `seeds` asking to be opened.
pub open spec fn with_opening(cells: Seq<Cell>, seeds: Set<(u32, u32)>) -> Seq<Cell> {
    cells.map_values(|c: Cell| Cell { is_opening: seeds.contains(pos(c)), ..c })
}

/// Two boards with the same positions and mine data spread flood-fill the
/// same way.
proof fn lemma_same_zeros(a: Seq<Cell>, b: Seq<Cell>, w: u32, h: u32)
    requires
        cells_wf(a, w, h),
        b.len() == a.len(),
        forall|i: int|
            0 <= i < a.len() ==> (#[trigger] b[i]).is_mine == a[i].is_mine
                && b[i].num_mines_around == a[i].num_mines_around,
    ensures
        zero_set(a, w, h) == zero_set(b, w, h),
{
    assert forall|p: (u32, u32)| zero_set(a, w, h).contains(p) == zero_set(b, w, h).contains(p) by {
        if in_bounds(w, h, p) {
            lemma_index_in_range(w, h, p);
        }
    }
    assert(zero_set(a, w, h) =~= zero_set(b, w, h));
}

/// Opening the same cells again after a flood open is a no-op: nothing
/// changes and nothing fails.
pub proof fn lemma_flood_again_is_noop(cells: Seq<Cell>, w: u32, h: u32)
    requires
        cells_wf(cells, w, h),
    ensures
        after_flood(with_opening(after_flood(cells, w, h), seed_set(cells, w, h)), w, h)
            == after_flood(cells, w, h),
        flood_ok(with_opening(after_flood(cells, w, h), seed_set(cells, w, h)), w, h),
{
    let seeds = seed_set(cells, w, h);
    let t = flood_target(cells, w, h);
    let once = after_flood(cells, w, h);
    let again = with_opening(once, seeds);
    lemma_same_zeros(cells, again, w, h);
    assert forall|p: (u32, u32)| seed_set(again, w, h).contains(p) == seeds.contains(p) by {
        if in_bounds(w, h, p) {
            lemma_index_in_range(w, h, p);
        }
    }
    assert(seed_set(again, w, h) =~= seeds);
    assert(flood_target(again, w, h) == t);
    assert forall|i: int| 0 <= i < cells.len() implies #[trigger] after_flood(again, w, h)[i]
        == once[i] by {
        assert(again[i] == Cell { is_opening: seeds.contains(pos(once[i])), ..once[i] });
        assert(opened(again[i], t) == opened(once[i], t));
    }
    assert(after_flood(again, w, h) =~= once);
}

/// The single-cell effects of chord handling: position and mine data stay,
/// an opening request stays, and a covered cell stays covered.
proof fn lemma_touch_keeps(c: Cell, kind: Touch)
    ensures
        pos(touched(c, kind)) == pos(c),
        touched(c, kind).is_mine == c.is_mine,
        touched(c, kind).num_mines_around == c.num_mines_around,
        c.is_opening ==> touched(c, kind).is_opening,
        (c.state == CellState::Hidden || c.state == CellState::Pressed) ==> (touched(c, kind).state
            == CellState::Hidden || touched(c, kind).state == CellState::Pressed),
{
}

proof fn lemma_touch_at_keeps(cells: Seq<Cell>, qs: Set<(u32, u32)>, kind: Touch, i: int)
    requires
        0 <= i < cells.len(),
    ensures
        touch_at(cells, qs, kind).len() == cells.len(),
        pos(touch_at(cells, qs, kind)[i]) == pos(cells[i]),
        touch_at(cells, qs, kind)[i].is_mine == cells[i].is_mine,
        touch_at(cells, qs, kind)[i].num_mines_around == cells[i].num_mines_around,
        cells[i].is_opening ==> touch_at(cells, qs, kind)[i].is_opening,
        (cells[i].state == CellState::Hidden || cells[i].state == CellState::Pressed) ==> (touch_at(
            cells,
            qs,
            kind,
        )[i].state == CellState::Hidden || touch_at(cells, qs, kind)[i].state
            == CellState::Pressed),
{
    lemma_touch_keeps(cells[i], kind);
}

/// What chord handling keeps of the cell at index `i`.
proof fn lemma_queries_keep(cells: Seq<Cell>, w: u32, h: u32, i: int)
    requires
        0 <= i < cells.len(),
    ensures
        after_queries(cells, w, h).len() == cells.len(),
        pos(after_queries(cells, w, h)[i]) == pos(cells[i]),
        after_queries(cells, w, h)[i].is_mine == cells[i].is_mine,
        after_queries(cells, w, h)[i].num_mines_around == cells[i].num_mines_around,
        cells[i].is_opening ==> after_queries(cells, w, h)[i].is_opening,
        (cells[i].state == CellState::Hidden || cells[i].state == CellState::Pressed) ==> (
        after_queries(cells, w, h)[i].state == CellState::Hidden || after_queries(
            cells,
            w,
            h,
        )[i].state == CellState::Pressed),
{
    let c0 = clear_queries(cells);
    crate::chord::lemma_last_with_range(cells, crate::cell::QueryState::QueryingOut);
    crate::chord::lemma_last_with_range(cells, crate::cell::QueryState::Querying);
    crate::chord::lemma_last_with_range(cells, crate::cell::QueryState::QueryingDone);
    let o = crate::chord::last_with(cells, crate::cell::QueryState::QueryingOut);
    let q = crate::chord::last_with(cells, crate::cell::QueryState::Querying);
    let d = crate::chord::last_with(cells, crate::cell::QueryState::QueryingDone);
    let c1 = if o >= 0 {
        querying_out_step(c0, w, h, o)
    } else {
        c0
    };
    let c2 = if q >= 0 {
        querying_step(c1, w, h, q)
    } else {
        c1
    };
    if o >= 0 {
        lemma_touch_at_keeps(c0, neighbor_set(w, h, pos(c0[o])), Touch::Unpreview, i);
    }
    if q >= 0 {
        lemma_touch_at_keeps(c1, neighbor_set(w, h, pos(c1[q])), Touch::Preview, i);
    }
    if d >= 0 {
        let pd = pos(c2[d]);
        lemma_touch_at_keeps(
            c2,
            neighbor_set(w, h, pd),
            Touch::Chord(flags_around(c2, w, h, pd) == c2[d].num_mines_around),
            i,
        );
    }
}

/// Chord handling keeps the board well formed.
proof fn lemma_queries_wf(cells: Seq<Cell>, w: u32, h: u32)
    requires
        cells_wf(cells, w, h),
    ensures
        cells_wf(after_queries(cells, w, h), w, h),
{
    let q = after_queries(cells, w, h);
    assert(w * h >= 1) by (nonlinear_arith)
        requires
            1 <= w,
            1 <= h,
    ;
    lemma_queries_keep(cells, w, h, 0);
    assert forall|i: int| 0 <= i < q.len() implies {
        &&& in_bounds(w, h, pos(#[trigger] q[i]))
        &&& index_of(h, pos(q[i])) == i
        &&& q[i].num_mines_around <= 8
    } by {
        lemma_queries_keep(cells, w, h, i);
    }
}

/// Holding and releasing the primary button on a hidden mine explodes it,
/// and the update cycle that follows ends the game in defeat.
pub proof fn lemma_mine_click_defeats(cells: Seq<Cell>, w: u32, h: u32, p: (u32, u32))
    requires
        cells_wf(cells, w, h),
        in_bounds(w, h, p),
        cell_at(cells, h, p).state == CellState::Hidden,
        cell_at(cells, h, p).is_mine,
        !cell_at(cells, h, p).is_left_pressed,
    ensures
        cell_at(after_cycle(released_at(pressed_at(cells, Some(p)), Some(p)), w, h), h, p).state
            == CellState::Exploded,
        cycle_outcome(released_at(pressed_at(cells, Some(p)), Some(p)), w, h) == Some(
            GameState::Defeated,
        ),
{
    let i = index_of(h, p);
    lemma_index_in_range(w, h, p);
    lemma_pos_index(cells, w, h, i, p);
    let clicked = released_at(pressed_at(cells, Some(p)), Some(p));
    assert(clicked[i].state == CellState::Pressed && clicked[i].is_opening && clicked[i].is_mine);
    assert(pos(clicked[i]) == p);
    assert(cells_wf(clicked, w, h)) by {
        assert forall|j: int| 0 <= j < clicked.len() implies {
            &&& in_bounds(w, h, pos(#[trigger] clicked[j]))
            &&& index_of(h, pos(clicked[j])) == j
            &&& clicked[j].num_mines_around <= 8
        } by {
            assert(pos(clicked[j]) == pos(cells[j]));
        }
    }
    let q = after_queries(clicked, w, h);
    lemma_queries_keep(clicked, w, h, i);
    lemma_queries_wf(clicked, w, h);
    let t = flood_target(q, w, h);
    lemma_flood_region(w, h, zero_set(q, w, h), seed_set(q, w, h));
    assert(seed_set(q, w, h).contains(p));
    assert(t.contains(p));
    let after = after_flood(q, w, h);
    assert(after[i] == opened(q[i], t));
    assert(after[i].state == CellState::Exploded);
    assert(!all_cleared(after));
    assert(!flood_ok(q, w, h)) by {
        assert(t.contains(pos(q[i])));
        assert(!q[i].open_ok());
    }
}

/// The game is won exactly when the cycle leaves every cell flagged or
/// revealed, whether or not the flags are right.
pub proof fn lemma_win_iff_cleared(cells: Seq<Cell>, w: u32, h: u32)
    ensures
        (cycle_outcome(cells, w, h) == Some(GameState::Win)) == all_cleared(
            after_cycle(cells, w, h),
        ),
{
}

/// Releasing a chord on a revealed number whose flags match it opens every
/// previewed neighbor; when the flags do not match, the preview is only
/// taken back and nothing opens.
pub proof fn lemma_chord_release(cells: Seq<Cell>, w: u32, h: u32, s: int)
    requires
        cells_wf(cells, w, h),
        0 <= s < cells.len(),
        cells[s].state == CellState::Revealed,
        cells[s].is_chord_source(),
        forall|j: int| 0 <= j < cells.len() ==> !(#[trigger] cells[j]).is_opening,
    ensures
        ({
            let p = pos(cells[s]);
            let done = querying_done_step(cells, w, h, s);
            let result = after_flood(done, w, h);
            &&& flags_around(cells, w, h, p) == cells[s].num_mines_around ==> forall|j: int|
                0 <= j < cells.len() && adjacent(w, h, p, pos(#[trigger] cells[j]))
                    && cells[j].state == CellState::Pressed ==> result[j].state
                    == CellState::Revealed || result[j].state == CellState::Exploded
            &&& flags_around(cells, w, h, p) != cells[s].num_mines_around ==> forall|j: int|
                0 <= j < cells.len() ==> #[trigger] result[j].state == done[j].state
                    && !result[j].is_opening && (adjacent(w, h, p, pos(cells[j]))
                    && cells[j].state == CellState::Pressed ==> result[j].state
                    == CellState::Hidden)
        }),
{
    let p = pos(cells[s]);
    let open_others = flags_around(cells, w, h, p) == cells[s].num_mines_around;
    let done = querying_done_step(cells, w, h, s);
    assert(done == touch_at(cells, neighbor_set(w, h, p), Touch::Chord(open_others)));
    assert(cells_wf(done, w, h)) by {
        assert forall|j: int| 0 <= j < done.len() implies {
            &&& in_bounds(w, h, pos(#[trigger] done[j]))
            &&& index_of(h, pos(done[j])) == j
            &&& done[j].num_mines_around <= 8
        } by {
            lemma_touch_at_keeps(cells, neighbor_set(w, h, p), Touch::Chord(open_others), j);
        }
    }
    let t = flood_target(done, w, h);
    lemma_flood_region(w, h, zero_set(done, w, h), seed_set(done, w, h));
    if open_others {
        assert forall|j: int|
            0 <= j < cells.len() && adjacent(w, h, p, pos(#[trigger] cells[j])) && cells[j].state
                == CellState::Pressed implies after_flood(done, w, h)[j].state
            == CellState::Revealed || after_flood(done, w, h)[j].state == CellState::Exploded by {
            assert(neighbor_set(w, h, p).contains(pos(cells[j])));
            assert(done[j].state == CellState::Hidden && done[j].is_opening);
            lemma_index_in_range(w, h, pos(done[j]));
            assert(seed_set(done, w, h).contains(pos(done[j])));
            assert(t.contains(pos(done[j])));
        }
    } else {
        assert(seed_set(done, w, h) =~= Set::<(u32, u32)>::empty()) by {
            assert forall|q: (u32, u32)| !seed_set(done, w, h).contains(q) by {
                if in_bounds(w, h, q) {
                    lemma_index_in_range(w, h, q);
                }
            }
        }
        let none = Set::<(u32, u32)>::empty();
        assert(closed_under(w, h, zero_set(done, w, h), none));
        assert(t =~= none) by {
            assert forall|q: (u32, u32)| !t.contains(q) by {
                assert(!none.contains(q));
            }
        }
    }
}

} // verus!
