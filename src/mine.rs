use vstd::prelude::*;
use crate::board::{Board, flag_count, lemma_flag_count_bound};

verus! {

/// Mines asked for by the current preset.
pub struct TotalMine(pub u32);

/// Mines asked for minus flags placed; negative when there are more flags.
pub struct RemainingMine(pub i32);

impl Default for TotalMine {
    fn default() -> (r: TotalMine)
        ensures
            r.0 == 99,
    {
        TotalMine(99)
    }
}

impl TotalMine {
    pub fn new() -> (r: TotalMine)
        ensures
            r.0 == 99,
    {
        TotalMine::default()
    }

    pub fn init(&mut self, num_mines: u32)
        ensures
            final(self).0 == num_mines,
    {
        self.0 = num_mines;
    }
}

impl Default for RemainingMine {
    fn default() -> (r: RemainingMine)
        ensures
            r.0 == 0,
    {
        RemainingMine(0)
    }
}

/// Recomputes the mine counter from the flags on the board.
pub fn update_mines(board: &Board, total_mine: &TotalMine, remaining_mine: &mut RemainingMine)
    requires
        board.wf(),
        total_mine.0 <= i32::MAX,
    ensures
        final(remaining_mine).0 == total_mine.0 - flag_count(board.cells@),
{
    let num_of_flagged = board.count_flags();
    proof {
        lemma_flag_count_bound(board.cells@);
    }
    remaining_mine.0 = total_mine.0 as i32 - num_of_flagged as i32;
}

} // verus!
