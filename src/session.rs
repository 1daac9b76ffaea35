use vstd::prelude::*;
use crate::board::{Board, pos, flag_count, pressed_at, released_at, flag_toggled_at};
use crate::cell::Cell;
use crate::game::{init, after_cycle, cycle_outcome, last_opening};
use crate::grid::capacity;
use crate::mine::{TotalMine, RemainingMine, update_mines};
use crate::state::{Difficulty, GameState, preset};
use crate::timer::{Timer, TimerState};
use crate::smile::{SmileComponent, SmileSprite};

verus! {

/// One game from first click to its end, with its counter and stopwatch.
pub struct Session {
    pub state: GameState,
    pub difficulty: Difficulty,
    pub board: Board,
    pub total_mine: TotalMine,
    pub remaining_mine: RemainingMine,
    pub timer: Timer,
    pub smile: SmileComponent,
}

impl Session {
    pub open spec fn wf(&self) -> bool {
        &&& self.board.wf()
        &&& (self.board.grid.width, self.board.grid.height, self.total_mine.0) == preset(
            self.difficulty,
        )
        &&& self.state != GameState::Init
        &&& self.state == GameState::Ready ==> self.timer.state == (TimerState::Stopped {
            elapsed: 0,
        })
        &&& match self.timer.state {
            TimerState::Running { elapsed, .. } => elapsed == 0,
            TimerState::Stopped { .. } => true,
        }
    }

    /// Whether the board takes input: only until the game ends.
    pub open spec fn accepts_input(&self) -> bool {
        self.state == GameState::Ready || self.state == GameState::Playing
    }

    /// A fresh game of `difficulty`, waiting for its first click.
    pub fn new(difficulty: Difficulty) -> (r: Session)
        ensures
            r.wf(),
            r.state == GameState::Ready,
            r.difficulty == difficulty,
            r.board.planted(),
            (r.board.grid.width, r.board.grid.height, r.total_mine.0) == preset(difficulty),
            forall|i: int|
                0 <= i < r.board.cells@.len() ==> (#[trigger] r.board.cells@[i]).is_fresh(),
            r.remaining_mine.0 == r.total_mine.0,
            r.board.grid.mines().len() == r.total_mine.0,
            r.timer.state == (TimerState::Stopped { elapsed: 0 }),
            !r.smile.is_pressed,
            r.smile.state == SmileSprite::Normal,
    {
        let mut total_mine = TotalMine::new();
        let board = init(difficulty, &mut total_mine);
        let remaining_mine = RemainingMine(total_mine.0 as i32);
        Session {
            state: GameState::Ready,
            difficulty,
            board,
            total_mine,
            remaining_mine,
            timer: Timer::new(),
            smile: SmileComponent::new(),
        }
    }

    /// A new board of `difficulty`, from any state.
    pub fn set_difficulty(&mut self, difficulty: Difficulty)
        ensures
            final(self).wf(),
            final(self).state == GameState::Ready,
            final(self).difficulty == difficulty,
            final(self).board.planted(),
            (final(self).board.grid.width, final(self).board.grid.height, final(self).total_mine.0)
                == preset(difficulty),
            forall|i: int|
                0 <= i < final(self).board.cells@.len()
                    ==> (#[trigger] final(self).board.cells@[i]).is_fresh(),
    {
        *self = Session::new(difficulty);
    }

    /// A new game of the current difficulty, from any state: the board is
    /// built again with a new mine layout, every cell hidden, the stopwatch
    /// at zero and the counter full.
    pub fn restart(&mut self)
        ensures
            final(self).wf(),
            final(self).state == GameState::Ready,
            final(self).difficulty == old(self).difficulty,
            final(self).board.planted(),
            (final(self).board.grid.width, final(self).board.grid.height, final(self).total_mine.0)
                == preset(old(self).difficulty),
            final(self).board.grid.mines().len() == final(self).total_mine.0,
            forall|i: int|
                0 <= i < final(self).board.cells@.len()
                    ==> (#[trigger] final(self).board.cells@[i]).is_fresh(),
            final(self).remaining_mine.0 == final(self).total_mine.0,
            final(self).timer.state == (TimerState::Stopped { elapsed: 0 }),
            !final(self).smile.is_pressed,
            final(self).smile.state == SmileSprite::Normal,
    {
        *self = Session::new(self.difficulty);
    }

    /// The primary button went down on the face.
    pub fn press_smile(&mut self)
        requires
            old(self).wf(),
        ensures
            final(self).wf(),
            final(self).state == old(self).state,
            final(self).board == old(self).board,
            final(self).smile.is_pressed,
    {
        self.smile.pressed();
    }

    /// The primary button came up after pressing the face: a new game of the
    /// same difficulty begins.
    pub fn release_smile(&mut self)
        requires
            old(self).wf(),
        ensures
            final(self).wf(),
            !final(self).smile.is_pressed,
            old(self).smile.is_pressed ==> {
                &&& final(self).state == GameState::Ready
                &&& final(self).difficulty == old(self).difficulty
                &&& final(self).board.planted()
                &&& (final(self).board.grid.width, final(self).board.grid.height) == (
                    old(self).board.grid.width,
                    old(self).board.grid.height,
                )
                &&& final(self).board.grid.mines().len() == final(self).total_mine.0
                &&& forall|i: int|
                    0 <= i < final(self).board.cells@.len()
                        ==> (#[trigger] final(self).board.cells@[i]).is_fresh()
                &&& final(self).remaining_mine.0 == final(self).total_mine.0
                &&& final(self).timer.state == (TimerState::Stopped { elapsed: 0 })
            },
            !old(self).smile.is_pressed ==> final(self).state == old(self).state
                && final(self).board == old(self).board,
    {
        if let Some(GameState::Init) = self.smile.released() {
            self.restart();
        }
    }

    /// The primary button is held over `target`.
    pub fn press(&mut self, target: Option<(u32, u32)>)
        requires
            old(self).wf(),
        ensures
            final(self).wf(),
            final(self).board.grid == old(self).board.grid,
            final(self).board.cells@ == if old(self).accepts_input() {
                pressed_at(old(self).board.cells@, target)
            } else {
                old(self).board.cells@
            },
            final(self).state == old(self).state,
    {
        if self.state == GameState::Ready || self.state == GameState::Playing {
            self.board.left_pressed_at(target);
        }
    }

    /// The primary button was released over `target`.
    pub fn release(&mut self, target: Option<(u32, u32)>)
        requires
            old(self).wf(),
        ensures
            final(self).wf(),
            final(self).board.grid == old(self).board.grid,
            final(self).board.cells@ == if old(self).accepts_input() {
                released_at(old(self).board.cells@, target)
            } else {
                old(self).board.cells@
            },
            final(self).state == old(self).state,
    {
        if self.state == GameState::Ready || self.state == GameState::Playing {
            self.board.left_released_at(target);
        }
    }

    /// The secondary button went down over `target`; the mine counter follows
    /// at once.
    pub fn toggle_flag(&mut self, target: Option<(u32, u32)>)
        requires
            old(self).wf(),
        ensures
            final(self).wf(),
            final(self).board.grid == old(self).board.grid,
            final(self).board.cells@ == if old(self).accepts_input() {
                flag_toggled_at(old(self).board.cells@, target)
            } else {
                old(self).board.cells@
            },
            final(self).state == old(self).state,
            old(self).accepts_input() ==> final(self).remaining_mine.0 == final(self).total_mine.0
                - flag_count(final(self).board.cells@),
    {
        if self.state == GameState::Ready || self.state == GameState::Playing {
            self.board.right_just_pressed_at(target);
            update_mines(&self.board, &self.total_mine, &mut self.remaining_mine);
        }
    }

    /// One update cycle at clock reading `now` (milliseconds). Before the
    /// first click, the first cell asked to open gets a safe layout and play
    /// begins; while playing, chords and openings are resolved and the game
    /// ends in a win or a defeat, a defeat showing every hidden mine.
    pub fn cycle(&mut self, now: u64)
        requires
            old(self).wf(),
        ensures
            final(self).wf(),
            final(self).difficulty == old(self).difficulty,
            old(self).state == GameState::Ready ==> {
                let opening = last_opening(old(self).board.cells@);
                &&& final(self).state == if opening >= 0 {
                    GameState::Playing
                } else {
                    GameState::Ready
                }
                &&& opening < 0 ==> final(self).board.cells@ == old(self).board.cells@
                &&& opening >= 0 ==> {
                    let p = pos(old(self).board.cells@[opening]);
                    &&& final(self).board.planted()
                    &&& !final(self).board.grid.mines().contains(p)
                    &&& final(self).board.grid.mines().len() == if old(self).total_mine.0
                        <= capacity(old(self).board.width(), old(self).board.height(), Some(p)) {
                        old(self).total_mine.0 as int
                    } else {
                        capacity(old(self).board.width(), old(self).board.height(), Some(p))
                    }
                    &&& final(self).timer.state == (TimerState::Running { start: now, elapsed: 0 })
                    &&& forall|i: int|
                        0 <= i < old(self).board.cells@.len()
                            ==> #[trigger] final(self).board.cells@[i] == (Cell {
                            is_mine: final(self).board.cells@[i].is_mine,
                            num_mines_around: final(self).board.cells@[i].num_mines_around,
                            ..old(self).board.cells@[i]
                        })
                }
            },
            old(self).state == GameState::Playing ==> {
                let w = old(self).board.width();
                let h = old(self).board.height();
                let outcome = cycle_outcome(old(self).board.cells@, w, h);
                let cells = after_cycle(old(self).board.cells@, w, h);
                &&& final(self).board.grid == old(self).board.grid
                &&& final(self).state == match outcome {
                    Some(s) => s,
                    None => GameState::Playing,
                }
                &&& outcome != Some(GameState::Defeated) ==> final(self).board.cells@ == cells
                &&& outcome == Some(GameState::Defeated) ==> final(self).board.cells@
                    == cells.map_values(|c: Cell| c.after_bomb())
                &&& outcome is Some ==> final(self).timer.state is Stopped
                &&& outcome == Some(GameState::Win) ==> final(self).smile.state == SmileSprite::Win
                &&& outcome == Some(GameState::Defeated) ==> final(self).smile.state
                    == SmileSprite::Defeat
            },
            old(self).accepts_input() ==> final(self).remaining_mine.0 == final(self).total_mine.0
                - flag_count(final(self).board.cells@),
            !old(self).accepts_input() ==> final(self).state == old(self).state
                && final(self).board.cells@ == old(self).board.cells@,
    {
        if self.state == GameState::Ready {
            if let Some(next) = self.board.first_click(&self.total_mine) {
                self.state = next;
                self.timer.start(now);
            }
            update_mines(&self.board, &self.total_mine, &mut self.remaining_mine);
        } else if self.state == GameState::Playing {
            let ghost cells = after_cycle(
                self.board.cells@,
                self.board.grid.width,
                self.board.grid.height,
            );
            match self.board.update() {
                Some(GameState::Defeated) => {
                    self.state = GameState::Defeated;
                    self.board.bomb();
                    self.smile.state = SmileSprite::Defeat;
                    proof {
                        assert(self.board.cells@ =~= cells.map_values(|c: Cell| c.after_bomb()));
                    }
                    self.timer.stop(now);
                },
                Some(next) => {
                    self.state = next;
                    self.smile.state = SmileSprite::Win;
                    self.timer.stop(now);
                },
                None => {},
            }
            update_mines(&self.board, &self.total_mine, &mut self.remaining_mine);
        }
    }
}

} // verus!
