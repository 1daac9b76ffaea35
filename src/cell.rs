use vstd::prelude::*;

verus! {

/// What a cell shows and how it reacts to input.
#[derive(PartialEq, Eq, Structural, Clone, Copy, Debug)]
pub enum CellState {
    Hidden,
    Pressed,
    Revealed,
    Flagged,
    WrongFlagged,
    Exploded,
}

/// Chord request left on a revealed cell for the next update cycle.
#[derive(PartialEq, Eq, Structural, Clone, Copy, Debug)]
pub enum QueryState {
    Idle,
    Querying,
    QueryingOut,
    QueryingDone,
}

/// One square of the board.
#[derive(PartialEq, Eq, Structural, Clone, Copy, Debug)]
pub struct Cell {
    pub x: u32,
    pub y: u32,
    pub is_mine: bool,
    pub num_mines_around: u32,
    pub state: CellState,
    pub is_left_pressed: bool,
    pub is_opening: bool,
    pub query_state: QueryState,
}

impl Cell {
    /// A revealed cell that can start a chord: not a mine, with mines around it.
    pub open spec fn is_chord_source(self) -> bool {
        !self.is_mine && self.num_mines_around != 0
    }

    /// Untouched since the game began.
    pub open spec fn is_fresh(self) -> bool {
        &&& self.state == CellState::Hidden
        &&& !self.is_left_pressed
        &&& !self.is_opening
        &&& self.query_state == QueryState::Idle
    }

    pub open spec fn after_reset(self) -> Cell {
        Cell {
            state: CellState::Hidden,
            is_left_pressed: false,
            is_opening: false,
            query_state: QueryState::Idle,
            ..self
        }
    }

    pub open spec fn after_left_pressed(self) -> Cell {
        if self.is_left_pressed {
            self
        } else {
            let c = Cell { is_left_pressed: true, ..self };
            match self.state {
                CellState::Hidden => Cell { state: CellState::Pressed, ..c },
                CellState::Revealed => if self.is_chord_source() {
                    Cell { query_state: QueryState::Querying, ..c }
                } else {
                    c
                },
                _ => c,
            }
        }
    }

    pub open spec fn after_left_out(self) -> Cell {
        if !self.is_left_pressed {
            self
        } else {
            let c = Cell { is_left_pressed: false, ..self };
            match self.state {
                CellState::Pressed => Cell { state: CellState::Hidden, ..c },
                CellState::Revealed => if self.is_chord_source() {
                    Cell { query_state: QueryState::QueryingOut, ..c }
                } else {
                    c
                },
                _ => c,
            }
        }
    }

    pub open spec fn after_left_released(self) -> Cell {
        if !self.is_left_pressed {
            self
        } else {
            let c = Cell { is_left_pressed: false, ..self };
            match self.state {
                CellState::Pressed => Cell { is_opening: true, ..c },
                CellState::Revealed => if self.is_chord_source() {
                    Cell { query_state: QueryState::QueryingDone, ..c }
                } else {
                    c
                },
                _ => c,
            }
        }
    }

    pub open spec fn after_flag_toggle(self) -> Cell {
        match self.state {
            CellState::Hidden => Cell { state: CellState::Flagged, ..self },
            CellState::Pressed => Cell { state: CellState::Flagged, ..self },
            CellState::Flagged => Cell { state: CellState::Hidden, ..self },
            _ => self,
        }
    }

    /// The cell after it is opened.
    pub open spec fn after_open(self) -> Cell {
        match self.state {
            CellState::Hidden | CellState::Pressed => if self.is_mine {
                Cell { state: CellState::Exploded, ..self }
            } else {
                Cell { state: CellState::Revealed, ..self }
            },
            CellState::Flagged => if !self.is_mine {
                Cell { state: CellState::WrongFlagged, ..self }
            } else {
                self
            },
            _ => self,
        }
    }

    /// Whether opening the cell is safe: false when it detonates a mine or
    /// uncovers a wrong flag.
    pub open spec fn open_ok(self) -> bool {
        match self.state {
            CellState::Hidden | CellState::Pressed => !self.is_mine,
            CellState::Flagged => self.is_mine,
            _ => true,
        }
    }

    pub open spec fn after_bomb(self) -> Cell {
        if self.is_mine && self.state == CellState::Hidden {
            Cell { state: CellState::Revealed, ..self }
        } else {
            self
        }
    }

    pub open spec fn texture_index(self) -> int {
        match self.state {
            CellState::Hidden => 0,
            CellState::Pressed => 1,
            CellState::Revealed => if self.is_mine {
                5
            } else if self.num_mines_around == 0 {
                1
            } else {
                self.num_mines_around + 7
            },
            CellState::Flagged => 2,
            CellState::WrongFlagged => 7,
            CellState::Exploded => 6,
        }
    }

    pub fn new(x: u32, y: u32, is_mine: bool, num_mines_around: u32) -> (r: Cell)
        ensures
            r == (Cell {
                x,
                y,
                is_mine,
                num_mines_around,
                state: CellState::Hidden,
                is_left_pressed: false,
                is_opening: false,
                query_state: QueryState::Idle,
            }),
    {
        Cell {
            x,
            y,
            is_mine,
            num_mines_around,
            state: CellState::Hidden,
            is_left_pressed: false,
            is_opening: false,
            query_state: QueryState::Idle,
        }
    }

    /// Back to a fresh hidden cell; position and mine data are kept.
    pub fn reset(&mut self)
        ensures
            *final(self) == old(self).after_reset(),
    {
        self.state = CellState::Hidden;
        self.is_left_pressed = false;
        self.is_opening = false;
        self.query_state = QueryState::Idle;
    }

    pub fn change_mine(&mut self, is_mine: bool, num_mines_around: u32)
        ensures
            *final(self) == (Cell { is_mine, num_mines_around, ..*old(self) }),
    {
        self.is_mine = is_mine;
        self.num_mines_around = num_mines_around;
    }

    /// The primary button is held over the cell.
    pub fn left_pressed(&mut self)
        ensures
            *final(self) == old(self).after_left_pressed(),
    {
        if self.is_left_pressed {
            return;
        }
        self.is_left_pressed = true;
        match self.state {
            CellState::Hidden => {
                self.state = CellState::Pressed;
            },
            CellState::Revealed => {
                if self.is_mine {
                    return;
                }
                if self.num_mines_around == 0 {
                    return;
                }
                self.query_state = QueryState::Querying;
            },
            _ => {},
        }
    }

    /// The held primary button left the cell.
    pub fn left_out(&mut self)
        ensures
            *final(self) == old(self).after_left_out(),
    {
        if !self.is_left_pressed {
            return;
        }
        self.is_left_pressed = false;
        match self.state {
            CellState::Pressed => {
                self.state = CellState::Hidden;
            },
            CellState::Revealed => {
                if self.is_mine {
                    return;
                }
                if self.num_mines_around == 0 {
                    return;
                }
                self.query_state = QueryState::QueryingOut;
            },
            _ => {},
        }
    }

    /// The primary button was released over the cell.
    pub fn left_released(&mut self)
        ensures
            *final(self) == old(self).after_left_released(),
    {
        if !self.is_left_pressed {
            return;
        }
        self.is_left_pressed = false;
        match self.state {
            CellState::Pressed => {
                self.is_opening = true;
            },
            CellState::Revealed => {
                if self.is_mine {
                    return;
                }
                if self.num_mines_around == 0 {
                    return;
                }
                self.query_state = QueryState::QueryingDone;
            },
            _ => {},
        }
    }

    /// The secondary button went down over the cell: toggles the flag.
    pub fn right_just_pressed(&mut self)
        ensures
            *final(self) == old(self).after_flag_toggle(),
    {
        match self.state {
            CellState::Hidden => {
                self.state = CellState::Flagged;
            },
            CellState::Pressed => {
                self.state = CellState::Flagged;
            },
            CellState::Flagged => {
                self.state = CellState::Hidden;
            },
            _ => {},
        }
    }

    /// Index of the sprite that shows the cell.
    pub fn get_texture_index(&self) -> (r: u32)
        requires
            self.num_mines_around <= 8,
        ensures
            r == self.texture_index(),
    {
        match self.state {
            CellState::Hidden => 0,
            CellState::Pressed => 1,
            CellState::Revealed => {
                if self.is_mine {
                    5
                } else if self.num_mines_around == 0 {
                    1
                } else {
                    self.num_mines_around + 7
                }
            },
            CellState::Flagged => 2,
            CellState::WrongFlagged => 7,
            CellState::Exploded => 6,
        }
    }

    /// Opens the cell; returns false when that detonates a mine or shows a
    /// wrong flag.
    pub fn open(&mut self) -> (r: bool)
        ensures
            *final(self) == old(self).after_open(),
            r == old(self).open_ok(),
    {
        match self.state {
            CellState::Hidden => {
                if self.is_mine {
                    self.state = CellState::Exploded;
                    false
                } else {
                    self.state = CellState::Revealed;
                    true
                }
            },
            CellState::Pressed => {
                if self.is_mine {
                    self.state = CellState::Exploded;
                    false
                } else {
                    self.state = CellState::Revealed;
                    true
                }
            },
            CellState::Flagged => {
                if !self.is_mine {
                    self.state = CellState::WrongFlagged;
                    false
                } else {
                    true
                }
            },
            _ => true,
        }
    }

    /// Shows a hidden mine once the game is lost.
    pub fn bomb(&mut self)
        ensures
            *final(self) == old(self).after_bomb(),
    {
        if self.is_mine && self.state == CellState::Hidden {
            self.state = CellState::Revealed;
        }
    }
}

} // verus!
