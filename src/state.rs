use vstd::prelude::*;

verus! {

/// Phases of one game.
#[derive(PartialEq, Eq, Structural, Clone, Copy, Debug)]
pub enum GameState {
    Init,
    Ready,
    Playing,
    Win,
    Defeated,
}

#[derive(PartialEq, Eq, Structural, Clone, Copy, Debug)]
pub enum MenuGameState {
    Closed,
    Opened,
}

#[derive(PartialEq, Eq, Structural, Clone, Copy, Debug)]
pub enum MenuInfoState {
    Closed,
    Opened,
}

#[derive(PartialEq, Eq, Structural, Clone, Copy, Debug)]
pub enum LoginPopupState {
    Closed,
    Opened,
}

/// Board input is taken only while no menu or popup is open.
pub fn run_if_all_menu_closed(
    game_menu_state: MenuGameState,
    info_menu_state: MenuInfoState,
    login_popup_state: LoginPopupState,
) -> (r: bool)
    ensures
        r == (game_menu_state == MenuGameState::Closed && info_menu_state == MenuInfoState::Closed
            && login_popup_state == LoginPopupState::Closed),
{
    game_menu_state == MenuGameState::Closed && info_menu_state == MenuInfoState::Closed
        && login_popup_state == LoginPopupState::Closed
}

/// The board presets.
#[derive(PartialEq, Eq, Structural, Clone, Copy, Debug)]
pub enum Difficulty {
    Easy,
    Normal,
    Hard,
}

pub open spec fn preset(difficulty: Difficulty) -> (u32, u32, u32) {
    match difficulty {
        Difficulty::Easy => (9, 9, 10),
        Difficulty::Normal => (16, 16, 40),
        Difficulty::Hard => (30, 16, 99),
    }
}

impl Default for Difficulty {
    fn default() -> (r: Difficulty)
        ensures
            r == Difficulty::Hard,
    {
        Difficulty::Hard
    }
}

impl Difficulty {
    pub open spec fn name(self) -> Seq<char> {
        match self {
            Difficulty::Easy => "Easy"@,
            Difficulty::Normal => "Normal"@,
            Difficulty::Hard => "Hard"@,
        }
    }

    pub fn to_string(&self) -> (r: String)
        ensures
            r@ == self.name(),
    {
        match self {
            Difficulty::Easy => "Easy".to_string(),
            Difficulty::Normal => "Normal".to_string(),
            Difficulty::Hard => "Hard".to_string(),
        }
    }
}

/// Width, height and mine count of a preset.
pub fn get_difficulty(difficulty: &Difficulty) -> (r: (u32, u32, u32))
    ensures
        r == preset(*difficulty),
{
    match difficulty {
        Difficulty::Easy => (9, 9, 10),
        Difficulty::Normal => (16, 16, 40),
        Difficulty::Hard => (30, 16, 99),
    }
}

} // verus!
