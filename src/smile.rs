use vstd::prelude::*;
use crate::state::GameState;

verus! {

/// Faces of the restart button.
#[derive(PartialEq, Eq, Structural, Clone, Copy, Debug)]
pub enum SmileSprite {
    Normal,
    Pressed,
    Querying,
    Win,
    Defeat,
}

impl SmileSprite {
    pub open spec fn sprite_index(self) -> int {
        match self {
            SmileSprite::Normal => 0,
            SmileSprite::Pressed => 1,
            SmileSprite::Querying => 2,
            SmileSprite::Win => 3,
            SmileSprite::Defeat => 4,
        }
    }

    /// Position of the face in the smile sheet.
    pub fn index(&self) -> (r: u32)
        ensures
            r == self.sprite_index(),
    {
        match self {
            SmileSprite::Normal => 0,
            SmileSprite::Pressed => 1,
            SmileSprite::Querying => 2,
            SmileSprite::Win => 3,
            SmileSprite::Defeat => 4,
        }
    }
}

/// The restart button.
pub struct SmileComponent {
    pub is_pressed: bool,
    pub state: SmileSprite,
}

impl SmileComponent {
    pub fn new() -> (r: SmileComponent)
        ensures
            !r.is_pressed,
            r.state == SmileSprite::Normal,
    {
        SmileComponent { is_pressed: false, state: SmileSprite::Normal }
    }

    /// The primary button went down on the face.
    pub fn pressed(&mut self)
        ensures
            final(self).is_pressed,
            final(self).state == if old(self).is_pressed {
                old(self).state
            } else {
                SmileSprite::Pressed
            },
    {
        if self.is_pressed {
            return;
        }
        self.is_pressed = true;
        self.state = SmileSprite::Pressed;
    }

    /// The primary button came up after pressing the face: a new game is
    /// asked for.
    pub fn released(&mut self) -> (r: Option<GameState>)
        ensures
            !final(self).is_pressed,
            old(self).is_pressed ==> final(self).state == SmileSprite::Normal && r == Some(
                GameState::Init,
            ),
            !old(self).is_pressed ==> final(self).state == old(self).state && r is None,
    {
        if !self.is_pressed {
            return None;
        }
        self.is_pressed = false;
        self.state = SmileSprite::Normal;
        Some(GameState::Init)
    }
}

} // verus!
