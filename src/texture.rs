use vstd::prelude::*;

verus! {

/// The sprite sheets the game draws from.
#[derive(PartialEq, Eq, Structural, Clone, Copy, Debug, Hash)]
pub enum TextureType {
    Cells,
    Smiles,
    Numbers,
    CornerLeftBottom,
    CornerLeftTop,
    CornerRightBottom,
    CornerRightTop,
    CornerLeftUpperTop,
    CornerRightUpperTop,
    EdgeLeft,
    EdgeRight,
    EdgeTop,
    EdgeBottom,
    EdgeLeftUpper,
    EdgeRightUpper,
    EdgeTopUpper,
    Background,
    Number,
    Smile,
}

impl TextureType {
    pub open spec fn path(self) -> Seq<char> {
        match self {
            TextureType::Cells => "cells.png"@,
            TextureType::Smiles => "smiles.png"@,
            TextureType::Numbers => "numbers.png"@,
            TextureType::CornerLeftBottom => "corner_left_bottom.png"@,
            TextureType::CornerLeftTop => "corner_left_top.png"@,
            TextureType::CornerRightBottom => "corner_right_bottom.png"@,
            TextureType::CornerRightTop => "corner_right_top.png"@,
            TextureType::CornerLeftUpperTop => "corner_left_upper_top.png"@,
            TextureType::CornerRightUpperTop => "corner_right_upper_top.png"@,
            TextureType::EdgeLeft => "edge_left.png"@,
            TextureType::EdgeRight => "edge_right.png"@,
            TextureType::EdgeTop => "edge_top.png"@,
            TextureType::EdgeBottom => "edge_bottom.png"@,
            TextureType::EdgeLeftUpper => "edge_left_upper.png"@,
            TextureType::EdgeRightUpper => "edge_right_upper.png"@,
            TextureType::EdgeTopUpper => "edge_top_upper.png"@,
            TextureType::Background => "background.png"@,
            TextureType::Number => "number.png"@,
            TextureType::Smile => "smile.png"@,
        }
    }

    /// File of the sprite sheet, under the asset folder.
    pub fn get_path(&self) -> (r: &'static str)
        ensures
            r@ == self.path(),
    {
        match self {
            TextureType::Cells => "cells.png",
            TextureType::Smiles => "smiles.png",
            TextureType::Numbers => "numbers.png",
            TextureType::CornerLeftBottom => "corner_left_bottom.png",
            TextureType::CornerLeftTop => "corner_left_top.png",
            TextureType::CornerRightBottom => "corner_right_bottom.png",
            TextureType::CornerRightTop => "corner_right_top.png",
            TextureType::CornerLeftUpperTop => "corner_left_upper_top.png",
            TextureType::CornerRightUpperTop => "corner_right_upper_top.png",
            TextureType::EdgeLeft => "edge_left.png",
            TextureType::EdgeRight => "edge_right.png",
            TextureType::EdgeTop => "edge_top.png",
            TextureType::EdgeBottom => "edge_bottom.png",
            TextureType::EdgeLeftUpper => "edge_left_upper.png",
            TextureType::EdgeRightUpper => "edge_right_upper.png",
            TextureType::EdgeTopUpper => "edge_top_upper.png",
            TextureType::Background => "background.png",
            TextureType::Number => "number.png",
            TextureType::Smile => "smile.png",
        }
    }
}

/// Sprites of the cell sheet, in sheet order.
#[derive(PartialEq, Eq, Structural, Clone, Copy, Debug)]
pub enum CellType {
    Hidden,
    Revealed,
    Flag,
    Question,
    QuestionClicked,
    Mine,
    MineBombed,
    WrongMine,
    Revealed1,
    Revealed2,
    Revealed3,
    Revealed4,
    Revealed5,
    Revealed6,
    Revealed7,
    Revealed8,
}

impl CellType {
    pub open spec fn sprite_index(self) -> int {
        match self {
            CellType::Hidden => 0,
            CellType::Revealed => 1,
            CellType::Flag => 2,
            CellType::Question => 3,
            CellType::QuestionClicked => 4,
            CellType::Mine => 5,
            CellType::MineBombed => 6,
            CellType::WrongMine => 7,
            CellType::Revealed1 => 8,
            CellType::Revealed2 => 9,
            CellType::Revealed3 => 10,
            CellType::Revealed4 => 11,
            CellType::Revealed5 => 12,
            CellType::Revealed6 => 13,
            CellType::Revealed7 => 14,
            CellType::Revealed8 => 15,
        }
    }

    /// Position of the sprite in the cell sheet.
    pub fn index(&self) -> (r: u32)
        ensures
            r == self.sprite_index(),
    {
        match self {
            CellType::Hidden => 0,
            CellType::Revealed => 1,
            CellType::Flag => 2,
            CellType::Question => 3,
            CellType::QuestionClicked => 4,
            CellType::Mine => 5,
            CellType::MineBombed => 6,
            CellType::WrongMine => 7,
            CellType::Revealed1 => 8,
            CellType::Revealed2 => 9,
            CellType::Revealed3 => 10,
            CellType::Revealed4 => 11,
            CellType::Revealed5 => 12,
            CellType::Revealed6 => 13,
            CellType::Revealed7 => 14,
            CellType::Revealed8 => 15,
        }
    }

    /// The sprite of a revealed cell with `num` mines around it.
    pub fn get_revealed_num(num: u32) -> (r: CellType)
        requires
            num <= 8,
        ensures
            r.sprite_index() == if num == 0 {
                1
            } else {
                num + 7
            },
    {
        match num {
            0 => CellType::Revealed,
            1 => CellType::Revealed1,
            2 => CellType::Revealed2,
            3 => CellType::Revealed3,
            4 => CellType::Revealed4,
            5 => CellType::Revealed5,
            6 => CellType::Revealed6,
            7 => CellType::Revealed7,
            _ => CellType::Revealed8,
        }
    }
}

} // verus!
