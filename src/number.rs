use vstd::prelude::*;

verus! {

/// Which three-digit counter a sprite belongs to.
#[derive(PartialEq, Eq, Structural, Clone, Copy, Debug)]
pub enum NumberType {
    MineCount,
    Time,
}

/// Position of a digit within its counter.
#[derive(PartialEq, Eq, Structural, Clone, Copy, Debug)]
pub enum NumberIndex {
    First,
    Second,
    Third,
}

/// A digit sprite of the counters.
#[derive(PartialEq, Eq, Structural, Clone, Copy, Debug)]
pub enum NumberSprite {
    One,
    Two,
    Three,
    Four,
    Five,
    Six,
    Seven,
    Eight,
    Nine,
    Zero,
    Minus,
    Empty,
}

pub struct NumberTypeComponent(pub NumberType);

pub struct NumberIndexComponent(pub NumberIndex);

impl NumberTypeComponent {
    pub fn new(number_type: NumberType) -> (r: NumberTypeComponent)
        ensures
            r.0 == number_type,
    {
        NumberTypeComponent(number_type)
    }
}

impl NumberIndexComponent {
    pub fn new(number_index: NumberIndex) -> (r: NumberIndexComponent)
        ensures
            r.0 == number_index,
    {
        NumberIndexComponent(number_index)
    }
}

/// The sprite of digit `d`; anything that is not a digit shows a minus.
pub open spec fn digit_sprite(d: int) -> NumberSprite {
    if d == 0 {
        NumberSprite::Zero
    } else if d == 1 {
        NumberSprite::One
    } else if d == 2 {
        NumberSprite::Two
    } else if d == 3 {
        NumberSprite::Three
    } else if d == 4 {
        NumberSprite::Four
    } else if d == 5 {
        NumberSprite::Five
    } else if d == 6 {
        NumberSprite::Six
    } else if d == 7 {
        NumberSprite::Seven
    } else if d == 8 {
        NumberSprite::Eight
    } else if d == 9 {
        NumberSprite::Nine
    } else {
        NumberSprite::Minus
    }
}

/// The three sprites that show `n`, held to the range -99 to 999.
pub open spec fn number_sprites(n: int) -> (NumberSprite, NumberSprite, NumberSprite) {
    if n < 0 {
        let m = if -n > 99 {
            99
        } else {
            -n
        };
        if m > 9 {
            (NumberSprite::Minus, digit_sprite(m / 10), digit_sprite(m % 10))
        } else {
            (NumberSprite::Zero, NumberSprite::Minus, digit_sprite(m))
        }
    } else {
        let m = if n > 999 {
            999
        } else {
            n
        };
        (digit_sprite(m / 100), digit_sprite((m / 10) % 10), digit_sprite(m % 10))
    }
}

impl NumberSprite {
    pub open spec fn sprite_index(self) -> int {
        match self {
            NumberSprite::One => 0,
            NumberSprite::Two => 1,
            NumberSprite::Three => 2,
            NumberSprite::Four => 3,
            NumberSprite::Five => 4,
            NumberSprite::Six => 5,
            NumberSprite::Seven => 6,
            NumberSprite::Eight => 7,
            NumberSprite::Nine => 8,
            NumberSprite::Zero => 9,
            NumberSprite::Minus => 10,
            NumberSprite::Empty => 11,
        }
    }

    /// Position of the sprite in the digit sheet.
    pub fn index(&self) -> (r: u32)
        ensures
            r == self.sprite_index(),
    {
        match self {
            NumberSprite::One => 0,
            NumberSprite::Two => 1,
            NumberSprite::Three => 2,
            NumberSprite::Four => 3,
            NumberSprite::Five => 4,
            NumberSprite::Six => 5,
            NumberSprite::Seven => 6,
            NumberSprite::Eight => 7,
            NumberSprite::Nine => 8,
            NumberSprite::Zero => 9,
            NumberSprite::Minus => 10,
            NumberSprite::Empty => 11,
        }
    }
}

fn get_number_sprite(number: i32) -> (r: NumberSprite)
    ensures
        r == digit_sprite(number as int),
{
    match number {
        1 => NumberSprite::One,
        2 => NumberSprite::Two,
        3 => NumberSprite::Three,
        4 => NumberSprite::Four,
        5 => NumberSprite::Five,
        6 => NumberSprite::Six,
        7 => NumberSprite::Seven,
        8 => NumberSprite::Eight,
        9 => NumberSprite::Nine,
        0 => NumberSprite::Zero,
        _ => NumberSprite::Minus,
    }
}

/// First, second and third digit sprites of a counter showing `number`.
pub fn get_number_sprites(number: i32) -> (r: (NumberSprite, NumberSprite, NumberSprite))
    ensures
        r == number_sprites(number as int),
{
    let mut number = number;
    let mut first = NumberSprite::Zero;
    let mut second = NumberSprite::Zero;
    let third;
    if number < 0 {
        if number < -99 {
            number = 99;
        } else {
            number = -number;
        }
        if number > 9 {
            first = NumberSprite::Minus;
        } else {
            second = NumberSprite::Minus;
        }
    }
    if number > 999 {
        number = 999;
    }
    if number > 99 {
        first = get_number_sprite(number / 100);
        number = number % 100;
    }
    if number > 9 {
        second = get_number_sprite(number / 10);
        number = number % 10;
    }
    third = get_number_sprite(number);
    (first, second, third)
}

} // verus!
