use vstd::prelude::*;

verus! {

/// The paint colours of the catalogue, a closed set.
#[allow(non_camel_case_types)]
#[derive(Clone, Copy, Debug, PartialEq, Eq, Structural)]
pub enum Color {
    BLACK,
    WHITE,
    SILVER,
    BLUE,
    YELLOW,
    GREEN,
    RED,
    BAIGE,
    ORANGE,
}

impl Color {
    /// The number the catalogue knows the colour by: one bit per colour.
    pub open spec fn code_value(self) -> i32 {
        match self {
            Color::BLACK => 1,
            Color::WHITE => 2,
            Color::SILVER => 4,
            Color::BLUE => 8,
            Color::YELLOW => 16,
            Color::GREEN => 32,
            Color::RED => 64,
            Color::BAIGE => 128,
            Color::ORANGE => 256,
        }
    }

    /// The colour's name as the catalogue writes it.
    pub open spec fn name(self) -> Seq<char> {
        match self {
            Color::BLACK => "Black"@,
            Color::WHITE => "White"@,
            Color::SILVER => "Silver"@,
            Color::BLUE => "Blue"@,
            Color::YELLOW => "Yellow"@,
            Color::GREEN => "Green"@,
            Color::RED => "Red"@,
            Color::BAIGE => "Baige"@,
            Color::ORANGE => "Orange"@,
        }
    }

    /// The number the catalogue knows the colour by.
    pub fn code(&self) -> (code: i32)
        ensures
            code == self.code_value(),
    {
        match self {
            Color::BLACK => 1,
            Color::WHITE => 2,
            Color::SILVER => 4,
            Color::BLUE => 8,
            Color::YELLOW => 16,
            Color::GREEN => 32,
            Color::RED => 64,
            Color::BAIGE => 128,
            Color::ORANGE => 256,
        }
    }

    /// The colour's name as the catalogue writes it.
    pub fn str(&self) -> (name: String)
        ensures
            name@ == self.name(),
    {
        match self {
            Color::BLACK => "Black".to_owned(),
            Color::WHITE => "White".to_owned(),
            Color::SILVER => "Silver".to_owned(),
            Color::BLUE => "Blue".to_owned(),
            Color::YELLOW => "Yellow".to_owned(),
            Color::GREEN => "Green".to_owned(),
            Color::RED => "Red".to_owned(),
            Color::BAIGE => "Baige".to_owned(),
            Color::ORANGE => "Orange".to_owned(),
        }
    }

    /// The colours that the catalogue is asked for, in the order of asking.
    pub open spec fn listed_colors() -> Seq<Color> {
        seq![
            Color::BLACK,
            Color::WHITE,
            Color::SILVER,
            Color::BLUE,
            Color::YELLOW,
            Color::GREEN,
            Color::RED,
        ]
    }

    /// The colours that the catalogue is asked for, in the order of asking.
    pub fn listed() -> (colors: Vec<Color>)
        ensures
            colors@ == Color::listed_colors(),
    {
        let mut colors: Vec<Color> = Vec::new();
        colors.push(Color::BLACK);
        colors.push(Color::WHITE);
        colors.push(Color::SILVER);
        colors.push(Color::BLUE);
        colors.push(Color::YELLOW);
        colors.push(Color::GREEN);
        colors.push(Color::RED);
        assert(colors@ =~= Color::listed_colors());
        colors
    }

    /// No two colours share a code, and no two codes share a bit.
    pub proof fn lemma_codes_disjoint(self, other: Color)
        requires
            self != other,
        ensures
            self.code_value() != other.code_value(),
            self.code_value() & other.code_value() == 0,
    {
        let a = self.code_value();
        let b = other.code_value();
        assert(a & b == 0) by (bit_vector)
            requires
                a != b,
                a == 1 || a == 2 || a == 4 || a == 8 || a == 16 || a == 32 || a == 64 || a == 128 || a
                    == 256,
                b == 1 || b == 2 || b == 4 || b == 8 || b == 16 || b == 32 || b == 64 || b == 128 || b
                    == 256,
        ;
    }
}

} // verus!
