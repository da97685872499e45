//! Colours and the look of each cell: what the screen shows of a board,
//! decided here and drawn by the terminal front end.

use vstd::prelude::*;
use crate::board::Tile;

verus! {

/// A terminal colour: the named colours that the game uses, the terminal's
/// default (`Reset`), or an RGB triple.
#[derive(PartialEq, Eq, Structural, Clone, Copy, Debug)]
pub enum Color {
    Reset,
    Green,
    DarkGreen,
    Cyan,
    DarkCyan,
    Red,
    DarkRed,
    Yellow,
    DarkYellow,
    Rgb { r: u8, g: u8, b: u8 },
}

/// The colour in which bombs and the title are drawn.
pub open spec fn bomb_color() -> Color {
    Color::Rgb { r: 239, g: 125, b: 87 }
}

/// The foreground, background and reversal with which a tile is drawn;
/// `None` stands for a bomb.
pub open spec fn tile_style(tile: Option<Tile>) -> (Color, Color, bool) {
    match tile {
        None => (bomb_color(), Color::Reset, true),
        Some(Tile::Numbered(num)) => (
            if num == 1 {
                Color::Rgb { r: 112, g: 181, b: 238 }
            } else if num == 2 {
                Color::Rgb { r: 181, g: 238, b: 112 }
            } else if num == 3 {
                Color::Rgb { r: 238, g: 112, b: 181 }
            } else if num == 4 {
                Color::Rgb { r: 181, g: 112, b: 238 }
            } else if num == 5 {
                Color::Rgb { r: 238, g: 181, b: 112 }
            } else if num == 6 {
                Color::Rgb { r: 255, g: 236, b: 188 }
            } else if num == 7 {
                Color::Rgb { r: 234, g: 186, b: 255 }
            } else {
                Color::Rgb { r: 112, g: 238, b: 181 }
            },
            Color::Reset,
            false,
        ),
        Some(Tile::Blank) => (Color::Rgb { r: 170, g: 170, b: 170 }, Color::Reset, false),
        Some(Tile::Unopened) => (Color::Rgb { r: 170, g: 170, b: 170 }, Color::Reset, true),
        Some(Tile::Flag) => (Color::Rgb { r: 224, g: 83, b: 160 }, Color::Reset, true),
    }
}

/// Gets the colour pair of a tile, and whether it is drawn reversed;
/// `None` asks for the style of a bomb.
pub fn get_tile_style(tile: Option<&Tile>) -> (r: (Color, Color, bool))
    ensures
        r == tile_style(
            match tile {
                Some(t) => Some(*t),
                None => None,
            },
        ),
{
    // If it's none, that means we're getting the style of a bomb
    if tile.is_none() {
        return (Color::Rgb { r: 239, g: 125, b: 87 }, Color::Reset, true);
    }
    match tile.unwrap() {
        Tile::Numbered(num) => match num {
            1 => (Color::Rgb { r: 112, g: 181, b: 238 }, Color::Reset, false),
            2 => (Color::Rgb { r: 181, g: 238, b: 112 }, Color::Reset, false),
            3 => (Color::Rgb { r: 238, g: 112, b: 181 }, Color::Reset, false),
            4 => (Color::Rgb { r: 181, g: 112, b: 238 }, Color::Reset, false),
            5 => (Color::Rgb { r: 238, g: 181, b: 112 }, Color::Reset, false),
            6 => (Color::Rgb { r: 255, g: 236, b: 188 }, Color::Reset, false),
            7 => (Color::Rgb { r: 234, g: 186, b: 255 }, Color::Reset, false),
            _ => (Color::Rgb { r: 112, g: 238, b: 181 }, Color::Reset, false),
        },
        Tile::Blank => (Color::Rgb { r: 170, g: 170, b: 170 }, Color::Reset, false),
        Tile::Unopened => (Color::Rgb { r: 170, g: 170, b: 170 }, Color::Reset, true),
        Tile::Flag => (Color::Rgb { r: 224, g: 83, b: 160 }, Color::Reset, true),
    }
}

} // verus!
