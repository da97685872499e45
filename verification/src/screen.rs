//! What the screen shows of a board: each cell's glyph and style, the
//! mines counter and the closing message. The terminal front end draws it.

use vstd::prelude::*;
use crate::board::{Board, ExitType, Tile};
use crate::style::{get_tile_style, tile_style, Color};

verus! {

/// The text drawn in a cell: a dash, a flag, a number or a bomb.
#[derive(PartialEq, Eq, Structural, Clone, Copy, Debug)]
pub enum Glyph {
    Dash,
    Flag,
    Number(u8),
    Bomb,
}

/// How a cell is drawn.
#[derive(PartialEq, Eq, Structural, Clone, Copy, Debug)]
pub struct CellView {
    pub glyph: Glyph,
    pub fg: Color,
    pub bg: Color,
    pub reversed: bool,
    pub crossed_out: bool,
}

/// The glyph of a tile.
pub open spec fn tile_glyph(tile: Tile) -> Glyph {
    match tile {
        Tile::Blank => Glyph::Dash,
        Tile::Unopened => Glyph::Dash,
        Tile::Flag => Glyph::Flag,
        Tile::Numbered(n) => Glyph::Number(n),
    }
}

/// How a cell with `tile`, with or without a bomb, is drawn once the game
/// is in state `exit`. When the game is over, a flag where there was no
/// bomb is crossed out; when it is lost, every unflagged bomb is shown.
pub open spec fn cell_look(tile: Tile, bomb_here: bool, exit: Option<ExitType>) -> CellView {
    if exit == Some(ExitType::Lose) && bomb_here && tile != Tile::Flag {
        let st = tile_style(None);
        CellView { glyph: Glyph::Bomb, fg: st.0, bg: st.1, reversed: st.2, crossed_out: false }
    } else {
        let st = tile_style(Some(tile));
        CellView {
            glyph: tile_glyph(tile),
            fg: st.0,
            bg: st.1,
            reversed: st.2,
            crossed_out: exit.is_some() && !bomb_here && tile == Tile::Flag,
        }
    }
}

/// The number of mines left to flag, never below zero.
pub open spec fn mines_left_of(bomb_count: u16, flag_count: usize) -> usize {
    if flag_count >= bomb_count {
        0
    } else {
        (bomb_count - flag_count) as usize
    }
}

impl Board {
    /// How the cell at `(x, y)` is drawn.
    pub fn cell_view(&self, x: u16, y: u16) -> (r: CellView)
        requires
            self.wf(),
            self.on_board(x as int, y as int),
        ensures
            r == cell_look(self.tile(x as int, y as int), self.bombs@.contains((x, y)), self.exit),
            r.reversed == (self.tile(x as int, y as int) == Tile::Unopened || self.tile(
                x as int,
                y as int,
            ) == Tile::Flag || r.glyph == Glyph::Bomb),
            r.glyph == Glyph::Bomb <==> (self.exit == Some(ExitType::Lose) && self.bombs@.contains(
                (x, y),
            ) && self.tile(x as int, y as int) != Tile::Flag),
    {
        proof {
            crate::lemmas::lemma_cell_index_bound(
                self.width as int,
                self.height as int,
                x as int,
                y as int,
            );
        }
        let tile = self.get_tile(x, y);
        let glyph = match tile {
            Tile::Blank => Glyph::Dash,
            Tile::Unopened => Glyph::Dash,
            Tile::Flag => Glyph::Flag,
            Tile::Numbered(number) => Glyph::Number(*number),
        };
        let mut style_info = get_tile_style(Some(tile));
        let mut view = CellView {
            glyph,
            fg: style_info.0,
            bg: style_info.1,
            reversed: false,
            crossed_out: false,
        };
        let bomb_at_current_pos = self.has_bomb_at(x, y);
        // If the game is over, a flag where there wasn't a bomb is crossed out
        if self.exit.is_some() {
            if !bomb_at_current_pos && *tile == Tile::Flag {
                view.crossed_out = true;
            }
        }
        // If the game is lost, show every bomb that isn't flagged
        if self.exit == Some(ExitType::Lose) && bomb_at_current_pos && *tile != Tile::Flag {
            style_info = get_tile_style(None);
            view = CellView {
                glyph: Glyph::Bomb,
                fg: style_info.0,
                bg: style_info.1,
                reversed: false,
                crossed_out: false,
            };
        }
        // If the tile is meant to be reversed, reverse it
        if style_info.2 {
            view.reversed = true;
        }
        view
    }

    /// The number of mines left to flag: the bombs less the flags, or zero.
    pub fn mines_left(&self) -> (r: usize)
        ensures
            r == mines_left_of(self.bomb_count, self.flag_count),
            self.flag_count <= self.bomb_count ==> r + self.flag_count == self.bomb_count,
            self.flag_count > self.bomb_count ==> r == 0,
    {
        if self.flag_count >= self.bomb_count as usize {
            0
        } else {
            self.bomb_count as usize - self.flag_count
        }
    }

    /// The message shown once the game is over.
    pub fn exit_message(&self) -> (r: Option<&'static str>)
        ensures
            match self.exit {
                None => r.is_none(),
                Some(ExitType::Win) => r == Some("You win, well done!"),
                Some(ExitType::Lose) => r == Some("BANG! You lose, better luck next time!"),
            },
    {
        match self.exit {
            None => None,
            Some(ExitType::Win) => Some("You win, well done!"),
            Some(ExitType::Lose) => Some("BANG! You lose, better luck next time!"),
        }
    }
}

} // verus!
