//! The decisions of the game loop: what a key press does to the board and
//! whether the screen must be redrawn. The front end reads the keys and
//! the clock, and draws.

use vstd::prelude::*;
use crate::board::{Board, Tile};

verus! {

/// A key press, as far as the game tells keys apart.
#[derive(PartialEq, Eq, Structural, Clone, Copy, Debug)]
pub enum Key {
    Esc,
    Right,
    Left,
    Up,
    Down,
    /// Space or Enter.
    Dig,
    /// The `f` key.
    Flag,
    Other,
}

/// What the loop does after a key press.
#[derive(PartialEq, Eq, Structural, Clone, Copy, Debug)]
pub enum Response {
    Quit,
    Redraw,
    Ignore,
}

/// The move of the selection that an arrow key asks for.
pub open spec fn key_move(key: Key) -> (int, int) {
    match key {
        Key::Right => (1, 0),
        Key::Left => (-1, 0),
        Key::Up => (0, -1),
        Key::Down => (0, 1),
        _ => (0, 0),
    }
}

/// The keys that move the selection.
pub open spec fn is_arrow(key: Key) -> bool {
    key == Key::Right || key == Key::Left || key == Key::Up || key == Key::Down
}

/// A key may be handled on this board: digging and flagging need the
/// selected cell to name a tile, and the counters must not run over.
pub open spec fn key_ok(board: &Board, key: Key) -> bool {
    match key {
        Key::Dig => board.wf() && board.in_range(
            board.selected_cell.0 as int,
            board.selected_cell.1 as int,
        ) && board.goes < usize::MAX,
        Key::Flag => board.wf() && board.in_range(
            board.selected_cell.0 as int,
            board.selected_cell.1 as int,
        ) && (board.selected_tile() == Tile::Unopened ==> board.flag_count < usize::MAX) && (
        board.selected_tile() == Tile::Flag ==> board.flag_count > 0),
        _ => true,
    }
}

impl Board {
    /// Handles a key press: Esc quits, the arrows move the selection, Dig
    /// digs and Flag toggles a flag, each asking for a redraw; any other
    /// key is ignored.
    pub fn handle_key(&mut self, key: Key) -> (r: Response)
        requires
            key_ok(&*old(self), key),
        ensures
            r == (if key == Key::Esc {
                Response::Quit
            } else if key == Key::Other {
                Response::Ignore
            } else {
                Response::Redraw
            }),
            is_arrow(key) ==> final(self).moved_from(&*old(self), key_move(key).0, key_move(key).1),
            key == Key::Dig ==> final(self).wf() && final(self).dug_from(&*old(self)),
            key == Key::Flag ==> final(self).wf() && final(self).flagged_from(&*old(self)),
            key == Key::Esc || key == Key::Other ==> *final(self) == *old(self),
    {
        match key {
            Key::Esc => Response::Quit,
            Key::Right => {
                self.move_selected_cell(1, 0);
                Response::Redraw
            },
            Key::Left => {
                self.move_selected_cell(-1, 0);
                Response::Redraw
            },
            Key::Up => {
                self.move_selected_cell(0, -1);
                Response::Redraw
            },
            Key::Down => {
                self.move_selected_cell(0, 1);
                Response::Redraw
            },
            Key::Dig => {
                self.dig();
                Response::Redraw
            },
            Key::Flag => {
                self.flag();
                Response::Redraw
            },
            Key::Other => Response::Ignore,
        }
    }

    /// Sets the timer to `secs` elapsed seconds; the screen needs a redraw
    /// when the shown time changes.
    pub fn tick(&mut self, secs: u64) -> (redraw: bool)
        ensures
            redraw == (old(self).timer != secs),
            final(self).timer == secs,
            final(self).width == old(self).width,
            final(self).height == old(self).height,
            final(self).tiles@ == old(self).tiles@,
            final(self).bomb_count == old(self).bomb_count,
            final(self).bombs@ == old(self).bombs@,
            final(self).selected_cell == old(self).selected_cell,
            final(self).goes == old(self).goes,
            final(self).flag_count == old(self).flag_count,
            final(self).exit == old(self).exit,
            final(self).board_type == old(self).board_type,
    {
        if self.timer != secs {
            self.timer = secs;
            true
        } else {
            false
        }
    }

    /// The game is over: won or lost.
    pub fn is_over(&self) -> (r: bool)
        ensures
            r == self.exit.is_some(),
    {
        self.exit.is_some()
    }
}

} // verus!
