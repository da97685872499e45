use vstd::prelude::*;
use vstd::arithmetic::div_mod::lemma_fundamental_div_mod_converse;
use crate::flood::{
    changed_settled, digs_closed, digs_sound, lemma_cell_index_injective, lemma_flood_from_result,
    lemma_flood_result, lemma_floods_earlier, lemma_floods_lift, lemma_floods_self,
    lemma_neighbour, lemma_only_digs_at, lemma_only_digs_trans, lemma_settled_persists,
    lemma_undug_mono, lemma_undug_update_any, only_digs, settled,
};
use crate::lemmas::{lemma_cell_index_bound, lemma_neighbours_upto_len, lemma_pos_of_cell_index};
use crate::placement::{lemma_candidates_push, lemma_placed_prefix};
use crate::random::{shuffle, thread_rng};
use crate::rules::{
    block_dx, block_dy, bomb_candidates, bombs_around, cell_index, cell_numbers, covered_in,
    dig_roots, dug_value, floods, floods_from, in_3x3_area, in_board, is_bomb, is_covered,
    is_flood_from, is_flood_of, is_unopened_safe, neighbours, neighbours_upto, placed_bombs,
    pos_of, tile_of, undug_upto, with_dug_cell,
};
use crate::style::Color;

verus! {

/// A cell of the board is named by its column and its row.
pub type Position = (u16, u16);

/// What a cell of the board shows to the player.
#[derive(PartialEq, Eq, Structural, Clone, Copy, Debug)]
pub enum Tile {
    Unopened,
    Blank,
    Numbered(u8),
    Flag,
}

/// How a game ended.
#[derive(PartialEq, Eq, Structural, Clone, Copy, Debug)]
pub enum ExitType {
    Win,
    Lose,
}

/// The difficulty of a game: three fixed sizes, or a custom
/// width, height and number of bombs.
#[derive(PartialEq, Eq, Structural, Clone, Copy, Debug)]
pub enum BoardType {
    Easy,
    Normal,
    Hard,
    Custom(u16, u16, u16),
}

/// A game in progress: the grid of tiles stored row by row, the bombs, the
/// selected cell, and the counters of goes, flags and seconds.
pub struct Board {
    pub width: u16,
    pub height: u16,
    pub tiles: Vec<Tile>,
    pub bomb_count: u16,
    pub bombs: Vec<Position>,
    pub selected_cell: Position,
    pub goes: usize,
    pub flag_count: usize,
    pub timer: u64,
    pub exit: Option<ExitType>,
    pub board_type: BoardType,
}

/// The custom number of bombs: at most the number of cells less the nine
/// around the first dig.
pub open spec fn custom_bombs(w: u16, h: u16, b: u16) -> u16 {
    let room: int = if w * h < 9 {
        0
    } else {
        w * h - 9
    };
    if b <= room {
        b
    } else {
        room as u16
    }
}

/// Width, height, bomb count, name and title colours of a difficulty.
pub open spec fn type_values(board_type: BoardType) -> (u16, u16, u16, Seq<char>, Color, Color) {
    match board_type {
        BoardType::Easy => (9, 9, 10, "Easy"@, Color::Green, Color::DarkGreen),
        BoardType::Normal => (16, 16, 40, "Normal"@, Color::Cyan, Color::DarkCyan),
        BoardType::Hard => (30, 16, 99, "Hard"@, Color::Red, Color::DarkRed),
        BoardType::Custom(w, h, b) => (
            w,
            h,
            custom_bombs(w, h, b),
            "Custom"@,
            Color::Yellow,
            Color::DarkYellow,
        ),
    }
}

/// A difficulty whose board the game can build: a custom board's cells
/// must be countable in a `u16`.
pub open spec fn type_ok(board_type: BoardType) -> bool {
    match board_type {
        BoardType::Custom(w, h, _) => w * h <= u16::MAX,
        _ => true,
    }
}

impl Board {
    /// Creates a new board: every tile unopened, no bombs yet, and the
    /// selected cell in the middle of the grid.
    pub fn new(board_type: BoardType) -> (b: Board)
        requires
            type_ok(board_type),
        ensures
            b.wf(),
            b.width == type_values(board_type).0,
            b.height == type_values(board_type).1,
            b.bomb_count == type_values(board_type).2,
            forall|i: int| 0 <= i < b.tiles@.len() ==> b.tiles@[i] == Tile::Unopened,
            b.bombs@ == Seq::<Position>::empty(),
            b.selected_cell == (b.width / 2, b.height / 2),
            b.goes == 0,
            b.flag_count == 0,
            b.timer == 0,
            b.exit == None::<ExitType>,
            b.board_type == board_type,
    {
        let info = Board::get_type_values(&board_type);
        let width = info.0;
        let height = info.1;
        // Initialise tiles as a bunch of unopened tiles
        let tiles = vec![Tile::Unopened; width as usize * height as usize];
        // Set the selected cell to be in the middle of the grid
        let selected_cell = (width / 2, height / 2);

        Board {
            width: width,
            height: height,
            tiles: tiles,
            bombs: Vec::new(),
            bomb_count: info.2,
            goes: 0,
            selected_cell: selected_cell,
            flag_count: 0,
            timer: 0,
            exit: None,
            board_type: board_type,
        }
    }

    /// The width, height, bomb count, name and title colours of a
    /// difficulty.
    pub fn get_type_values(board_type: &BoardType) -> (r: (u16, u16, u16, String, Color, Color))
        requires
            type_ok(*board_type),
        ensures
            r.0 == type_values(*board_type).0,
            r.1 == type_values(*board_type).1,
            r.2 == type_values(*board_type).2,
            r.3@ == type_values(*board_type).3,
            r.4 == type_values(*board_type).4,
            r.5 == type_values(*board_type).5,
    {
        match board_type {
            BoardType::Easy => (9, 9, 10, "Easy".to_owned(), Color::Green, Color::DarkGreen),
            BoardType::Normal => (16, 16, 40, "Normal".to_owned(), Color::Cyan, Color::DarkCyan),
            BoardType::Hard => (30, 16, 99, "Hard".to_owned(), Color::Red, Color::DarkRed),
            BoardType::Custom(w, h, b) => {
                let room = (*w * *h).saturating_sub(9);
                let bombs = if *b <= room {
                    *b
                } else {
                    room
                };
                (*w, *h, bombs, "Custom".to_owned(), Color::Yellow, Color::DarkYellow)
            },
        }
    }

    /// The board's tiles cover exactly its `width * height` cells, whose
    /// number fits in a `u16`.
    pub open spec fn wf(&self) -> bool {
        &&& self.width * self.height <= u16::MAX
        &&& self.tiles@.len() == self.width * self.height
    }

    /// The settings of the game, which play never changes, are those of `other`.
    pub open spec fn same_settings(&self, other: &Board) -> bool {
        &&& self.width == other.width
        &&& self.height == other.height
        &&& self.bomb_count == other.bomb_count
        &&& self.timer == other.timer
        &&& self.board_type == other.board_type
    }

    /// Everything but the tiles is as in `other`.
    pub open spec fn same_but_tiles(&self, other: &Board) -> bool {
        &&& self.same_settings(other)
        &&& self.bombs@ == other.bombs@
        &&& self.selected_cell == other.selected_cell
        &&& self.goes == other.goes
        &&& self.flag_count == other.flag_count
        &&& self.exit == other.exit
    }

    /// The tile at the selected cell.
    pub open spec fn selected_tile(&self) -> Tile {
        self.tile(self.selected_cell.0 as int, self.selected_cell.1 as int)
    }

    /// This board is `old` after moving the selection by `(x, y)`: the
    /// selection moves when the cell it reaches lies on the board, and
    /// nothing else changes.
    pub open spec fn moved_from(&self, old: &Board, x: int, y: int) -> bool {
        let nx = old.selected_cell.0 + x;
        let ny = old.selected_cell.1 + y;
        &&& self.same_settings(old)
        &&& self.tiles@ == old.tiles@
        &&& self.bombs@ == old.bombs@
        &&& self.goes == old.goes
        &&& self.flag_count == old.flag_count
        &&& self.exit == old.exit
        &&& if old.on_board(nx, ny) {
            self.selected_cell == (nx as u16, ny as u16)
        } else {
            self.selected_cell == old.selected_cell
        }
    }

    /// This board is `old` after toggling a flag at the selected cell: an
    /// unopened cell becomes flagged and the flag count goes up, a flagged
    /// one becomes unopened and the count goes down, and an open cell is
    /// left alone.
    pub open spec fn flagged_from(&self, old: &Board) -> bool {
        let i = cell_index(old.width as int, old.selected_cell.0 as int, old.selected_cell.1 as int);
        &&& self.same_settings(old)
        &&& self.bombs@ == old.bombs@
        &&& self.selected_cell == old.selected_cell
        &&& self.goes == old.goes
        &&& self.exit == old.exit
        &&& match old.selected_tile() {
            Tile::Unopened => self.tiles@ == old.tiles@.update(i, Tile::Flag) && self.flag_count
                == old.flag_count + 1,
            Tile::Flag => self.tiles@ == old.tiles@.update(i, Tile::Unopened) && self.flag_count
                == old.flag_count - 1,
            _ => self.tiles@ == old.tiles@ && self.flag_count == old.flag_count,
        }
    }

    /// This board is `old` after digging at the selected cell. Only an
    /// unopened cell can be dug; otherwise nothing changes. A dig counts as
    /// a go. The first dig places the bombs from some shuffle of the cell
    /// numbers. Digging a bomb loses and opens nothing; otherwise the
    /// selected cell is dug and its roots are flooded (on the board: the
    /// selected cell is flooded), and the game is won when the covered
    /// cells are exactly as many as the bombs.
    pub open spec fn dug_from(&self, old: &Board) -> bool {
        let sel = old.selected_cell;
        let w = old.width as int;
        let h = old.height as int;
        &&& self.same_settings(old)
        &&& self.selected_cell == old.selected_cell
        &&& self.flag_count == old.flag_count
        &&& if old.selected_tile() != Tile::Unopened {
            &&& self.tiles@ == old.tiles@
            &&& self.bombs@ == old.bombs@
            &&& self.goes == old.goes
            &&& self.exit == old.exit
        } else {
            &&& self.goes == old.goes + 1
            &&& old.goes != 0 ==> self.bombs@ == old.bombs@
            &&& old.goes == 0 ==> exists|order: Seq<u16>|
                order.to_multiset() == cell_numbers(w * h).to_multiset() && #[trigger] self.bombs@
                    == old.bombs@ + old.bombs_from(order)
            &&& if self.bombs@.contains(sel) {
                &&& self.tiles@ == old.tiles@
                &&& self.exit == Some(ExitType::Lose)
            } else {
                &&& is_flood_from(
                    w,
                    h,
                    self.bombs@,
                    with_dug_cell(w, h, self.bombs@, old.tiles@, sel.0 as int, sel.1 as int),
                    self.tiles@,
                    dig_roots(w, h, self.bombs@, old.tiles@, sel.0 as int, sel.1 as int),
                )
                &&& old.on_board(sel.0 as int, sel.1 as int) ==> is_flood_of(
                    w,
                    h,
                    self.bombs@,
                    old.tiles@,
                    self.tiles@,
                    sel,
                )
                &&& self.exit == if covered_in(self.tiles@) == self.bombs@.len() {
                    Some(ExitType::Win)
                } else {
                    old.exit
                }
            }
        }
    }

    /// The position lies on this board.
    pub open spec fn on_board(&self, x: int, y: int) -> bool {
        in_board(self.width as int, self.height as int, x, y)
    }

    /// The cell index of `(x, y)` names a tile of this board. It does for
    /// every on-board position, and for off-board ones whose index still
    /// falls inside the grid.
    pub open spec fn in_range(&self, x: int, y: int) -> bool {
        0 <= cell_index(self.width as int, x, y) < self.tiles@.len()
    }

    /// The tile shown at `(x, y)`.
    pub open spec fn tile(&self, x: int, y: int) -> Tile {
        tile_of(self.tiles@, self.width as int, (x as u16, y as u16))
    }

    /// Gets the tile at a coordinate.
    pub fn get_tile(&self, x: u16, y: u16) -> (r: &Tile)
        requires
            self.wf(),
            self.in_range(x as int, y as int),
        ensures
            *r == self.tile(x as int, y as int),
    {
        &self.tiles[x as usize + y as usize * self.width as usize]
    }

    /// Sets the tile at a coordinate.
    pub fn set_tile(&mut self, x: u16, y: u16, tile: Tile)
        requires
            old(self).wf(),
            old(self).in_range(x as int, y as int),
        ensures
            final(self).same_but_tiles(&*old(self)),
            final(self).tiles@ == old(self).tiles@.update(
                cell_index(old(self).width as int, x as int, y as int),
                tile,
            ),
            final(self).wf(),
    {
        assert(y * self.width <= u16::MAX) by (nonlinear_arith)
            requires
                x + y * self.width < self.width * self.height,
                self.width * self.height <= u16::MAX,
                0 <= x,
        ;
        let i = x as usize + (y * self.width) as usize;
        self.tiles.set(i, tile);
    }

    /// Whether a bomb lies at `(x, y)`.
    pub fn has_bomb_at(&self, x: u16, y: u16) -> (r: bool)
        ensures
            r == self.bombs@.contains((x, y)),
    {
        self.contains_bomb((x, y))
    }

    /// Whether a bomb lies at `pos`.
    fn contains_bomb(&self, pos: Position) -> (r: bool)
        ensures
            r == self.bombs@.contains(pos),
    {
        let mut i: usize = 0;
        while i < self.bombs.len()
            invariant
                i <= self.bombs@.len(),
                forall|j: int| 0 <= j < i ==> self.bombs@[j] != pos,
            decreases self.bombs@.len() - i,
        {
            let b = self.bombs[i];
            if b.0 == pos.0 && b.1 == pos.1 {
                assert(self.bombs@[i as int] == pos);
                return true;
            }
            i += 1;
        }
        false
    }

    /// Checks if `(x, y)` is in the 3x3 area around `(x2, y2)`: whether
    /// `(x2, y2)` is a cell of the board within one step of `(x, y)`.
    pub fn in_3x3(&self, x: u16, y: u16, x2: u16, y2: u16) -> (r: bool)
        ensures
            r == in_3x3_area(
                self.width as int,
                self.height as int,
                x as int,
                y as int,
                x2 as int,
                y2 as int,
            ),
    {
        let mut c: usize = 0;
        while c < 9
            invariant
                c <= 9,
                forall|k: int|
                    0 <= k < c ==> !(x + block_dx(k) == x2 && y + block_dy(k) == y2 && in_board(
                        self.width as int,
                        self.height as int,
                        x2 as int,
                        y2 as int,
                    )),
            decreases 9 - c,
        {
            let h = (c % 3) as i32 - 1;
            let v = (c / 3) as i32 - 1;
            let x_i = x as i32 + h;
            let y_i = y as i32 + v;
            if self.check_bounds(x_i, y_i) {
                if x_i as u16 == x2 && y_i as u16 == y2 {
                    return true;
                }
            }
            c += 1;
        }
        proof {
            if in_3x3_area(
                self.width as int,
                self.height as int,
                x as int,
                y as int,
                x2 as int,
                y2 as int,
            ) {
                let k = (y2 - y + 1) * 3 + (x2 - x + 1);
                lemma_fundamental_div_mod_converse(k, 3, y2 - y + 1, x2 - x + 1);
                assert(x + block_dx(k) == x2 && y + block_dy(k) == y2);
            }
        }
        false
    }

    /// Scans the 3x3 area around `(x, y)`: the number of neighbours that
    /// hold a bomb, and the unopened neighbours that do not, in reading order.
    fn scan_3x3(&self, x: u16, y: u16) -> (r: (u8, Vec<Position>))
        requires
            self.wf(),
        ensures
            r.0 == bombs_around(
                self.width as int,
                self.height as int,
                self.bombs@,
                x as int,
                y as int,
            ),
            r.1@ == neighbours(self.width as int, self.height as int, x as int, y as int).filter(
                is_unopened_safe(self.bombs@, self.tiles@, self.width as int),
            ),
    {
        let ghost w = self.width as int;
        let ghost hh = self.height as int;
        let mut bomb_count: u8 = 0;
        let mut unopened_positions: Vec<Position> = Vec::new();
        let mut c: usize = 0;
        while c < 9
            invariant
                c <= 9,
                self.wf(),
                w == self.width,
                hh == self.height,
                bomb_count == neighbours_upto(w, hh, x as int, y as int, c as int).filter(
                    is_bomb(self.bombs@),
                ).len(),
                unopened_positions@ == neighbours_upto(w, hh, x as int, y as int, c as int).filter(
                    is_unopened_safe(self.bombs@, self.tiles@, w),
                ),
            decreases 9 - c,
        {
            let ghost prev = neighbours_upto(w, hh, x as int, y as int, c as int);
            proof {
                lemma_neighbours_upto_len(w, hh, x as int, y as int, c as int);
                prev.lemma_filter_len(is_bomb(self.bombs@));
            }
            let h = (c % 3) as i32 - 1;
            let v = (c / 3) as i32 - 1;
            if c != 4 {
                let x_i = x as i32 + h;
                let y_i = y as i32 + v;
                if self.check_bounds(x_i, y_i) {
                    let pos: Position = (x_i as u16, y_i as u16);
                    proof {
                        lemma_cell_index_bound(w, hh, x_i as int, y_i as int);
                        assert(neighbours_upto(w, hh, x as int, y as int, c + 1) == prev.push(pos));
                        prev.lemma_filter_push(pos, is_bomb(self.bombs@));
                        prev.lemma_filter_push(pos, is_unopened_safe(self.bombs@, self.tiles@, w));
                    }
                    if self.contains_bomb(pos) {
                        bomb_count += 1;
                    } else if *self.get_tile(pos.0, pos.1) == Tile::Unopened {
                        unopened_positions.push(pos);
                    }
                } else {
                    assert(neighbours_upto(w, hh, x as int, y as int, c + 1) == prev);
                }
            } else {
                assert(neighbours_upto(w, hh, x as int, y as int, c + 1) == prev);
            }
            c += 1;
        }
        (bomb_count, unopened_positions)
    }

    /// Moves the selected cell by `(x, y)` when the cell it reaches lies on
    /// the board; otherwise the selection stays where it is.
    pub fn move_selected_cell(&mut self, x: i32, y: i32)
        requires
            i32::MIN <= old(self).selected_cell.0 + x <= i32::MAX,
            i32::MIN <= old(self).selected_cell.1 + y <= i32::MAX,
        ensures
            final(self).moved_from(&*old(self), x as int, y as int),
            0 <= old(self).selected_cell.0 + x < old(self).width && 0 <= old(self).selected_cell.1
                + y < old(self).height ==> final(self).selected_cell.0 == old(self).selected_cell.0
                + x && final(self).selected_cell.1 == old(self).selected_cell.1 + y,
            !(0 <= old(self).selected_cell.0 + x < old(self).width && 0 <= old(
                self,
            ).selected_cell.1 + y < old(self).height) ==> final(self).selected_cell == old(
                self,
            ).selected_cell,
    {
        let new_x = self.selected_cell.0 as i32 + x;
        let new_y = self.selected_cell.1 as i32 + y;

        if self.check_bounds(new_x, new_y) {
            self.selected_cell.0 = new_x as u16;
            self.selected_cell.1 = new_y as u16;
        }
    }

    /// Toggles a flag at the selected cell: an unopened cell becomes
    /// flagged and a flagged one unopened again; an open cell is left alone.
    pub fn flag(&mut self)
        requires
            old(self).wf(),
            old(self).in_range(old(self).selected_cell.0 as int, old(self).selected_cell.1 as int),
            old(self).selected_tile() == Tile::Unopened ==> old(self).flag_count < usize::MAX,
            old(self).selected_tile() == Tile::Flag ==> old(self).flag_count > 0,
        ensures
            final(self).wf(),
            final(self).flagged_from(&*old(self)),
    {
        let x = self.selected_cell.0;
        let y = self.selected_cell.1;
        let t = *self.get_tile(x, y);
        match t {
            Tile::Unopened => {
                self.set_tile(x, y, Tile::Flag);
                self.flag_count += 1
            },
            Tile::Flag => {
                self.set_tile(x, y, Tile::Unopened);
                self.flag_count -= 1
            },
            _ => {},
        }
    }

    /// Digs at `(x, y)`: the cell shows the number of bombs around it, and
    /// when there are none, every unopened neighbour without a bomb is dug
    /// in turn. The value is written at the cell index of `(x, y)`, and the
    /// neighbours that were unopened when it was scanned are flooded. On
    /// the board, the result is the flood of `(x, y)`: every cell that a
    /// chain of such steps reaches shows its dug value, every other cell is
    /// kept.
    pub fn flood_dig(&mut self, x: u16, y: u16)
        requires
            old(self).wf(),
            old(self).in_range(x as int, y as int),
        ensures
            final(self).wf(),
            final(self).same_but_tiles(&*old(self)),
            is_flood_from(
                old(self).width as int,
                old(self).height as int,
                old(self).bombs@,
                with_dug_cell(
                    old(self).width as int,
                    old(self).height as int,
                    old(self).bombs@,
                    old(self).tiles@,
                    x as int,
                    y as int,
                ),
                final(self).tiles@,
                dig_roots(
                    old(self).width as int,
                    old(self).height as int,
                    old(self).bombs@,
                    old(self).tiles@,
                    x as int,
                    y as int,
                ),
            ),
            old(self).on_board(x as int, y as int) ==> is_flood_of(
                old(self).width as int,
                old(self).height as int,
                old(self).bombs@,
                old(self).tiles@,
                final(self).tiles@,
                (x, y),
            ),
            old(self).on_board(x as int, y as int) ==> only_digs(
                old(self).width as int,
                old(self).height as int,
                old(self).bombs@,
                old(self).tiles@,
                final(self).tiles@,
            ),
            old(self).on_board(x as int, y as int) ==> digs_closed(
                old(self).width as int,
                old(self).height as int,
                old(self).bombs@,
                old(self).tiles@,
                final(self).tiles@,
                (x, y),
            ),
            old(self).on_board(x as int, y as int) ==> digs_sound(
                old(self).width as int,
                old(self).height as int,
                old(self).bombs@,
                old(self).tiles@,
                final(self).tiles@,
                (x, y),
            ),
        decreases
            2 * undug_upto(
                old(self).width as int,
                old(self).height as int,
                old(self).bombs@,
                old(self).tiles@,
                old(self).tiles@.len() as int,
            ) + (if old(self).on_board(x as int, y as int) {
                if tile_of(old(self).tiles@, old(self).width as int, (x, y)) == dug_value(
                    old(self).width as int,
                    old(self).height as int,
                    old(self).bombs@,
                    (x, y),
                ) {
                    1int
                } else {
                    0int
                }
            } else {
                4int
            }),
    {
        let ghost w = self.width as int;
        let ghost hh = self.height as int;
        let ghost bombs = self.bombs@;
        let ghost s0 = self.tiles@;
        let ghost n = s0.len() as int;
        let ghost p: Position = (x, y);
        let ghost pi = cell_index(w, x as int, y as int);
        let ghost dv = dug_value(w, hh, bombs, p);
        let ghost s1 = s0.update(pi, dv);
        let ghost on = in_board(w, hh, x as int, y as int);
        proof {
            if on {
                lemma_cell_index_bound(w, hh, x as int, y as int);
                lemma_pos_of_cell_index(w, hh, x as int, y as int);
            }
            lemma_undug_update_any(w, hh, bombs, s0, pi, dv, n);
            assert(s1 == with_dug_cell(w, hh, bombs, s0, x as int, y as int));
        }

        let scan_result = self.scan_3x3(x, y);
        let bomb_neighbours = scan_result.0;
        let tiles_to_dig = scan_result.1;

        // If the tile isn't next to a bomb, make it blank and dig all of the neighbours
        if bomb_neighbours == 0 {
            self.set_tile(x, y, Tile::Blank);
            proof {
                assert(self.tiles@ == s1);
                assert(only_digs(w, hh, bombs, s1, s1));
                assert(tiles_to_dig@ == dig_roots(w, hh, bombs, s0, x as int, y as int));
            }
            let mut k: usize = 0;
            while k < tiles_to_dig.len()
                invariant
                    k <= tiles_to_dig@.len(),
                    self.wf(),
                    self.same_but_tiles(&*old(self)),
                    w == self.width,
                    hh == self.height,
                    bombs == self.bombs@,
                    s0 == old(self).tiles@,
                    n == s0.len(),
                    p == (x, y),
                    pi == cell_index(w, x as int, y as int),
                    0 <= pi < n,
                    on == in_board(w, hh, x as int, y as int),
                    on ==> pos_of(w, pi) == p,
                    bombs_around(w, hh, bombs, x as int, y as int) == 0,
                    tiles_to_dig@ == neighbours(w, hh, x as int, y as int).filter(
                        is_unopened_safe(bombs, s0, w),
                    ),
                    dv == dug_value(w, hh, bombs, p),
                    s1 == s0.update(pi, dv),
                    undug_upto(w, hh, bombs, s1, n) <= undug_upto(w, hh, bombs, s0, n) + 1,
                    on ==> undug_upto(w, hh, bombs, s1, n) == (if s0[pi] != dv {
                        undug_upto(w, hh, bombs, s0, n) - 1
                    } else {
                        undug_upto(w, hh, bombs, s0, n) as int
                    }),
                    only_digs(w, hh, bombs, s1, self.tiles@),
                    forall|j: int|
                        0 <= j < k ==> #[trigger] settled(
                            w,
                            hh,
                            bombs,
                            self.tiles@,
                            tiles_to_dig@[j],
                        ),
                    changed_settled(w, hh, bombs, s1, self.tiles@),
                    forall|q: Position|
                        #![trigger tile_of(self.tiles@, w, q)]
                        in_board(w, hh, q.0 as int, q.1 as int) && tile_of(self.tiles@, w, q)
                            != tile_of(s1, w, q) ==> floods_from(
                            w,
                            hh,
                            bombs,
                            s1,
                            tiles_to_dig@.take(k as int),
                            q,
                        ),
                decreases tiles_to_dig@.len() - k,
            {
                let tile = tiles_to_dig[k];
                let ghost cur = self.tiles@;
                proof {
                    let pred = is_unopened_safe(bombs, s0, w);
                    let nb = neighbours(w, hh, x as int, y as int);
                    nb.lemma_filter_pred(pred, k as int);
                    assert(nb.filter(pred).contains(tile));
                    nb.lemma_filter_contains_rev(pred, tile);
                    lemma_neighbour(w, hh, x as int, y as int, tile);
                    let ti = cell_index(w, tile.0 as int, tile.1 as int);
                    lemma_cell_index_bound(w, hh, tile.0 as int, tile.1 as int);
                    lemma_pos_of_cell_index(w, hh, tile.0 as int, tile.1 as int);
                    lemma_undug_mono(w, hh, bombs, s1, cur, n, ti);
                    if on {
                        assert(ti != pi) by {
                            if ti == pi {
                                lemma_cell_index_injective(w, hh, tile, p);
                            }
                        }
                        assert(s1[ti] == Tile::Unopened);
                    }
                    assert(cur[ti] == tile_of(cur, w, tile));
                }
                self.flood_dig(tile.0, tile.1);
                proof {
                    let nxt = self.tiles@;
                    lemma_only_digs_trans(w, hh, bombs, s1, cur, nxt);
                    assert(settled(w, hh, bombs, nxt, tile));
                    assert forall|j: int| 0 <= j < k + 1 implies #[trigger] settled(
                        w,
                        hh,
                        bombs,
                        nxt,
                        tiles_to_dig@[j],
                    ) by {
                        if j < k {
                            let r = tiles_to_dig@[j];
                            let pred = is_unopened_safe(bombs, s0, w);
                            let nb = neighbours(w, hh, x as int, y as int);
                            assert(nb.filter(pred)[j] == r);
                            assert(nb.filter(pred).contains(r));
                            nb.lemma_filter_contains_rev(pred, r);
                            lemma_neighbour(w, hh, x as int, y as int, r);
                            lemma_settled_persists(w, hh, bombs, cur, nxt, r);
                        }
                    }
                    assert forall|q: Position|
                        #![trigger tile_of(nxt, w, q)]
                        in_board(w, hh, q.0 as int, q.1 as int) && tile_of(nxt, w, q) != tile_of(
                            s1,
                            w,
                            q,
                        ) implies settled(w, hh, bombs, nxt, q) by {
                        if tile_of(cur, w, q) != tile_of(s1, w, q) {
                            lemma_settled_persists(w, hh, bombs, cur, nxt, q);
                        } else {
                            assert(tile_of(nxt, w, q) != tile_of(cur, w, q));
                        }
                    }
                    let taken = tiles_to_dig@.take(k + 1);
                    assert forall|q: Position|
                        #![trigger tile_of(nxt, w, q)]
                        in_board(w, hh, q.0 as int, q.1 as int) && tile_of(nxt, w, q) != tile_of(
                            s1,
                            w,
                            q,
                        ) implies floods_from(w, hh, bombs, s1, taken, q) by {
                        if tile_of(cur, w, q) != tile_of(s1, w, q) {
                            assert(tile_of(cur, w, q) == tile_of(cur, w, q));
                            let j = choose|j: int|
                                0 <= j < tiles_to_dig@.take(k as int).len() && #[trigger] floods(
                                    w,
                                    hh,
                                    bombs,
                                    s1,
                                    tiles_to_dig@.take(k as int)[j],
                                    q,
                                );
                            assert(taken[j] == tiles_to_dig@.take(k as int)[j]);
                        } else {
                            assert(tile_of(nxt, w, q) != tile_of(cur, w, q));
                            lemma_floods_earlier(w, hh, bombs, s1, cur, tile, q);
                            assert(taken[k as int] == tile);
                        }
                    }
                }
                k += 1;
            }
            proof {
                let fin = self.tiles@;
                assert(tiles_to_dig@.take(k as int) == tiles_to_dig@);
                assert forall|j: int| 0 <= j < tiles_to_dig@.len() implies in_board(
                    w,
                    hh,
                    tiles_to_dig@[j].0 as int,
                    tiles_to_dig@[j].1 as int,
                ) && #[trigger] settled(w, hh, bombs, fin, tiles_to_dig@[j]) by {
                    let r = tiles_to_dig@[j];
                    let pred = is_unopened_safe(bombs, s0, w);
                    let nb = neighbours(w, hh, x as int, y as int);
                    assert(nb.filter(pred)[j] == r);
                    assert(nb.filter(pred).contains(r));
                    nb.lemma_filter_contains_rev(pred, r);
                    lemma_neighbour(w, hh, x as int, y as int, r);
                }
                assert forall|j: int| 0 <= j < tiles_to_dig@.len() implies in_board(
                    w,
                    hh,
                    tiles_to_dig@[j].0 as int,
                    tiles_to_dig@[j].1 as int,
                ) by {
                    assert(settled(w, hh, bombs, fin, tiles_to_dig@[j]));
                }
                lemma_flood_from_result(w, hh, bombs, s1, fin, tiles_to_dig@);
                if on {
                    self.lemma_flood_dig_on_board(s0, s1, fin, x, y, tiles_to_dig@);
                }
            }
        }
        // Otherwise, make it numbered
        else {
            self.set_tile(x, y, Tile::Numbered(bomb_neighbours));
            proof {
                let fin = self.tiles@;
                assert(fin == s1);
                assert(dig_roots(w, hh, bombs, s0, x as int, y as int) =~= Seq::<Position>::empty());
                assert(is_flood_from(
                    w,
                    hh,
                    bombs,
                    s1,
                    fin,
                    dig_roots(w, hh, bombs, s0, x as int, y as int),
                ));
                if on {
                    assert forall|i: int| 0 <= i < s0.len() implies #[trigger] fin[i] == s0[i]
                        || fin[i] == dug_value(w, hh, bombs, pos_of(w, i)) by {}
                    assert forall|q: Position|
                        #![trigger tile_of(fin, w, q)]
                        in_board(w, hh, q.0 as int, q.1 as int) && (tile_of(fin, w, q) != tile_of(
                            s0,
                            w,
                            q,
                        ) || q == p) implies settled(w, hh, bombs, fin, q) by {
                        if q == p {
                            assert(tile_of(fin, w, p) == fin[pi]);
                            assert(bombs_around(w, hh, bombs, x as int, y as int) != 0);
                        } else {
                            let qi = cell_index(w, q.0 as int, q.1 as int);
                            lemma_cell_index_bound(w, hh, q.0 as int, q.1 as int);
                            assert(qi != pi) by {
                                if qi == pi {
                                    lemma_cell_index_injective(w, hh, q, p);
                                }
                            }
                        }
                    }
                    assert forall|q: Position|
                        #![trigger tile_of(fin, w, q)]
                        in_board(w, hh, q.0 as int, q.1 as int) && tile_of(fin, w, q) != tile_of(
                            s0,
                            w,
                            q,
                        ) implies floods(w, hh, bombs, s0, p, q) by {
                        if q != p {
                            let qi = cell_index(w, q.0 as int, q.1 as int);
                            lemma_cell_index_bound(w, hh, q.0 as int, q.1 as int);
                            assert(qi != pi) by {
                                if qi == pi {
                                    lemma_cell_index_injective(w, hh, q, p);
                                }
                            }
                        }
                        lemma_floods_self(w, hh, bombs, s0, p);
                    }
                    lemma_flood_result(w, hh, bombs, s0, fin, p);
                }
            }
        }
    }

    /// On the board, digging a cell with no bomb around it and flooding its
    /// roots is the flood of the cell.
    proof fn lemma_flood_dig_on_board(
        &self,
        s0: Seq<Tile>,
        s1: Seq<Tile>,
        fin: Seq<Tile>,
        x: u16,
        y: u16,
        roots: Seq<Position>,
    )
        requires
            self.wf(),
            self.tiles@ == fin,
            s0.len() == fin.len(),
            self.on_board(x as int, y as int),
            bombs_around(
                self.width as int,
                self.height as int,
                self.bombs@,
                x as int,
                y as int,
            ) == 0,
            s1 == s0.update(
                cell_index(self.width as int, x as int, y as int),
                dug_value(self.width as int, self.height as int, self.bombs@, (x, y)),
            ),
            roots == neighbours(self.width as int, self.height as int, x as int, y as int).filter(
                is_unopened_safe(self.bombs@, s0, self.width as int),
            ),
            only_digs(self.width as int, self.height as int, self.bombs@, s1, fin),
            changed_settled(self.width as int, self.height as int, self.bombs@, s1, fin),
            forall|j: int|
                0 <= j < roots.len() ==> #[trigger] settled(
                    self.width as int,
                    self.height as int,
                    self.bombs@,
                    fin,
                    roots[j],
                ),
            forall|q: Position|
                #![trigger tile_of(fin, self.width as int, q)]
                in_board(self.width as int, self.height as int, q.0 as int, q.1 as int) && tile_of(
                    fin,
                    self.width as int,
                    q,
                ) != tile_of(s1, self.width as int, q) ==> floods_from(
                    self.width as int,
                    self.height as int,
                    self.bombs@,
                    s1,
                    roots,
                    q,
                ),
        ensures
            only_digs(self.width as int, self.height as int, self.bombs@, s0, fin),
            digs_closed(self.width as int, self.height as int, self.bombs@, s0, fin, (x, y)),
            digs_sound(self.width as int, self.height as int, self.bombs@, s0, fin, (x, y)),
            is_flood_of(self.width as int, self.height as int, self.bombs@, s0, fin, (x, y)),
    {
        let w = self.width as int;
        let hh = self.height as int;
        let bombs = self.bombs@;
        let p: Position = (x, y);
        let pi = cell_index(w, x as int, y as int);
        let pred = is_unopened_safe(bombs, s0, w);
        let nb = neighbours(w, hh, x as int, y as int);
        lemma_cell_index_bound(w, hh, x as int, y as int);
        lemma_pos_of_cell_index(w, hh, x as int, y as int);
        assert forall|i: int| 0 <= i < s0.len() implies #[trigger] s1[i] == s0[i] || s1[i]
            == dug_value(w, hh, bombs, pos_of(w, i)) by {}
        lemma_only_digs_trans(w, hh, bombs, s0, s1, fin);
        lemma_only_digs_at(w, hh, bombs, s1, fin, p);
        assert forall|r: Position|
            #[trigger] nb.contains(r) && !bombs.contains(r) implies tile_of(fin, w, r)
            != Tile::Unopened by {
            lemma_neighbour(w, hh, x as int, y as int, r);
            let ri = cell_index(w, r.0 as int, r.1 as int);
            lemma_cell_index_bound(w, hh, r.0 as int, r.1 as int);
            assert(ri != pi) by {
                if ri == pi {
                    lemma_cell_index_injective(w, hh, r, p);
                }
            }
            lemma_only_digs_at(w, hh, bombs, s1, fin, r);
            if tile_of(s0, w, r) == Tile::Unopened {
                let j = choose|j: int| 0 <= j < nb.len() && nb[j] == r;
                nb.lemma_filter_contains(pred, j);
                let jj = choose|jj: int| 0 <= jj < roots.len() && roots[jj] == r;
                assert(settled(w, hh, bombs, fin, roots[jj]));
            }
        }
        assert(settled(w, hh, bombs, fin, p));
        assert forall|q: Position|
            #![trigger tile_of(fin, w, q)]
            in_board(w, hh, q.0 as int, q.1 as int) && (tile_of(fin, w, q) != tile_of(s0, w, q)
                || q == p) implies settled(w, hh, bombs, fin, q) by {
            if q != p {
                let qi = cell_index(w, q.0 as int, q.1 as int);
                lemma_cell_index_bound(w, hh, q.0 as int, q.1 as int);
                assert(qi != pi) by {
                    if qi == pi {
                        lemma_cell_index_injective(w, hh, q, p);
                    }
                }
                assert(tile_of(s1, w, q) == tile_of(s0, w, q));
            }
        }
        assert forall|q: Position|
            #![trigger tile_of(fin, w, q)]
            in_board(w, hh, q.0 as int, q.1 as int) && tile_of(fin, w, q) != tile_of(s0, w, q)
                implies floods(w, hh, bombs, s0, p, q) by {
            if q == p {
                lemma_floods_self(w, hh, bombs, s0, p);
            } else {
                let qi = cell_index(w, q.0 as int, q.1 as int);
                lemma_cell_index_bound(w, hh, q.0 as int, q.1 as int);
                assert(qi != pi) by {
                    if qi == pi {
                        lemma_cell_index_injective(w, hh, q, p);
                    }
                }
                assert(tile_of(s1, w, q) == tile_of(s0, w, q));
                let j = choose|j: int| 0 <= j < roots.len() && #[trigger] floods(
                    w,
                    hh,
                    bombs,
                    s1,
                    roots[j],
                    q,
                );
                let t = roots[j];
                nb.lemma_filter_pred(pred, j);
                assert(nb.filter(pred).contains(t));
                nb.lemma_filter_contains_rev(pred, t);
                lemma_floods_lift(w, hh, bombs, s0, s1, p, t, q);
            }
        }
        lemma_flood_result(w, hh, bombs, s0, fin, p);
    }

    /// Everything but the bombs is as in `other`.
    pub open spec fn same_but_bombs(&self, other: &Board) -> bool {
        &&& self.same_settings(other)
        &&& self.tiles@ == other.tiles@
        &&& self.selected_cell == other.selected_cell
        &&& self.goes == other.goes
        &&& self.flag_count == other.flag_count
        &&& self.exit == other.exit
    }

    /// The bombs that `order` places on this board: numbers are read in
    /// turn as positions, those in the 3x3 area around the selected cell
    /// are skipped, and the first `bomb_count` of the others take a bomb.
    pub open spec fn bombs_from(&self, order: Seq<u16>) -> Seq<Position> {
        placed_bombs(
            self.width as int,
            self.height as int,
            self.selected_cell,
            self.bomb_count as int,
            order,
        )
    }

    /// Adds bombs to the board from the numbers of `order`, read as
    /// positions row by row, skipping those in the 3x3 area around the
    /// selected cell, until `bomb_count` bombs are placed or the numbers
    /// run out.
    pub fn place_bombs(&mut self, order: &Vec<u16>)
        requires
            old(self).wf(),
            old(self).width > 0 || order@.len() == 0 || old(self).bomb_count == 0,
        ensures
            final(self).wf(),
            final(self).same_but_bombs(&*old(self)),
            final(self).bombs@ == old(self).bombs@ + old(self).bombs_from(order@),
    {
        let ghost w = self.width as int;
        let ghost hh = self.height as int;
        let ghost sel = self.selected_cell;
        let ghost old_bombs = self.bombs@;
        let mut pos_index: usize = 0;
        let mut placed: u16 = 0;
        while placed < self.bomb_count && pos_index < order.len()
            invariant
                self.wf(),
                self.same_but_bombs(&*old(self)),
                w == self.width,
                hh == self.height,
                sel == self.selected_cell,
                old_bombs == old(self).bombs@,
                self.width > 0 || order@.len() == 0 || self.bomb_count == 0,
                pos_index <= order@.len(),
                placed <= self.bomb_count,
                placed == bomb_candidates(w, hh, sel, order@.take(pos_index as int)).len(),
                self.bombs@ == old_bombs + bomb_candidates(w, hh, sel, order@.take(pos_index as int)),
            decreases order@.len() - pos_index,
        {
            let possible_pos = order[pos_index];
            let x = possible_pos % self.width;
            let y = possible_pos / self.width;
            proof {
                assert(order@.take(pos_index + 1) == order@.take(pos_index as int).push(possible_pos));
                lemma_candidates_push(w, hh, sel, order@.take(pos_index as int), possible_pos);
            }
            pos_index += 1;
            if !self.in_3x3(x, y, self.selected_cell.0, self.selected_cell.1) {
                self.bombs.push((x, y));
                placed += 1;
            }
        }
        proof {
            lemma_placed_prefix(w, hh, sel, self.bomb_count as int, order@, pos_index as int);
        }
    }

    /// Populates the bomb vector, making sure no bombs are generated in a
    /// 3x3 area around the selected cell: the cells are offered in an order
    /// that `rand` shuffles, and `place_bombs` takes it from there.
    pub fn populate_bombs(&mut self)
        requires
            old(self).wf(),
        ensures
            final(self).wf(),
            final(self).same_but_bombs(&*old(self)),
            exists|order: Seq<u16>|
                order.to_multiset() == cell_numbers(old(self).width * old(self).height).to_multiset()
                    && #[trigger] final(self).bombs@ == old(self).bombs@ + old(self).bombs_from(order),
    {
        // The number of cells, with a hard limit of 2^16
        let cells = self.width * self.height;
        let max_bombs = if cells < u16::MAX {
            cells
        } else {
            u16::MAX
        };
        // All of the possible positions for a bomb, in a flattened form
        let mut possible_positions: Vec<u16> = Vec::new();
        let mut i: u16 = 0;
        while i < max_bombs
            invariant
                i <= max_bombs,
                possible_positions@ == cell_numbers(i as int),
            decreases max_bombs - i,
        {
            possible_positions.push(i);
            i += 1;
            assert(possible_positions@ =~= cell_numbers(i as int));
        }
        let ghost unshuffled = possible_positions@;
        // Shuffle it
        let mut rng = thread_rng();
        shuffle(&mut possible_positions, &mut rng);
        proof {
            unshuffled.to_multiset_ensures();
            possible_positions@.to_multiset_ensures();
        }
        self.place_bombs(&possible_positions);
        assert(self.bombs@ == old(self).bombs@ + old(self).bombs_from(possible_positions@));
    }

    /// How many tiles are not yet open: unopened or flagged.
    fn count_covered(&self) -> (r: usize)
        ensures
            r == covered_in(self.tiles@),
    {
        let mut count: usize = 0;
        let mut i: usize = 0;
        while i < self.tiles.len()
            invariant
                i <= self.tiles@.len(),
                count == self.tiles@.take(i as int).filter(is_covered()).len(),
            decreases self.tiles@.len() - i,
        {
            proof {
                assert(self.tiles@.take(i + 1) == self.tiles@.take(i as int).push(self.tiles@[i as int]));
                self.tiles@.take(i as int).lemma_filter_push(self.tiles@[i as int], is_covered());
                self.tiles@.take(i as int).lemma_filter_len(is_covered());
            }
            let t = self.tiles[i];
            if t == Tile::Unopened || t == Tile::Flag {
                count += 1;
            }
            i += 1;
        }
        assert(self.tiles@.take(i as int) == self.tiles@);
        count
    }

    /// Digs at the selected cell. Only an unopened cell can be dug. The
    /// first dig places the bombs; every dig counts as a go. Digging a bomb
    /// loses the game; otherwise the cell is flood-dug, and the game is won
    /// when the cells still covered are exactly as many as the bombs.
    pub fn dig(&mut self)
        requires
            old(self).wf(),
            old(self).in_range(old(self).selected_cell.0 as int, old(self).selected_cell.1 as int),
            old(self).goes < usize::MAX,
        ensures
            final(self).wf(),
            final(self).dug_from(&*old(self)),
    {
        let x = self.selected_cell.0;
        let y = self.selected_cell.1;
        // You can only dig unopened cells
        if *self.get_tile(x, y) != Tile::Unopened {
            return;
        }
        // If it's the users first go, add bombs to the map
        if self.goes == 0 {
            self.populate_bombs();
        }
        // Increase the go count
        self.goes += 1;

        // You dug a bomb!
        if self.contains_bomb(self.selected_cell) {
            self.exit = Some(ExitType::Lose);
            return;
        }
        // Start digging
        self.flood_dig(x, y);
        // Check if, once digging's complete, all uncovered tiles are mines
        if self.count_covered() == self.bombs.len() {
            self.exit = Some(ExitType::Win);
        }
    }

    pub fn check_bounds(&self, x: i32, y: i32) -> (r: bool)
        ensures
            r == in_board(self.width as int, self.height as int, x as int, y as int),
    {
        !(x >= self.width as i32 || x < 0 || y >= self.height as i32 || y < 0)
    }
}

} // verus!
