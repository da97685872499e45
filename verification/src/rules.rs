//! The rules of the game as mathematics: neighbourhoods, the value that a
//! dug cell shows, the cells that one dig opens, and where bombs go.

use vstd::prelude::*;
use crate::board::{Position, Tile};

verus! {

/// The position `(x, y)` lies on a board of the given size.
pub open spec fn in_board(w: int, h: int, x: int, y: int) -> bool {
    0 <= x < w && 0 <= y < h
}

/// Cells are stored row by row: `(x, y)` is at index `x + y * w`.
pub open spec fn cell_index(w: int, x: int, y: int) -> int {
    x + y * w
}

/// The tile at position `q` of a row-major grid of width `w`.
pub open spec fn tile_of(tiles: Seq<Tile>, w: int, q: Position) -> Tile {
    tiles[cell_index(w, q.0 as int, q.1 as int)]
}

/// The position whose cell index is `i`.
pub open spec fn pos_of(w: int, i: int) -> Position {
    ((i % w) as u16, (i / w) as u16)
}

/// `(x2, y2)` is a cell of the board inside the 3x3 block centred at `(x, y)`.
pub open spec fn in_3x3_area(w: int, h: int, x: int, y: int, x2: int, y2: int) -> bool {
    &&& in_board(w, h, x2, y2)
    &&& x - 1 <= x2 <= x + 1
    &&& y - 1 <= y2 <= y + 1
}

/// Column offset of the `c`-th cell of a 3x3 block read row by row.
pub open spec fn block_dx(c: int) -> int {
    c % 3 - 1
}

/// Row offset of the `c`-th cell of a 3x3 block read row by row.
pub open spec fn block_dy(c: int) -> int {
    c / 3 - 1
}

/// The cells among the first `c` cells of the 3x3 block centred at
/// `(x, y)`, read row by row, that lie on the board, the centre excluded.
pub open spec fn neighbours_upto(w: int, h: int, x: int, y: int, c: int) -> Seq<Position>
    decreases c,
{
    if c <= 0 {
        Seq::empty()
    } else {
        let prev = neighbours_upto(w, h, x, y, c - 1);
        let nx = x + block_dx(c - 1);
        let ny = y + block_dy(c - 1);
        if c - 1 != 4 && in_board(w, h, nx, ny) {
            prev.push((nx as u16, ny as u16))
        } else {
            prev
        }
    }
}

/// The neighbours of `(x, y)` on the board, in reading order.
pub open spec fn neighbours(w: int, h: int, x: int, y: int) -> Seq<Position> {
    neighbours_upto(w, h, x, y, 9)
}

/// Holds of the positions that hold a bomb.
pub open spec fn is_bomb(bombs: Seq<Position>) -> spec_fn(Position) -> bool {
    |q: Position| bombs.contains(q)
}

/// Holds of the positions that hold no bomb and are still unopened.
pub open spec fn is_unopened_safe(bombs: Seq<Position>, tiles: Seq<Tile>, w: int) -> spec_fn(
    Position,
) -> bool {
    |q: Position| !bombs.contains(q) && tile_of(tiles, w, q) == Tile::Unopened
}

/// How many neighbours of `(x, y)` hold a bomb.
pub open spec fn bombs_around(w: int, h: int, bombs: Seq<Position>, x: int, y: int) -> nat {
    neighbours(w, h, x, y).filter(is_bomb(bombs)).len()
}

/// What a dug cell shows, given the number of bombs around it.
pub open spec fn dug_tile(n: nat) -> Tile {
    if n == 0 {
        Tile::Blank
    } else {
        Tile::Numbered(n as u8)
    }
}

/// What the cell at `q` shows once it has been dug.
pub open spec fn dug_value(w: int, h: int, bombs: Seq<Position>, q: Position) -> Tile {
    dug_tile(bombs_around(w, h, bombs, q.0 as int, q.1 as int))
}

/// Digging `p` goes on to dig `q`: `p` has no bomb around it, and `q` is a
/// neighbour of `p` that holds no bomb and is unopened.
pub open spec fn flood_step(
    w: int,
    h: int,
    bombs: Seq<Position>,
    tiles: Seq<Tile>,
    p: Position,
    q: Position,
) -> bool {
    &&& bombs_around(w, h, bombs, p.0 as int, p.1 as int) == 0
    &&& neighbours(w, h, p.0 as int, p.1 as int).contains(q)
    &&& !bombs.contains(q)
    &&& tile_of(tiles, w, q) == Tile::Unopened
}

/// The `i`-th link of `path` is a flood step.
pub open spec fn path_link(
    w: int,
    h: int,
    bombs: Seq<Position>,
    tiles: Seq<Tile>,
    path: Seq<Position>,
    i: int,
) -> bool {
    flood_step(w, h, bombs, tiles, path[i], path[i + 1])
}

/// A non-empty chain of flood steps.
pub open spec fn flood_path(
    w: int,
    h: int,
    bombs: Seq<Position>,
    tiles: Seq<Tile>,
    path: Seq<Position>,
) -> bool {
    &&& path.len() >= 1
    &&& forall|i: int| 0 <= i < path.len() - 1 ==> #[trigger] path_link(w, h, bombs, tiles, path, i)
}

/// Digging `p` opens `q`: a chain of flood steps leads from `p` to `q`.
pub open spec fn floods(
    w: int,
    h: int,
    bombs: Seq<Position>,
    tiles: Seq<Tile>,
    p: Position,
    q: Position,
) -> bool {
    exists|path: Seq<Position>|
        #[trigger] flood_path(w, h, bombs, tiles, path) && path[0] == p && path.last() == q
}

/// `after` is `before` once `p` has been dug: every cell that the dig
/// opens shows its value, every other cell is as it was.
pub open spec fn is_flood_of(
    w: int,
    h: int,
    bombs: Seq<Position>,
    before: Seq<Tile>,
    after: Seq<Tile>,
    p: Position,
) -> bool {
    &&& after.len() == before.len()
    &&& forall|q: Position|
        in_board(w, h, q.0 as int, q.1 as int) ==> #[trigger] tile_of(after, w, q) == (if floods(
            w,
            h,
            bombs,
            before,
            p,
            q,
        ) {
            dug_value(w, h, bombs, q)
        } else {
            tile_of(before, w, q)
        })
}

/// How many of the first `n` cells do not yet show their dug value.
pub open spec fn undug_upto(w: int, h: int, bombs: Seq<Position>, tiles: Seq<Tile>, n: int) -> nat
    decreases n,
{
    if n <= 0 {
        0
    } else {
        undug_upto(w, h, bombs, tiles, n - 1) + (if tiles[n - 1] != dug_value(
            w,
            h,
            bombs,
            pos_of(w, n - 1),
        ) {
            1nat
        } else {
            0nat
        })
    }
}

/// Holds of flagged tiles.
pub open spec fn is_flag() -> spec_fn(Tile) -> bool {
    |t: Tile| t == Tile::Flag
}

/// Holds of the tiles that are not yet open: unopened or flagged.
pub open spec fn is_covered() -> spec_fn(Tile) -> bool {
    |t: Tile| t == Tile::Unopened || t == Tile::Flag
}

/// The number of flagged tiles.
pub open spec fn flags_in(tiles: Seq<Tile>) -> nat {
    tiles.filter(is_flag()).len()
}

/// The number of tiles that are not yet open.
pub open spec fn covered_in(tiles: Seq<Tile>) -> nat {
    tiles.filter(is_covered()).len()
}

} // verus!

verus! {

/// The position that the number `p` names on a board of width `w`.
pub open spec fn order_pos(w: int, p: u16) -> Position {
    ((p as int % w) as u16, (p as int / w) as u16)
}

/// Holds of the numbers whose position is outside the 3x3 area around
/// the selected cell `sel`.
pub open spec fn bomb_allowed(w: int, h: int, sel: Position) -> spec_fn(u16) -> bool {
    |p: u16|
        !in_3x3_area(
            w,
            h,
            p as int % w,
            p as int / w,
            sel.0 as int,
            sel.1 as int,
        )
}

/// The positions, in order, of the numbers of `order` that may take a bomb.
pub open spec fn bomb_candidates(w: int, h: int, sel: Position, order: Seq<u16>) -> Seq<Position> {
    order.filter(bomb_allowed(w, h, sel)).map_values(|p: u16| order_pos(w, p))
}

/// The bombs placed from `order`: the first `count` candidates, or all of
/// them when there are fewer.
pub open spec fn placed_bombs(w: int, h: int, sel: Position, count: int, order: Seq<u16>) -> Seq<
    Position,
> {
    let c = bomb_candidates(w, h, sel, order);
    if c.len() <= count {
        c
    } else {
        c.take(count)
    }
}

/// The numbers `0, 1, ..., n - 1` that name the cells of a board.
pub open spec fn cell_numbers(n: int) -> Seq<u16> {
    Seq::new(n as nat, |i: int| i as u16)
}

} // verus!

verus! {

/// `q` is flooded from one of the `roots`.
pub open spec fn floods_from(
    w: int,
    h: int,
    bombs: Seq<Position>,
    tiles: Seq<Tile>,
    roots: Seq<Position>,
    q: Position,
) -> bool {
    exists|j: int| 0 <= j < roots.len() && #[trigger] floods(w, h, bombs, tiles, roots[j], q)
}

/// `after` is `before` once every root has been dug: every cell that a
/// root floods shows its value, every other cell is as it was.
pub open spec fn is_flood_from(
    w: int,
    h: int,
    bombs: Seq<Position>,
    before: Seq<Tile>,
    after: Seq<Tile>,
    roots: Seq<Position>,
) -> bool {
    &&& after.len() == before.len()
    &&& forall|q: Position|
        in_board(w, h, q.0 as int, q.1 as int) ==> #[trigger] tile_of(after, w, q) == (if floods_from(
            w,
            h,
            bombs,
            before,
            roots,
            q,
        ) {
            dug_value(w, h, bombs, q)
        } else {
            tile_of(before, w, q)
        })
}

/// The neighbours that digging `(x, y)` goes on to dig: when no bomb is
/// around it, its unopened neighbours without a bomb, in reading order.
pub open spec fn dig_roots(
    w: int,
    h: int,
    bombs: Seq<Position>,
    tiles: Seq<Tile>,
    x: int,
    y: int,
) -> Seq<Position> {
    if bombs_around(w, h, bombs, x, y) == 0 {
        neighbours(w, h, x, y).filter(is_unopened_safe(bombs, tiles, w))
    } else {
        Seq::empty()
    }
}

/// The grid once the dug value of `(x, y)` is written at its cell index,
/// before any neighbour is dug.
pub open spec fn with_dug_cell(
    w: int,
    h: int,
    bombs: Seq<Position>,
    tiles: Seq<Tile>,
    x: int,
    y: int,
) -> Seq<Tile> {
    tiles.update(cell_index(w, x, y), dug_value(w, h, bombs, (x as u16, y as u16)))
}

} // verus!
