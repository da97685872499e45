//! Facts about the row-major layout, neighbourhoods and tile counts that
//! the board's proofs rest on.

use vstd::prelude::*;
use vstd::arithmetic::div_mod::lemma_fundamental_div_mod_converse;
use crate::board::{Position, Tile};
use crate::rules::{cell_index, in_board, neighbours_upto, pos_of};

verus! {

/// A position on the board has a cell index below `w * h`.
pub proof fn lemma_cell_index_bound(w: int, h: int, x: int, y: int)
    requires
        in_board(w, h, x, y),
    ensures
        0 <= cell_index(w, x, y) < w * h,
        y * w <= (h - 1) * w,
{
    assert(0 <= y * w <= (h - 1) * w) by (nonlinear_arith)
        requires
            0 <= y < h,
            0 < w,
    ;
    assert((h - 1) * w + w == w * h) by (nonlinear_arith);
}

/// The cell index of an on-board position names that position back.
pub proof fn lemma_pos_of_cell_index(w: int, h: int, x: int, y: int)
    requires
        in_board(w, h, x, y),
        w * h <= u16::MAX,
    ensures
        pos_of(w, cell_index(w, x, y)) == (x as u16, y as u16),
{
    lemma_fundamental_div_mod_converse(cell_index(w, x, y), w, y, x);
    lemma_cell_index_bound(w, h, x, y);
    assert(y <= w * h) by (nonlinear_arith)
        requires
            0 <= y < h,
            0 < w,
    ;
}

/// Every cell index below `w * h` names an on-board position with that index.
pub proof fn lemma_cell_index_of_pos(w: int, h: int, i: int)
    requires
        0 <= i < w * h,
        w * h <= u16::MAX,
        w >= 0,
        h >= 0,
    ensures
        w > 0,
        in_board(w, h, pos_of(w, i).0 as int, pos_of(w, i).1 as int),
        cell_index(w, pos_of(w, i).0 as int, pos_of(w, i).1 as int) == i,
{
    if w == 0 {
        assert(w * h == 0);
    }
    let q = i / w;
    let r = i % w;
    vstd::arithmetic::div_mod::lemma_fundamental_div_mod(i, w);
    vstd::arithmetic::div_mod::lemma_mod_pos_bound(i, w);
    vstd::arithmetic::div_mod::lemma_div_pos_is_pos(i, w);
    assert(q < h) by (nonlinear_arith)
        requires
            i == w * q + r,
            0 <= r < w,
            i < w * h,
            0 <= q,
    ;
    assert(q <= i) by (nonlinear_arith)
        requires
            i == w * q + r,
            0 <= r,
            0 <= q,
            w >= 1,
    ;
    assert(w * q == q * w) by (nonlinear_arith);
}

/// There are at most `c` cells among the first `c` of a block.
pub proof fn lemma_neighbours_upto_len(w: int, h: int, x: int, y: int, c: int)
    requires
        0 <= c,
    ensures
        neighbours_upto(w, h, x, y, c).len() <= c,
    decreases c,
{
    if c > 0 {
        lemma_neighbours_upto_len(w, h, x, y, c - 1);
    }
}

} // verus!
