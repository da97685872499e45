//! The laws of the game: what every move keeps, what two moves undo, and
//! what a dig can and cannot do, each proved from the contracts of the
//! board's operations.

use vstd::prelude::*;
use crate::board::{Board, ExitType, Position, Tile};
use crate::screen::{cell_look, mines_left_of, Glyph};
use crate::flood::{grid_ok, lemma_cell_index_injective};
use crate::lemmas::{lemma_cell_index_bound, lemma_pos_of_cell_index};
use crate::rules::{
    bomb_allowed, bomb_candidates, cell_index, covered_in, dig_roots, dug_value, flags_in,
    flood_path, floods, floods_from, in_3x3_area, in_board, is_flag, is_unopened_safe,
    neighbours, order_pos, path_link, placed_bombs, tile_of, with_dug_cell,
};

verus! {

/// Changing one cell changes a filtered count by what leaves and what comes.
pub proof fn lemma_filter_len_update(s: Seq<Tile>, i: int, v: Tile, f: spec_fn(Tile) -> bool)
    requires
        0 <= i < s.len(),
    ensures
        s.update(i, v).filter(f).len() == s.filter(f).len() - (if f(s[i]) {
            1int
        } else {
            0int
        }) + (if f(v) {
            1int
        } else {
            0int
        }),
{
    let a = s.take(i);
    let b = s.skip(i + 1);
    assert(s =~= a + seq![s[i]] + b);
    assert(s.update(i, v) =~= a + seq![v] + b);
    Seq::filter_distributes_over_add(a + seq![s[i]], b, f);
    Seq::filter_distributes_over_add(a, seq![s[i]], f);
    Seq::filter_distributes_over_add(a + seq![v], b, f);
    Seq::filter_distributes_over_add(a, seq![v], f);
    reveal_with_fuel(Seq::filter, 2);
    assert(seq![s[i]].drop_last() =~= Seq::<Tile>::empty());
    assert(seq![v].drop_last() =~= Seq::<Tile>::empty());
}

/// Sequences that agree cell by cell on a predicate have as many cells
/// that satisfy it.
pub proof fn lemma_filter_len_pointwise(a: Seq<Tile>, b: Seq<Tile>, f: spec_fn(Tile) -> bool)
    requires
        a.len() == b.len(),
        forall|i: int| 0 <= i < a.len() ==> f(#[trigger] a[i]) == f(b[i]),
    ensures
        a.filter(f).len() == b.filter(f).len(),
    decreases a.len(),
{
    reveal(Seq::filter);
    if a.len() > 0 {
        assert forall|i: int| 0 <= i < a.drop_last().len() implies f(
            #[trigger] a.drop_last()[i],
        ) == f(b.drop_last()[i]) by {
            assert(a.drop_last()[i] == a[i] && b.drop_last()[i] == b[i]);
        }
        lemma_filter_len_pointwise(a.drop_last(), b.drop_last(), f);
        assert(f(a[a.len() - 1]) == f(b[b.len() - 1]));
    }
}

/// No bomb is placed in the 3x3 area around the selected cell.
pub proof fn law_no_bomb_near_selection(
    w: int,
    h: int,
    sel: Position,
    count: int,
    order: Seq<u16>,
)
    requires
        0 < w <= u16::MAX,
        0 <= count,
    ensures
        forall|i: int|
            0 <= i < placed_bombs(w, h, sel, count, order).len() ==> !in_3x3_area(
                w,
                h,
                #[trigger] placed_bombs(w, h, sel, count, order)[i].0 as int,
                placed_bombs(w, h, sel, count, order)[i].1 as int,
                sel.0 as int,
                sel.1 as int,
            ),
{
    let f = bomb_allowed(w, h, sel);
    let filtered = order.filter(f);
    let cands = bomb_candidates(w, h, sel, order);
    let placed = placed_bombs(w, h, sel, count, order);
    assert forall|i: int| 0 <= i < placed.len() implies !in_3x3_area(
        w,
        h,
        #[trigger] placed[i].0 as int,
        placed[i].1 as int,
        sel.0 as int,
        sel.1 as int,
    ) by {
        assert(placed[i] == cands[i]);
        order.lemma_filter_pred(f, i);
        let p = filtered[i];
        assert(cands[i] == order_pos(w, p));
        assert(0 <= p as int % w < w);
        assert(0 <= p as int / w <= p) by {
            vstd::arithmetic::div_mod::lemma_div_is_ordered_by_denominator(p as int, 1, w);
            vstd::arithmetic::div_mod::lemma_div_pos_is_pos(p as int, w);
        }
    }
}

/// Filtering keeps a sequence free of duplicates.
pub proof fn lemma_filter_no_duplicates(s: Seq<u16>, f: spec_fn(u16) -> bool)
    requires
        s.no_duplicates(),
    ensures
        s.filter(f).no_duplicates(),
    decreases s.len(),
{
    reveal(Seq::filter);
    if s.len() > 0 {
        let d = s.drop_last();
        assert(d.no_duplicates());
        lemma_filter_no_duplicates(d, f);
        if f(s.last()) {
            if d.filter(f).contains(s.last()) {
                d.lemma_filter_contains_rev(f, s.last());
                let j = choose|j: int| 0 <= j < d.len() && d[j] == s.last();
                assert(s[j] == s[s.len() - 1]);
            }
        }
    }
}

/// Reading numbers below `w * h` as positions names distinct cells.
pub proof fn lemma_order_pos_injective(w: int)
    requires
        0 < w <= u16::MAX,
    ensures
        vstd::relations::injective(|p: u16| order_pos(w, p)),
{
    assert forall|p1: u16, p2: u16| order_pos(w, p1) == order_pos(w, p2) implies p1 == p2 by {
        vstd::arithmetic::div_mod::lemma_fundamental_div_mod(p1 as int, w);
        vstd::arithmetic::div_mod::lemma_fundamental_div_mod(p2 as int, w);
        vstd::arithmetic::div_mod::lemma_div_pos_is_pos(p1 as int, w);
        vstd::arithmetic::div_mod::lemma_div_pos_is_pos(p2 as int, w);
        vstd::arithmetic::div_mod::lemma_div_is_ordered_by_denominator(p1 as int, 1, w);
        vstd::arithmetic::div_mod::lemma_div_is_ordered_by_denominator(p2 as int, 1, w);
        vstd::arithmetic::div_mod::lemma_mod_pos_bound(p1 as int, w);
        vstd::arithmetic::div_mod::lemma_mod_pos_bound(p2 as int, w);
    }
}

/// When the order is a shuffle of the cell numbers, the placed bombs lie
/// on the board, each on a different cell.
pub proof fn law_bombs_distinct_on_board(w: int, h: int, sel: Position, count: int, order: Seq<u16>)
    requires
        0 < w,
        grid_ok(w, h),
        0 <= count,
        order.to_multiset() == crate::rules::cell_numbers(w * h).to_multiset(),
    ensures
        placed_bombs(w, h, sel, count, order).no_duplicates(),
        forall|i: int|
            0 <= i < placed_bombs(w, h, sel, count, order).len() ==> in_board(
                w,
                h,
                #[trigger] placed_bombs(w, h, sel, count, order)[i].0 as int,
                placed_bombs(w, h, sel, count, order)[i].1 as int,
            ),
{
    let n = w * h;
    let cells = crate::rules::cell_numbers(n);
    let f = bomb_allowed(w, h, sel);
    let g = |p: u16| order_pos(w, p);
    assert(cells.no_duplicates());
    cells.lemma_multiset_has_no_duplicates();
    cells.to_multiset_ensures();
    order.to_multiset_ensures();
    order.lemma_multiset_has_no_duplicates_conv();
    lemma_filter_no_duplicates(order, f);
    lemma_order_pos_injective(w);
    order.filter(f).lemma_no_duplicates_injective(g);
    let cands = bomb_candidates(w, h, sel, order);
    let placed = placed_bombs(w, h, sel, count, order);
    assert(placed.no_duplicates()) by {
        if cands.len() > count {
            assert forall|i: int, j: int|
                0 <= i < placed.len() && 0 <= j < placed.len() && i != j implies placed[i]
                != placed[j] by {
                assert(placed[i] == cands[i] && placed[j] == cands[j]);
            }
        }
    }
    assert forall|i: int| 0 <= i < placed.len() implies in_board(
        w,
        h,
        #[trigger] placed[i].0 as int,
        placed[i].1 as int,
    ) by {
        assert(placed[i] == cands[i]);
        let p = order.filter(f)[i];
        assert(order.filter(f).contains(p));
        order.lemma_filter_contains_rev(f, p);
        assert(order.to_multiset().count(p) > 0);
        assert(cells.contains(p));
        let k = choose|k: int| 0 <= k < cells.len() && cells[k] == p;
        assert(p < n);
        vstd::arithmetic::div_mod::lemma_fundamental_div_mod(p as int, w);
        vstd::arithmetic::div_mod::lemma_div_pos_is_pos(p as int, w);
        vstd::arithmetic::div_mod::lemma_mod_pos_bound(p as int, w);
        vstd::arithmetic::div_mod::lemma_div_is_ordered_by_denominator(p as int, 1, w);
        let q = p as int / w;
        assert(q < h) by (nonlinear_arith)
            requires
                p as int == w * q + p as int % w,
                0 <= p as int % w,
                p < w * h,
                0 <= q,
                0 < w,
        ;
    }
}

/// A selection on the board stays on the board when it moves.
pub proof fn law_selection_stays_on_board(b0: Board, b1: Board, x: int, y: int)
    requires
        b0.on_board(b0.selected_cell.0 as int, b0.selected_cell.1 as int),
        b1.moved_from(&b0, x, y),
    ensures
        b1.on_board(b1.selected_cell.0 as int, b1.selected_cell.1 as int),
{
}

/// A move whose target cell is off the board leaves the selection where
/// it was; one whose target is on the board selects exactly that cell.
pub proof fn law_move_targets_only_board_cells(b0: Board, b1: Board, x: int, y: int)
    requires
        b1.moved_from(&b0, x, y),
    ensures
        !(0 <= b0.selected_cell.0 + x < b0.width && 0 <= b0.selected_cell.1 + y < b0.height)
            ==> b1.selected_cell == b0.selected_cell,
        (0 <= b0.selected_cell.0 + x < b0.width && 0 <= b0.selected_cell.1 + y < b0.height)
            ==> b1.selected_cell.0 == b0.selected_cell.0 + x && b1.selected_cell.1
            == b0.selected_cell.1 + y,
        b1.selected_cell.0 <= b0.selected_cell.0 + x || b1.selected_cell == b0.selected_cell,
{
}

/// Moving the selection from a cell of the board onto another and back
/// again returns it to where it was.
pub proof fn law_move_there_and_back(b0: Board, b1: Board, b2: Board, x: int, y: int)
    requires
        b1.moved_from(&b0, x, y),
        b2.moved_from(&b1, -x, -y),
        0 <= b0.selected_cell.0 + x < b0.width,
        0 <= b0.selected_cell.1 + y < b0.height,
        b0.on_board(b0.selected_cell.0 as int, b0.selected_cell.1 as int),
    ensures
        b2.selected_cell == b0.selected_cell,
{
    assert(b1.selected_cell.0 == b0.selected_cell.0 + x);
    assert(b1.selected_cell.1 == b0.selected_cell.1 + y);
}

/// A cell is drawn reversed exactly when it is still covered (unopened or
/// flagged) or shows a bomb after a loss; an opened cell never is.
pub proof fn law_reversed_exactly_when_covered(tile: Tile, bomb_here: bool, exit: Option<ExitType>)
    ensures
        cell_look(tile, bomb_here, exit).reversed == (tile == Tile::Unopened || tile == Tile::Flag
            || (exit == Some(ExitType::Lose) && bomb_here)),
        (tile == Tile::Blank || tile is Numbered) && !(exit == Some(ExitType::Lose) && bomb_here)
            ==> !cell_look(tile, bomb_here, exit).reversed,
        cell_look(tile, bomb_here, exit).crossed_out == (exit.is_some() && !bomb_here && tile
            == Tile::Flag),
        cell_look(tile, bomb_here, exit).glyph == Glyph::Bomb <==> (exit == Some(ExitType::Lose)
            && bomb_here && tile != Tile::Flag),
{
}

/// Opening a covered cell during play stops it being drawn reversed.
pub proof fn law_opening_a_cell_unreverses_it(before: Tile, after: Tile, bomb_here: bool)
    requires
        before == Tile::Unopened,
        after == Tile::Blank || after is Numbered,
    ensures
        cell_look(before, bomb_here, None).reversed,
        !cell_look(after, bomb_here, None).reversed,
        cell_look(before, bomb_here, None).fg == cell_look(Tile::Blank, bomb_here, None).fg,
{
}

/// The mines counter is the number of bombs less the number of flags,
/// and zero once there are at least as many flags as bombs.
pub proof fn law_mines_left_counts_down(bomb_count: u16, flag_count: usize)
    ensures
        flag_count <= bomb_count ==> mines_left_of(bomb_count, flag_count) + flag_count
            == bomb_count,
        flag_count >= bomb_count ==> mines_left_of(bomb_count, flag_count) == 0,
        mines_left_of(bomb_count, flag_count) <= bomb_count,
        flag_count == 0 ==> mines_left_of(bomb_count, flag_count) == bomb_count,
        flag_count < bomb_count ==> mines_left_of(bomb_count, (flag_count + 1) as usize) + 1
            == mines_left_of(bomb_count, flag_count),
{
}

/// Toggling a flag twice at the same cell gives back the board.
pub proof fn law_flag_twice(b0: Board, b1: Board, b2: Board)
    requires
        b0.wf(),
        b0.in_range(b0.selected_cell.0 as int, b0.selected_cell.1 as int),
        b1.flagged_from(&b0),
        b2.flagged_from(&b1),
    ensures
        b2.tiles@ == b0.tiles@,
        b2.flag_count == b0.flag_count,
        b2.bombs@ == b0.bombs@,
        b2.selected_cell == b0.selected_cell,
        b2.goes == b0.goes,
        b2.exit == b0.exit,
        b2.same_settings(&b0),
{
    let sel = b0.selected_cell;
    let i = cell_index(b0.width as int, sel.0 as int, sel.1 as int);
    assert(b1.selected_tile() == b1.tiles@[i]);
    assert(b0.selected_tile() == b0.tiles@[i]);
    if b0.selected_tile() == Tile::Unopened || b0.selected_tile() == Tile::Flag {
        assert(b2.tiles@ =~= b0.tiles@);
    }
}

/// A new board has no flags.
pub proof fn law_new_board_has_no_flags(b: Board)
    requires
        forall|i: int| 0 <= i < b.tiles@.len() ==> b.tiles@[i] == Tile::Unopened,
        b.flag_count == 0,
    ensures
        flags_in(b.tiles@) == b.flag_count,
{
    assert(b.tiles@.filter(is_flag()) =~= Seq::<Tile>::empty()) by {
        broadcast use Seq::lemma_filter_pred;

        if b.tiles@.filter(is_flag()).len() > 0 {
            b.tiles@.lemma_filter_pred(is_flag(), 0);
            let t = b.tiles@.filter(is_flag())[0];
            b.tiles@.lemma_filter_contains_rev(is_flag(), t);
        }
    }
}

/// Toggling a flag keeps the flag count equal to the number of flags.
pub proof fn law_flag_counts_flags(b0: Board, b1: Board)
    requires
        b0.wf(),
        b0.in_range(b0.selected_cell.0 as int, b0.selected_cell.1 as int),
        flags_in(b0.tiles@) == b0.flag_count,
        b1.flagged_from(&b0),
    ensures
        flags_in(b1.tiles@) == b1.flag_count,
{
    let sel = b0.selected_cell;
    let i = cell_index(b0.width as int, sel.0 as int, sel.1 as int);
    if b0.selected_tile() == Tile::Unopened {
        lemma_filter_len_update(b0.tiles@, i, Tile::Flag, is_flag());
    } else if b0.selected_tile() == Tile::Flag {
        lemma_filter_len_update(b0.tiles@, i, Tile::Unopened, is_flag());
    }
}

/// Digging never removes or adds a flag.
pub proof fn law_dig_keeps_flags(b0: Board, b1: Board)
    requires
        b0.wf(),
        b0.in_range(b0.selected_cell.0 as int, b0.selected_cell.1 as int),
        b1.dug_from(&b0),
    ensures
        b1.tiles@.len() == b0.tiles@.len(),
        forall|i: int| 0 <= i < b0.tiles@.len() ==> (#[trigger] b1.tiles@[i] == Tile::Flag) == (
        b0.tiles@[i] == Tile::Flag),
        flags_in(b1.tiles@) == flags_in(b0.tiles@),
{
    let w = b0.width as int;
    let h = b0.height as int;
    let sel = b0.selected_cell;
    let bombs = b1.bombs@;
    let pi = cell_index(w, sel.0 as int, sel.1 as int);
    if b0.selected_tile() == Tile::Unopened && !bombs.contains(sel) {
        let s1 = with_dug_cell(w, h, bombs, b0.tiles@, sel.0 as int, sel.1 as int);
        let roots = dig_roots(w, h, bombs, b0.tiles@, sel.0 as int, sel.1 as int);
        assert forall|i: int| 0 <= i < b0.tiles@.len() implies (#[trigger] b1.tiles@[i]
            == Tile::Flag) == (b0.tiles@[i] == Tile::Flag) by {
            crate::lemmas::lemma_cell_index_of_pos(w, h, i);
            let q = crate::rules::pos_of(w, i);
            assert(tile_of(b1.tiles@, w, q) == b1.tiles@[i]);
            assert(tile_of(s1, w, q) == s1[i]);
            if floods_from(w, h, bombs, s1, roots, q) {
                let j = choose|j: int|
                    0 <= j < roots.len() && #[trigger] floods(w, h, bombs, s1, roots[j], q);
                let path = choose|path: Seq<Position>|
                    #[trigger] flood_path(w, h, bombs, s1, path) && path[0] == roots[j]
                        && path.last() == q;
                if path.len() > 1 {
                    assert(path_link(w, h, bombs, s1, path, path.len() - 2));
                } else {
                    let nb = neighbours(w, h, sel.0 as int, sel.1 as int);
                    nb.lemma_filter_pred(is_unopened_safe(bombs, b0.tiles@, w), j);
                }
            }
        }
    }
    lemma_filter_len_pointwise(b0.tiles@, b1.tiles@, is_flag());
}

/// Digging keeps the flag count equal to the number of flags.
pub proof fn law_dig_counts_flags(b0: Board, b1: Board)
    requires
        b0.wf(),
        b0.in_range(b0.selected_cell.0 as int, b0.selected_cell.1 as int),
        flags_in(b0.tiles@) == b0.flag_count,
        b1.dug_from(&b0),
    ensures
        flags_in(b1.tiles@) == b1.flag_count,
{
    law_dig_keeps_flags(b0, b1);
}

/// After `set_tile`, reading the written cell gives the written tile and
/// every other cell reads as before.
pub proof fn law_read_after_write(b0: Board, b1: Board, x: int, y: int, t: Tile, x2: int, y2: int)
    requires
        b0.wf(),
        b0.on_board(x, y),
        b0.on_board(x2, y2),
        b1.same_but_tiles(&b0),
        b1.tiles@ == b0.tiles@.update(cell_index(b0.width as int, x, y), t),
    ensures
        b1.tile(x, y) == t,
        (x2, y2) != (x, y) ==> b1.tile(x2, y2) == b0.tile(x2, y2),
{
    let w = b0.width as int;
    let h = b0.height as int;
    lemma_cell_index_bound(w, h, x, y);
    lemma_cell_index_bound(w, h, x2, y2);
    if (x2, y2) != (x, y) && cell_index(w, x2, y2) == cell_index(w, x, y) {
        lemma_cell_index_injective(w, h, (x as u16, y as u16), (x2 as u16, y2 as u16));
    }
}

/// A dig that does not hit a bomb shows, at the selected cell, the number
/// of bombs around it.
pub proof fn law_dig_reveals_selection(b0: Board, b1: Board)
    requires
        b0.wf(),
        b0.on_board(b0.selected_cell.0 as int, b0.selected_cell.1 as int),
        b0.selected_tile() == Tile::Unopened,
        b1.dug_from(&b0),
        !b1.bombs@.contains(b0.selected_cell),
    ensures
        b1.selected_tile() == dug_value(
            b0.width as int,
            b0.height as int,
            b1.bombs@,
            b0.selected_cell,
        ),
        b1.exit != Some(ExitType::Lose) || b0.exit == Some(ExitType::Lose),
{
    let sel = b0.selected_cell;
    crate::flood::lemma_floods_self(b0.width as int, b0.height as int, b1.bombs@, b0.tiles@, sel);
    assert(tile_of(b1.tiles@, b0.width as int, sel) == tile_of(b1.tiles@, b0.width as int, sel));
}

/// A dig opens no cell that holds a bomb, but for a selected cell with a
/// bomb, which loses the game and opens nothing.
pub proof fn law_dig_opens_no_bomb(b0: Board, b1: Board, q: Position)
    requires
        b0.wf(),
        b0.on_board(b0.selected_cell.0 as int, b0.selected_cell.1 as int),
        b1.dug_from(&b0),
        b0.on_board(q.0 as int, q.1 as int),
        b1.tile(q.0 as int, q.1 as int) != b0.tile(q.0 as int, q.1 as int),
    ensures
        !b1.bombs@.contains(q),
        b1.exit != Some(ExitType::Lose) || b0.exit == Some(ExitType::Lose),
{
    let w = b0.width as int;
    let h = b0.height as int;
    let sel = b0.selected_cell;
    assert(tile_of(b1.tiles@, w, q) == b1.tile(q.0 as int, q.1 as int));
    assert(floods(w, h, b1.bombs@, b0.tiles@, sel, q));
    let path = choose|path: Seq<Position>|
        #[trigger] flood_path(w, h, b1.bombs@, b0.tiles@, path) && path[0] == sel && path.last()
            == q;
    if path.len() > 1 {
        assert(path_link(w, h, b1.bombs@, b0.tiles@, path, path.len() - 2));
    }
}

/// A win comes exactly when a dig leaves as many covered cells as bombs.
pub proof fn law_win_when_only_bombs_covered(b0: Board, b1: Board)
    requires
        b0.wf(),
        b0.in_range(b0.selected_cell.0 as int, b0.selected_cell.1 as int),
        b0.selected_tile() == Tile::Unopened,
        b0.exit == None::<ExitType>,
        b1.dug_from(&b0),
    ensures
        b1.exit == Some(ExitType::Win) <==> !b1.bombs@.contains(b0.selected_cell) && covered_in(
            b1.tiles@,
        ) == b1.bombs@.len(),
        b1.exit == Some(ExitType::Lose) <==> b1.bombs@.contains(b0.selected_cell),
{
}

} // verus!
