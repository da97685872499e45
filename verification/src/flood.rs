//! Proofs about digging: a dig only ever writes dug values, the number of
//! cells that do not yet show their dug value only goes down, and the
//! cells that a recursive dig opens are exactly those that a chain of
//! flood steps reaches.

use vstd::prelude::*;
use crate::board::{Position, Tile};
use crate::lemmas::{lemma_cell_index_of_pos, lemma_pos_of_cell_index};
use crate::rules::{
    block_dx, block_dy, bombs_around, cell_index, dug_value, flood_path, flood_step, floods,
    floods_from, in_board, is_flood_from, is_flood_of, neighbours, neighbours_upto, path_link,
    pos_of, tile_of, undug_upto,
};

verus! {

/// Every cell of `after` is as in `before` or shows its dug value.
pub open spec fn only_digs(
    w: int,
    h: int,
    bombs: Seq<Position>,
    before: Seq<Tile>,
    after: Seq<Tile>,
) -> bool {
    &&& after.len() == before.len()
    &&& forall|i: int|
        0 <= i < before.len() ==> #[trigger] after[i] == before[i] || after[i] == dug_value(
            w,
            h,
            bombs,
            pos_of(w, i),
        )
}

/// `q` shows its dug value, and if no bomb is around it, none of its
/// neighbours without a bomb is still unopened.
pub open spec fn settled(w: int, h: int, bombs: Seq<Position>, tiles: Seq<Tile>, q: Position) -> bool {
    &&& tile_of(tiles, w, q) == dug_value(w, h, bombs, q)
    &&& bombs_around(w, h, bombs, q.0 as int, q.1 as int) == 0 ==> forall|r: Position|
        #[trigger] neighbours(w, h, q.0 as int, q.1 as int).contains(r) && !bombs.contains(r)
            ==> tile_of(tiles, w, r) != Tile::Unopened
}

/// Every cell that changed from `before` to `after`, and `p`, is settled.
pub open spec fn digs_closed(
    w: int,
    h: int,
    bombs: Seq<Position>,
    before: Seq<Tile>,
    after: Seq<Tile>,
    p: Position,
) -> bool {
    forall|q: Position|
        #![trigger tile_of(after, w, q)]
        in_board(w, h, q.0 as int, q.1 as int) && (tile_of(after, w, q) != tile_of(before, w, q)
            || q == p) ==> settled(w, h, bombs, after, q)
}

/// Every cell that changed from `before` to `after` is reached from `p`.
pub open spec fn digs_sound(
    w: int,
    h: int,
    bombs: Seq<Position>,
    before: Seq<Tile>,
    after: Seq<Tile>,
    p: Position,
) -> bool {
    forall|q: Position|
        #![trigger tile_of(after, w, q)]
        in_board(w, h, q.0 as int, q.1 as int) && tile_of(after, w, q) != tile_of(before, w, q)
            ==> floods(w, h, bombs, before, p, q)
}

/// Every cell that changed from `before` to `after` is settled.
pub open spec fn changed_settled(
    w: int,
    h: int,
    bombs: Seq<Position>,
    before: Seq<Tile>,
    after: Seq<Tile>,
) -> bool {
    forall|q: Position|
        #![trigger tile_of(after, w, q)]
        in_board(w, h, q.0 as int, q.1 as int) && tile_of(after, w, q) != tile_of(before, w, q)
            ==> settled(w, h, bombs, after, q)
}

/// Grid sizes that a board allows.
pub open spec fn grid_ok(w: int, h: int) -> bool {
    0 <= w && 0 <= h && w * h <= u16::MAX && w <= u16::MAX && h <= u16::MAX
}

/// The neighbours of a cell lie on the board and differ from it.
pub proof fn lemma_neighbours_on_board(w: int, h: int, x: int, y: int, c: int, r: Position)
    requires
        grid_ok(w, h),
        0 <= x <= u16::MAX,
        0 <= y <= u16::MAX,
        0 <= c <= 9,
        neighbours_upto(w, h, x, y, c).contains(r),
    ensures
        in_board(w, h, r.0 as int, r.1 as int),
        r != (x as u16, y as u16),
    decreases c,
{
    if c > 0 {
        let prev = neighbours_upto(w, h, x, y, c - 1);
        if prev.contains(r) {
            lemma_neighbours_on_board(w, h, x, y, c - 1, r);
        } else {
            let k = c - 1;
            assert(0 <= k < 9 && k != 4);
            assert(block_dx(k) != 0 || block_dy(k) != 0) by {
                if k < 3 {
                } else if k < 6 {
                    assert(k / 3 == 1);
                    assert(k % 3 != 1);
                } else {
                }
            }
        }
    }
}

/// A neighbour of a cell lies on the board and differs from it.
pub proof fn lemma_neighbour(w: int, h: int, x: int, y: int, r: Position)
    requires
        grid_ok(w, h),
        0 <= x <= u16::MAX,
        0 <= y <= u16::MAX,
        neighbours(w, h, x, y).contains(r),
    ensures
        in_board(w, h, r.0 as int, r.1 as int),
        r != (x as u16, y as u16),
{
    lemma_neighbours_on_board(w, h, x, y, 9, r);
}

/// Two on-board positions with the same cell index are equal.
pub proof fn lemma_cell_index_injective(w: int, h: int, p: Position, q: Position)
    requires
        grid_ok(w, h),
        in_board(w, h, p.0 as int, p.1 as int),
        in_board(w, h, q.0 as int, q.1 as int),
        cell_index(w, p.0 as int, p.1 as int) == cell_index(w, q.0 as int, q.1 as int),
    ensures
        p == q,
{
    lemma_pos_of_cell_index(w, h, p.0 as int, p.1 as int);
    lemma_pos_of_cell_index(w, h, q.0 as int, q.1 as int);
}

/// `only_digs` read at a position.
pub proof fn lemma_only_digs_at(
    w: int,
    h: int,
    bombs: Seq<Position>,
    t1: Seq<Tile>,
    t2: Seq<Tile>,
    q: Position,
)
    requires
        grid_ok(w, h),
        t1.len() == w * h,
        only_digs(w, h, bombs, t1, t2),
        in_board(w, h, q.0 as int, q.1 as int),
    ensures
        tile_of(t2, w, q) == tile_of(t1, w, q) || tile_of(t2, w, q) == dug_value(w, h, bombs, q),
{
    let i = cell_index(w, q.0 as int, q.1 as int);
    crate::lemmas::lemma_cell_index_bound(w, h, q.0 as int, q.1 as int);
    lemma_pos_of_cell_index(w, h, q.0 as int, q.1 as int);
    assert(t2[i] == t1[i] || t2[i] == dug_value(w, h, bombs, pos_of(w, i)));
}

/// `only_digs` is transitive.
pub proof fn lemma_only_digs_trans(
    w: int,
    h: int,
    bombs: Seq<Position>,
    t1: Seq<Tile>,
    t2: Seq<Tile>,
    t3: Seq<Tile>,
)
    requires
        only_digs(w, h, bombs, t1, t2),
        only_digs(w, h, bombs, t2, t3),
    ensures
        only_digs(w, h, bombs, t1, t3),
{
    assert forall|i: int| 0 <= i < t1.len() implies #[trigger] t3[i] == t1[i] || t3[i] == dug_value(
        w,
        h,
        bombs,
        pos_of(w, i),
    ) by {
        assert(t2[i] == t1[i] || t2[i] == dug_value(w, h, bombs, pos_of(w, i)));
    }
}

/// A settled cell stays settled while cells are only dug.
pub proof fn lemma_settled_persists(
    w: int,
    h: int,
    bombs: Seq<Position>,
    t1: Seq<Tile>,
    t2: Seq<Tile>,
    q: Position,
)
    requires
        grid_ok(w, h),
        t1.len() == w * h,
        only_digs(w, h, bombs, t1, t2),
        in_board(w, h, q.0 as int, q.1 as int),
        settled(w, h, bombs, t1, q),
    ensures
        settled(w, h, bombs, t2, q),
{
    lemma_only_digs_at(w, h, bombs, t1, t2, q);
    if bombs_around(w, h, bombs, q.0 as int, q.1 as int) == 0 {
        assert forall|r: Position|
            #[trigger] neighbours(w, h, q.0 as int, q.1 as int).contains(r) && !bombs.contains(
                r,
            ) implies tile_of(t2, w, r) != Tile::Unopened by {
            lemma_neighbour(w, h, q.0 as int, q.1 as int, r);
            lemma_only_digs_at(w, h, bombs, t1, t2, r);
        }
    }
}

/// Writing any value into cell `j` changes the undug count by what the
/// cell held and what it now holds.
pub proof fn lemma_undug_update_any(
    w: int,
    h: int,
    bombs: Seq<Position>,
    t: Seq<Tile>,
    j: int,
    v: Tile,
    n: int,
)
    requires
        0 <= j < t.len(),
        0 <= n <= t.len(),
    ensures
        undug_upto(w, h, bombs, t.update(j, v), n) == undug_upto(w, h, bombs, t, n) - (if j < n
            && t[j] != dug_value(w, h, bombs, pos_of(w, j)) {
            1int
        } else {
            0int
        }) + (if j < n && v != dug_value(w, h, bombs, pos_of(w, j)) {
            1int
        } else {
            0int
        }),
    decreases n,
{
    if n > 0 {
        lemma_undug_update_any(w, h, bombs, t, j, v, n - 1);
        if j == n - 1 {
            lemma_undug_unchanged_prefix(w, h, bombs, t, t.update(j, v), n - 1);
        }
    }
}

/// Sequences that agree on their first `n` cells have the same undug count there.
pub proof fn lemma_undug_unchanged_prefix(
    w: int,
    h: int,
    bombs: Seq<Position>,
    t1: Seq<Tile>,
    t2: Seq<Tile>,
    n: int,
)
    requires
        0 <= n <= t1.len(),
        n <= t2.len(),
        forall|i: int| 0 <= i < n ==> t1[i] == t2[i],
    ensures
        undug_upto(w, h, bombs, t1, n) == undug_upto(w, h, bombs, t2, n),
    decreases n,
{
    if n > 0 {
        lemma_undug_unchanged_prefix(w, h, bombs, t1, t2, n - 1);
    }
}

/// Digging never raises the undug count, and lowers it when some undug
/// cell gets dug.
pub proof fn lemma_undug_mono(
    w: int,
    h: int,
    bombs: Seq<Position>,
    t1: Seq<Tile>,
    t2: Seq<Tile>,
    n: int,
    j: int,
)
    requires
        only_digs(w, h, bombs, t1, t2),
        0 <= n <= t1.len(),
    ensures
        undug_upto(w, h, bombs, t2, n) <= undug_upto(w, h, bombs, t1, n),
        0 <= j < n && t1[j] != dug_value(w, h, bombs, pos_of(w, j)) && t2[j] == dug_value(
            w,
            h,
            bombs,
            pos_of(w, j),
        ) ==> undug_upto(w, h, bombs, t2, n) < undug_upto(w, h, bombs, t1, n),
    decreases n,
{
    if n > 0 {
        lemma_undug_mono(w, h, bombs, t1, t2, n - 1, j);
        assert(t2[n - 1] == t1[n - 1] || t2[n - 1] == dug_value(w, h, bombs, pos_of(w, n - 1)));
    }
}

/// A path that consists of `p` alone shows that `p` floods itself.
pub proof fn lemma_floods_self(
    w: int,
    h: int,
    bombs: Seq<Position>,
    tiles: Seq<Tile>,
    p: Position,
)
    ensures
        floods(w, h, bombs, tiles, p, p),
{
    let path = seq![p];
    assert(flood_path(w, h, bombs, tiles, path));
}

/// If `p` steps to `t` in `t0`, and `t` floods `q` in a later grid `t1`
/// in which only digs happened, then `p` floods `q` in `t0`.
pub proof fn lemma_floods_lift(
    w: int,
    h: int,
    bombs: Seq<Position>,
    t0: Seq<Tile>,
    t1: Seq<Tile>,
    p: Position,
    t: Position,
    q: Position,
)
    requires
        grid_ok(w, h),
        t0.len() == w * h,
        only_digs(w, h, bombs, t0, t1),
        flood_step(w, h, bombs, t0, p, t),
        floods(w, h, bombs, t1, t, q),
    ensures
        floods(w, h, bombs, t0, p, q),
{
    let path = choose|path: Seq<Position>|
        #[trigger] flood_path(w, h, bombs, t1, path) && path[0] == t && path.last() == q;
    let np = seq![p] + path;
    assert forall|i: int| 0 <= i < np.len() - 1 implies #[trigger] path_link(
        w,
        h,
        bombs,
        t0,
        np,
        i,
    ) by {
        if i > 0 {
            assert(path_link(w, h, bombs, t1, path, i - 1));
            let a = path[i - 1];
            let b = path[i];
            assert(np[i] == a && np[i + 1] == b);
            lemma_neighbour(w, h, a.0 as int, a.1 as int, b);
            lemma_only_digs_at(w, h, bombs, t0, t1, b);
        }
    }
    assert(flood_path(w, h, bombs, t0, np));
    assert(np[0] == p && np.last() == q);
}

/// A flood in a later grid, in which only digs happened, is a flood in the
/// earlier one: a cell unopened later was unopened before.
pub proof fn lemma_floods_earlier(
    w: int,
    h: int,
    bombs: Seq<Position>,
    t0: Seq<Tile>,
    t1: Seq<Tile>,
    a: Position,
    q: Position,
)
    requires
        grid_ok(w, h),
        t0.len() == w * h,
        only_digs(w, h, bombs, t0, t1),
        floods(w, h, bombs, t1, a, q),
    ensures
        floods(w, h, bombs, t0, a, q),
{
    let path = choose|path: Seq<Position>|
        #[trigger] flood_path(w, h, bombs, t1, path) && path[0] == a && path.last() == q;
    assert forall|i: int| 0 <= i < path.len() - 1 implies #[trigger] path_link(
        w,
        h,
        bombs,
        t0,
        path,
        i,
    ) by {
        assert(path_link(w, h, bombs, t1, path, i));
        let b = path[i + 1];
        lemma_neighbour(w, h, path[i].0 as int, path[i].1 as int, b);
        lemma_only_digs_at(w, h, bombs, t0, t1, b);
    }
    assert(flood_path(w, h, bombs, t0, path));
}

/// When only digs happened, every changed cell is settled, and the root
/// of a flood path is settled, so is every cell on the path.
pub proof fn lemma_flood_complete_from_root(
    w: int,
    h: int,
    bombs: Seq<Position>,
    t0: Seq<Tile>,
    t1: Seq<Tile>,
    path: Seq<Position>,
    k: int,
)
    requires
        grid_ok(w, h),
        t0.len() == w * h,
        only_digs(w, h, bombs, t0, t1),
        changed_settled(w, h, bombs, t0, t1),
        flood_path(w, h, bombs, t0, path),
        in_board(w, h, path[0].0 as int, path[0].1 as int),
        settled(w, h, bombs, t1, path[0]),
        0 <= k < path.len(),
    ensures
        in_board(w, h, path[k].0 as int, path[k].1 as int),
        settled(w, h, bombs, t1, path[k]),
    decreases k,
{
    if k > 0 {
        lemma_flood_complete_from_root(w, h, bombs, t0, t1, path, k - 1);
        assert(path_link(w, h, bombs, t0, path, k - 1));
        let a = path[k - 1];
        let b = path[k];
        lemma_neighbour(w, h, a.0 as int, a.1 as int, b);
        assert(tile_of(t1, w, b) != Tile::Unopened);
        assert(tile_of(t1, w, b) == tile_of(t1, w, b));
    }
}

/// The facts that digging from some roots establishes pin down its result.
pub proof fn lemma_flood_from_result(
    w: int,
    h: int,
    bombs: Seq<Position>,
    t0: Seq<Tile>,
    t1: Seq<Tile>,
    roots: Seq<Position>,
)
    requires
        grid_ok(w, h),
        t0.len() == w * h,
        only_digs(w, h, bombs, t0, t1),
        changed_settled(w, h, bombs, t0, t1),
        forall|j: int|
            0 <= j < roots.len() ==> in_board(w, h, roots[j].0 as int, roots[j].1 as int)
                && #[trigger] settled(w, h, bombs, t1, roots[j]),
        forall|q: Position|
            #![trigger tile_of(t1, w, q)]
            in_board(w, h, q.0 as int, q.1 as int) && tile_of(t1, w, q) != tile_of(t0, w, q)
                ==> floods_from(w, h, bombs, t0, roots, q),
    ensures
        is_flood_from(w, h, bombs, t0, t1, roots),
{
    assert forall|q: Position| in_board(w, h, q.0 as int, q.1 as int) implies #[trigger] tile_of(
        t1,
        w,
        q,
    ) == (if floods_from(w, h, bombs, t0, roots, q) {
        dug_value(w, h, bombs, q)
    } else {
        tile_of(t0, w, q)
    }) by {
        if floods_from(w, h, bombs, t0, roots, q) {
            let j = choose|j: int|
                0 <= j < roots.len() && #[trigger] floods(w, h, bombs, t0, roots[j], q);
            let path = choose|path: Seq<Position>|
                #[trigger] flood_path(w, h, bombs, t0, path) && path[0] == roots[j] && path.last()
                    == q;
            assert(settled(w, h, bombs, t1, roots[j]));
            lemma_flood_complete_from_root(w, h, bombs, t0, t1, path, path.len() - 1);
        }
    }
}

/// When only digs happened, every changed cell and `p` are settled, and
/// `p` lies on the board, every cell that `p` floods is settled.
pub proof fn lemma_flood_complete(
    w: int,
    h: int,
    bombs: Seq<Position>,
    t0: Seq<Tile>,
    t1: Seq<Tile>,
    p: Position,
    path: Seq<Position>,
    k: int,
)
    requires
        grid_ok(w, h),
        t0.len() == w * h,
        in_board(w, h, p.0 as int, p.1 as int),
        only_digs(w, h, bombs, t0, t1),
        digs_closed(w, h, bombs, t0, t1, p),
        flood_path(w, h, bombs, t0, path),
        path[0] == p,
        0 <= k < path.len(),
    ensures
        in_board(w, h, path[k].0 as int, path[k].1 as int),
        settled(w, h, bombs, t1, path[k]),
    decreases k,
{
    if k == 0 {
        assert(tile_of(t1, w, p) == tile_of(t1, w, p));
    } else {
        lemma_flood_complete(w, h, bombs, t0, t1, p, path, k - 1);
        assert(path_link(w, h, bombs, t0, path, k - 1));
        let a = path[k - 1];
        let b = path[k];
        lemma_neighbour(w, h, a.0 as int, a.1 as int, b);
        assert(tile_of(t1, w, b) != Tile::Unopened);
        assert(tile_of(t1, w, b) == tile_of(t1, w, b));
    }
}

/// The local facts that a dig establishes pin down its result.
pub proof fn lemma_flood_result(
    w: int,
    h: int,
    bombs: Seq<Position>,
    t0: Seq<Tile>,
    t1: Seq<Tile>,
    p: Position,
)
    requires
        grid_ok(w, h),
        t0.len() == w * h,
        in_board(w, h, p.0 as int, p.1 as int),
        only_digs(w, h, bombs, t0, t1),
        digs_closed(w, h, bombs, t0, t1, p),
        digs_sound(w, h, bombs, t0, t1, p),
    ensures
        is_flood_of(w, h, bombs, t0, t1, p),
{
    assert forall|q: Position| in_board(w, h, q.0 as int, q.1 as int) implies #[trigger] tile_of(
        t1,
        w,
        q,
    ) == (if floods(w, h, bombs, t0, p, q) {
        dug_value(w, h, bombs, q)
    } else {
        tile_of(t0, w, q)
    }) by {
        if floods(w, h, bombs, t0, p, q) {
            let path = choose|path: Seq<Position>|
                #[trigger] flood_path(w, h, bombs, t0, path) && path[0] == p && path.last() == q;
            lemma_flood_complete(w, h, bombs, t0, t1, p, path, path.len() - 1);
        }
    }
}

} // verus!
