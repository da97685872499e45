//! Facts about the candidates for bombs that a shuffled order offers.

use vstd::prelude::*;
use crate::board::Position;
use crate::rules::{bomb_allowed, bomb_candidates, order_pos, placed_bombs};

verus! {

/// Offering one more number adds its position when it may take a bomb.
pub proof fn lemma_candidates_push(w: int, h: int, sel: Position, s: Seq<u16>, p: u16)
    ensures
        bomb_candidates(w, h, sel, s.push(p)) == if bomb_allowed(w, h, sel)(p) {
            bomb_candidates(w, h, sel, s).push(order_pos(w, p))
        } else {
            bomb_candidates(w, h, sel, s)
        },
{
    let f = bomb_allowed(w, h, sel);
    s.lemma_filter_push(p, f);
    if f(p) {
        assert(s.filter(f).push(p).map_values(|q: u16| order_pos(w, q)) =~= s.filter(f).map_values(
            |q: u16| order_pos(w, q),
        ).push(order_pos(w, p)));
    }
}

/// The candidates of a concatenation are those of its parts.
pub proof fn lemma_candidates_add(w: int, h: int, sel: Position, a: Seq<u16>, b: Seq<u16>)
    ensures
        bomb_candidates(w, h, sel, a + b) == bomb_candidates(w, h, sel, a) + bomb_candidates(
            w,
            h,
            sel,
            b,
        ),
{
    let f = bomb_allowed(w, h, sel);
    Seq::filter_distributes_over_add(a, b, f);
    assert((a.filter(f) + b.filter(f)).map_values(|q: u16| order_pos(w, q)) =~= a.filter(
        f,
    ).map_values(|q: u16| order_pos(w, q)) + b.filter(f).map_values(|q: u16| order_pos(w, q)));
}

/// Once `count` bombs have been found among the first `i` numbers, they
/// are the bombs that the whole order places.
pub proof fn lemma_placed_prefix(w: int, h: int, sel: Position, count: int, order: Seq<u16>, i: int)
    requires
        0 <= i <= order.len(),
        0 <= count,
        bomb_candidates(w, h, sel, order.take(i)).len() == count || i == order.len(),
        bomb_candidates(w, h, sel, order.take(i)).len() <= count,
    ensures
        placed_bombs(w, h, sel, count, order) == bomb_candidates(w, h, sel, order.take(i)),
{
    assert(order =~= order.take(i) + order.skip(i));
    lemma_candidates_add(w, h, sel, order.take(i), order.skip(i));
    let a = bomb_candidates(w, h, sel, order.take(i));
    let b = bomb_candidates(w, h, sel, order.skip(i));
    if i == order.len() {
        assert(order.skip(i) =~= Seq::<u16>::empty());
        assert(order.skip(i).filter(bomb_allowed(w, h, sel)) =~= Seq::<u16>::empty()) by {
            reveal(Seq::filter);
        }
        assert(b =~= Seq::<Position>::empty());
        assert(a + b =~= a);
    } else {
        assert((a + b).take(count) =~= a);
        if (a + b).len() <= count {
            assert(b.len() == 0);
            assert(a + b =~= a);
        }
    }
}

} // verus!
