//! Per-account cart lines and their quantity accounting.
//!
//! The store owns every cart line between its creation and its deletion. Its
//! abstract state is the sequence of lines; `qty` reads it as a total map
//! from (account, product) to a quantity, where an absent line counts as
//! zero. The mutating operations are described by the spec-level transitions
//! `add_line`, `drop_line` and `clear_lines`, so that facts about sequences
//! of operations can be stated and proved once, over the transitions.
//!
//! Each exec operation takes the store by `&mut` and performs one atomic
//! read-modify-write. A caller that shares the store between concurrent
//! requests serialises them (the handlers hold one lock per operation), so
//! every interleaving of concurrent calls behaves as some serial order of
//! these transitions.

use vstd::prelude::*;

use crate::catalog::{cat_at, cat_has, cat_price, Catalog};
use crate::errors::CartError;
use crate::models::{CartItem, Product};

verus! {

/// How much line `l` contributes to the quantity of (`a`, `p`): its quantity
/// if it is the line of that account and product, otherwise nothing.
pub open spec fn line_qty(l: CartItem, a: i32, p: i32) -> int {
    if l.cart_id == a && l.product_id == p {
        l.quantity as int
    } else {
        0
    }
}

/// The quantity of product `p` in account `a`'s cart: the sum of the
/// matching lines' quantities, zero when no line matches.
pub open spec fn qty(s: Seq<CartItem>, a: i32, p: i32) -> int
    decreases s.len(),
{
    if s.len() == 0 {
        0
    } else {
        qty(s.drop_last(), a, p) + line_qty(s.last(), a, p)
    }
}

/// Whether some line for (`a`, `p`) is present.
pub open spec fn has_line(s: Seq<CartItem>, a: i32, p: i32) -> bool {
    exists|i: int| 0 <= i < s.len() && s[i].cart_id == a && s[i].product_id == p
}

/// Well-formed cart state: at most one line per (account, product) pair, and
/// a stored line always has a positive quantity — a line that would reach
/// zero is deleted, never kept at zero.
pub open spec fn lines_wf(s: Seq<CartItem>) -> bool {
    &&& forall|i: int, j: int|
        0 <= i < s.len() && 0 <= j < s.len() && i != j ==> !(s[i].cart_id == s[j].cart_id
            && s[i].product_id == s[j].product_id)
    &&& forall|i: int| 0 <= i < s.len() ==> 1 <= s[i].quantity
}

/// The index of the line for (`a`, `p`); meaningful only when
/// `has_line(s, a, p)` holds and `s` is well formed.
pub open spec fn line_index(s: Seq<CartItem>, a: i32, p: i32) -> int {
    choose|i: int| 0 <= i < s.len() && s[i].cart_id == a && s[i].product_id == p
}

/// The state after `add_item(a, p)`: one more unit on the existing line, or
/// a fresh line with one unit.
pub open spec fn add_line(s: Seq<CartItem>, a: i32, p: i32) -> Seq<CartItem> {
    if has_line(s, a, p) {
        let i = line_index(s, a, p);
        s.update(i, CartItem { cart_id: a, product_id: p, quantity: (s[i].quantity + 1) as i32 })
    } else {
        s.push(CartItem { cart_id: a, product_id: p, quantity: 1 })
    }
}

/// The state after `remove_item(a, p)` on a present line: the line is
/// deleted when it held one unit, otherwise one unit less. Absent line:
/// no change (the operation fails without writing).
pub open spec fn drop_line(s: Seq<CartItem>, a: i32, p: i32) -> Seq<CartItem> {
    if has_line(s, a, p) {
        let i = line_index(s, a, p);
        if s[i].quantity == 1 {
            s.remove(i)
        } else {
            s.update(
                i,
                CartItem { cart_id: a, product_id: p, quantity: (s[i].quantity - 1) as i32 },
            )
        }
    } else {
        s
    }
}

/// The state after clearing account `a`'s cart: every line of `a` is gone,
/// every other line stays, in order.
pub open spec fn clear_lines(s: Seq<CartItem>, a: i32) -> Seq<CartItem>
    decreases s.len(),
{
    if s.len() == 0 {
        Seq::empty()
    } else {
        let rest = clear_lines(s.drop_last(), a);
        if s.last().cart_id == a {
            rest
        } else {
            rest.push(s.last())
        }
    }
}

/// Account `a`'s lines, in stored order.
pub open spec fn lines_of(s: Seq<CartItem>, a: i32) -> Seq<CartItem>
    decreases s.len(),
{
    if s.len() == 0 {
        Seq::empty()
    } else {
        let rest = lines_of(s.drop_last(), a);
        if s.last().cart_id == a {
            rest.push(s.last())
        } else {
            rest
        }
    }
}

/// Every line of account `a` still resolves against the catalog.
pub open spec fn all_resolvable(s: Seq<CartItem>, cat: Seq<Product>, a: i32) -> bool {
    forall|i: int|
        0 <= i < s.len() && s[i].cart_id == a ==> cat_has(cat, #[trigger] s[i].product_id)
}

/// How much line `l` contributes to the value of account `a`'s cart:
/// quantity times current unit price for a resolvable line of `a`, otherwise
/// nothing.
pub open spec fn line_total(cat: Seq<Product>, a: i32, l: CartItem) -> int {
    if l.cart_id == a && cat_has(cat, l.product_id) {
        (l.quantity as int) * (cat_price(cat, l.product_id) as int)
    } else {
        0
    }
}

/// The value of account `a`'s cart at the catalog's current prices: the sum
/// over `a`'s resolvable lines of quantity times current unit price, in
/// cents.
pub open spec fn cart_total(s: Seq<CartItem>, cat: Seq<Product>, a: i32) -> int
    decreases s.len(),
{
    if s.len() == 0 {
        0
    } else {
        cart_total(s.drop_last(), cat, a) + line_total(cat, a, s.last())
    }
}

/// The largest value one line can contribute to a total: the largest
/// quantity, `i32::MAX`, times the largest unit price, `u32::MAX`.
pub open spec fn line_total_max() -> int {
    9223372030412324865
}

// ---------------------------------------------------------------------------
// Facts about `qty` and the transitions.
// ---------------------------------------------------------------------------

/// A well-formed state stays well formed when its last line is dropped.
pub proof fn lemma_lines_wf_drop_last(s: Seq<CartItem>)
    requires
        lines_wf(s),
        s.len() > 0,
    ensures
        lines_wf(s.drop_last()),
{
    assert forall|i: int, j: int|
        0 <= i < s.drop_last().len() && 0 <= j < s.drop_last().len() && i != j implies !(
    s.drop_last()[i].cart_id == s.drop_last()[j].cart_id && s.drop_last()[i].product_id
        == s.drop_last()[j].product_id) by {
        assert(s.drop_last()[i] == s[i]);
        assert(s.drop_last()[j] == s[j]);
    }
    assert forall|i: int| 0 <= i < s.drop_last().len() implies 1 <= s.drop_last()[i].quantity by {
        assert(s.drop_last()[i] == s[i]);
    }
}

/// Where no line matches, the quantity is zero.
pub proof fn lemma_qty_no_match(s: Seq<CartItem>, a: i32, p: i32)
    requires
        forall|i: int| 0 <= i < s.len() ==> !(s[i].cart_id == a && s[i].product_id == p),
    ensures
        qty(s, a, p) == 0,
    decreases s.len(),
{
    if s.len() > 0 {
        assert forall|i: int|
            0 <= i < s.drop_last().len() implies !(s.drop_last()[i].cart_id == a
            && s.drop_last()[i].product_id == p) by {
            assert(s.drop_last()[i] == s[i]);
        }
        lemma_qty_no_match(s.drop_last(), a, p);
        assert(line_qty(s.last(), a, p) == 0);
    }
}

/// Under well-formedness, the quantity of (`a`, `p`) is the quantity on its
/// unique matching line.
pub proof fn lemma_qty_unique_match(s: Seq<CartItem>, a: i32, p: i32, i: int)
    requires
        lines_wf(s),
        0 <= i < s.len(),
        s[i].cart_id == a,
        s[i].product_id == p,
    ensures
        qty(s, a, p) == s[i].quantity,
    decreases s.len(),
{
    let last = s.len() - 1;
    if i == last {
        assert forall|j: int|
            0 <= j < s.drop_last().len() implies !(s.drop_last()[j].cart_id == a
            && s.drop_last()[j].product_id == p) by {
            assert(s.drop_last()[j] == s[j]);
        }
        lemma_qty_no_match(s.drop_last(), a, p);
    } else {
        lemma_lines_wf_drop_last(s);
        assert(s.drop_last()[i] == s[i]);
        lemma_qty_unique_match(s.drop_last(), a, p, i);
        assert(line_qty(s.last(), a, p) == 0);
    }
}

/// Under well-formedness, a line is present exactly when the quantity is
/// positive, and the quantity never exceeds `i32::MAX`.
pub proof fn lemma_qty_has_line(s: Seq<CartItem>, a: i32, p: i32)
    requires
        lines_wf(s),
    ensures
        has_line(s, a, p) <==> qty(s, a, p) >= 1,
        qty(s, a, p) <= i32::MAX,
        qty(s, a, p) >= 0,
{
    if has_line(s, a, p) {
        let i = choose|i: int| 0 <= i < s.len() && s[i].cart_id == a && s[i].product_id == p;
        lemma_qty_unique_match(s, a, p, i);
    } else {
        lemma_qty_no_match(s, a, p);
    }
}

/// Appending a line adds its contribution to every quantity.
pub proof fn lemma_qty_push(s: Seq<CartItem>, l: CartItem, a: i32, p: i32)
    ensures
        qty(s.push(l), a, p) == qty(s, a, p) + line_qty(l, a, p),
{
    assert(s.push(l).drop_last() =~= s);
    assert(s.push(l).last() == l);
}

/// Replacing position `i` exchanges the old line's contribution for the new
/// one's.
pub proof fn lemma_qty_update(s: Seq<CartItem>, i: int, l: CartItem, a: i32, p: i32)
    requires
        0 <= i < s.len(),
    ensures
        qty(s.update(i, l), a, p) == qty(s, a, p) - line_qty(s[i], a, p) + line_qty(l, a, p),
    decreases s.len(),
{
    let t = s.update(i, l);
    if i == s.len() - 1 {
        assert(t.drop_last() =~= s.drop_last());
        assert(t.last() == l);
    } else {
        assert(t.drop_last() =~= s.drop_last().update(i, l));
        assert(t.last() == s.last());
        lemma_qty_update(s.drop_last(), i, l, a, p);
    }
}

/// Deleting position `i` takes away exactly its contribution.
pub proof fn lemma_qty_remove(s: Seq<CartItem>, i: int, a: i32, p: i32)
    requires
        0 <= i < s.len(),
    ensures
        qty(s.remove(i), a, p) == qty(s, a, p) - line_qty(s[i], a, p),
    decreases s.len(),
{
    let t = s.remove(i);
    if i == s.len() - 1 {
        assert(t =~= s.drop_last());
    } else {
        assert(t.drop_last() =~= s.drop_last().remove(i));
        assert(t.last() == s.last());
        lemma_qty_remove(s.drop_last(), i, a, p);
    }
}

/// What `add_line` does: the chosen pair gains one unit, its line exists
/// afterwards, every other pair is untouched, and well-formedness is kept.
pub proof fn lemma_add_line(s: Seq<CartItem>, a: i32, p: i32)
    requires
        lines_wf(s),
        qty(s, a, p) < i32::MAX,
    ensures
        lines_wf(add_line(s, a, p)),
        qty(add_line(s, a, p), a, p) == qty(s, a, p) + 1,
        has_line(add_line(s, a, p), a, p),
        forall|a2: i32, p2: i32|
            !(a2 == a && p2 == p) ==> qty(add_line(s, a, p), a2, p2) == qty(s, a2, p2),
        forall|a2: i32, p2: i32|
            !(a2 == a && p2 == p) ==> has_line(add_line(s, a, p), a2, p2) == has_line(s, a2, p2),
{
    let t = add_line(s, a, p);
    if has_line(s, a, p) {
        let i = line_index(s, a, p);
        assert(0 <= i < s.len() && s[i].cart_id == a && s[i].product_id == p);
        lemma_qty_unique_match(s, a, p, i);
        let l2 = CartItem { cart_id: a, product_id: p, quantity: (s[i].quantity + 1) as i32 };
        assert(l2.quantity == s[i].quantity + 1);
        lemma_qty_update(s, i, l2, a, p);
        assert forall|x: int, y: int|
            0 <= x < t.len() && 0 <= y < t.len() && x != y implies !(t[x].cart_id == t[y].cart_id
            && t[x].product_id == t[y].product_id) by {
            assert(t[x].cart_id == s[x].cart_id && t[x].product_id == s[x].product_id);
            assert(t[y].cart_id == s[y].cart_id && t[y].product_id == s[y].product_id);
        }
        assert forall|x: int| 0 <= x < t.len() implies 1 <= t[x].quantity by {
            if x != i {
                assert(t[x] == s[x]);
            }
        }
        assert(t[i] == l2);
        assert(has_line(t, a, p));
        assert forall|a2: i32, p2: i32|
            !(a2 == a && p2 == p) implies qty(t, a2, p2) == qty(s, a2, p2) by {
            lemma_qty_update(s, i, l2, a2, p2);
            assert(line_qty(s[i], a2, p2) == 0);
            assert(line_qty(l2, a2, p2) == 0);
        }
        assert forall|a2: i32, p2: i32|
            !(a2 == a && p2 == p) implies has_line(t, a2, p2) == has_line(s, a2, p2) by {
            if has_line(s, a2, p2) {
                let j = choose|j: int|
                    0 <= j < s.len() && s[j].cart_id == a2 && s[j].product_id == p2;
                assert(t[j].cart_id == a2 && t[j].product_id == p2);
            }
            if has_line(t, a2, p2) {
                let j = choose|j: int|
                    0 <= j < t.len() && t[j].cart_id == a2 && t[j].product_id == p2;
                assert(s[j].cart_id == a2 && s[j].product_id == p2);
            }
        }
    } else {
        let l2 = CartItem { cart_id: a, product_id: p, quantity: 1 };
        lemma_qty_push(s, l2, a, p);
        assert forall|j: int|
            0 <= j < s.len() implies !(s[j].cart_id == a && s[j].product_id == p) by {
            assert(!has_line(s, a, p));
        }
        assert forall|x: int, y: int|
            0 <= x < t.len() && 0 <= y < t.len() && x != y implies !(t[x].cart_id == t[y].cart_id
            && t[x].product_id == t[y].product_id) by {
            if x < s.len() && y < s.len() {
                assert(t[x] == s[x] && t[y] == s[y]);
            } else if x < s.len() {
                assert(t[x] == s[x] && t[y] == l2);
            } else {
                assert(t[x] == l2 && t[y] == s[y]);
            }
        }
        assert forall|x: int| 0 <= x < t.len() implies 1 <= t[x].quantity by {
            if x < s.len() {
                assert(t[x] == s[x]);
            } else {
                assert(t[x] == l2);
            }
        }
        assert(t[s.len() as int] == l2);
        assert(has_line(t, a, p));
        assert forall|a2: i32, p2: i32|
            !(a2 == a && p2 == p) implies qty(t, a2, p2) == qty(s, a2, p2) by {
            lemma_qty_push(s, l2, a2, p2);
            assert(line_qty(l2, a2, p2) == 0);
        }
        assert forall|a2: i32, p2: i32|
            !(a2 == a && p2 == p) implies has_line(t, a2, p2) == has_line(s, a2, p2) by {
            if has_line(s, a2, p2) {
                let j = choose|j: int|
                    0 <= j < s.len() && s[j].cart_id == a2 && s[j].product_id == p2;
                assert(t[j].cart_id == a2 && t[j].product_id == p2);
            }
            if has_line(t, a2, p2) {
                let j = choose|j: int|
                    0 <= j < t.len() && t[j].cart_id == a2 && t[j].product_id == p2;
                assert(j < s.len());
                assert(s[j].cart_id == a2 && s[j].product_id == p2);
            }
        }
    }
}

/// What `drop_line` does on a present line: the chosen pair loses one unit,
/// the line disappears exactly when it held one unit, every other pair is
/// untouched, and well-formedness is kept.
pub proof fn lemma_drop_line(s: Seq<CartItem>, a: i32, p: i32)
    requires
        lines_wf(s),
        has_line(s, a, p),
    ensures
        lines_wf(drop_line(s, a, p)),
        qty(drop_line(s, a, p), a, p) == qty(s, a, p) - 1,
        has_line(drop_line(s, a, p), a, p) <==> qty(s, a, p) > 1,
        forall|a2: i32, p2: i32|
            !(a2 == a && p2 == p) ==> qty(drop_line(s, a, p), a2, p2) == qty(s, a2, p2),
        forall|a2: i32, p2: i32|
            !(a2 == a && p2 == p) ==> has_line(drop_line(s, a, p), a2, p2) == has_line(s, a2, p2),
{
    let t = drop_line(s, a, p);
    let i = line_index(s, a, p);
    assert(0 <= i < s.len() && s[i].cart_id == a && s[i].product_id == p);
    lemma_qty_unique_match(s, a, p, i);
    if s[i].quantity == 1 {
        lemma_qty_remove(s, i, a, p);
        assert forall|x: int, y: int|
            0 <= x < t.len() && 0 <= y < t.len() && x != y implies !(t[x].cart_id == t[y].cart_id
            && t[x].product_id == t[y].product_id) by {
            let x0 = if x < i {
                x
            } else {
                x + 1
            };
            let y0 = if y < i {
                y
            } else {
                y + 1
            };
            assert(t[x] == s[x0] && t[y] == s[y0]);
        }
        assert forall|x: int| 0 <= x < t.len() implies 1 <= t[x].quantity by {
            let x0 = if x < i {
                x
            } else {
                x + 1
            };
            assert(t[x] == s[x0]);
        }
        assert(!has_line(t, a, p)) by {
            if has_line(t, a, p) {
                let j = choose|j: int|
                    0 <= j < t.len() && t[j].cart_id == a && t[j].product_id == p;
                let j0 = if j < i {
                    j
                } else {
                    j + 1
                };
                assert(t[j] == s[j0]);
                assert(j0 != i);
                assert(!(s[j0].cart_id == s[i].cart_id && s[j0].product_id == s[i].product_id));
            }
        }
        assert forall|a2: i32, p2: i32|
            !(a2 == a && p2 == p) implies qty(t, a2, p2) == qty(s, a2, p2) by {
            lemma_qty_remove(s, i, a2, p2);
            assert(line_qty(s[i], a2, p2) == 0);
        }
        assert forall|a2: i32, p2: i32|
            !(a2 == a && p2 == p) implies has_line(t, a2, p2) == has_line(s, a2, p2) by {
            if has_line(s, a2, p2) {
                let j = choose|j: int|
                    0 <= j < s.len() && s[j].cart_id == a2 && s[j].product_id == p2;
                assert(j != i);
                let j1 = if j < i {
                    j
                } else {
                    j - 1
                };
                assert(t[j1] == s[j]);
                assert(has_line(t, a2, p2));
            }
            if has_line(t, a2, p2) {
                let j = choose|j: int|
                    0 <= j < t.len() && t[j].cart_id == a2 && t[j].product_id == p2;
                let j0 = if j < i {
                    j
                } else {
                    j + 1
                };
                assert(t[j] == s[j0]);
                assert(has_line(s, a2, p2));
            }
        }
    } else {
        let l2 = CartItem { cart_id: a, product_id: p, quantity: (s[i].quantity - 1) as i32 };
        assert(l2.quantity == s[i].quantity - 1);
        lemma_qty_update(s, i, l2, a, p);
        assert forall|x: int, y: int|
            0 <= x < t.len() && 0 <= y < t.len() && x != y implies !(t[x].cart_id == t[y].cart_id
            && t[x].product_id == t[y].product_id) by {
            assert(t[x].cart_id == s[x].cart_id && t[x].product_id == s[x].product_id);
            assert(t[y].cart_id == s[y].cart_id && t[y].product_id == s[y].product_id);
        }
        assert forall|x: int| 0 <= x < t.len() implies 1 <= t[x].quantity by {
            if x != i {
                assert(t[x] == s[x]);
            }
        }
        assert(t[i] == l2);
        assert(has_line(t, a, p));
        assert forall|a2: i32, p2: i32|
            !(a2 == a && p2 == p) implies qty(t, a2, p2) == qty(s, a2, p2) by {
            lemma_qty_update(s, i, l2, a2, p2);
            assert(line_qty(s[i], a2, p2) == 0);
            assert(line_qty(l2, a2, p2) == 0);
        }
        assert forall|a2: i32, p2: i32|
            !(a2 == a && p2 == p) implies has_line(t, a2, p2) == has_line(s, a2, p2) by {
            if has_line(s, a2, p2) {
                let j = choose|j: int|
                    0 <= j < s.len() && s[j].cart_id == a2 && s[j].product_id == p2;
                assert(t[j].cart_id == a2 && t[j].product_id == p2);
            }
            if has_line(t, a2, p2) {
                let j = choose|j: int|
                    0 <= j < t.len() && t[j].cart_id == a2 && t[j].product_id == p2;
                assert(s[j].cart_id == a2 && s[j].product_id == p2);
            }
        }
    }
}

/// What `clear_lines` does: account `a` keeps no line, every other account's
/// quantities and lines are untouched, and well-formedness is kept.
pub proof fn lemma_clear_lines(s: Seq<CartItem>, a: i32)
    requires
        lines_wf(s),
    ensures
        lines_wf(clear_lines(s, a)),
        forall|j: int| 0 <= j < clear_lines(s, a).len() ==> clear_lines(s, a)[j].cart_id != a,
        forall|p: i32| !(#[trigger] has_line(clear_lines(s, a), a, p)),
        forall|p: i32| #[trigger] qty(clear_lines(s, a), a, p) == 0,
        forall|a2: i32, p2: i32|
            a2 != a ==> qty(clear_lines(s, a), a2, p2) == qty(s, a2, p2),
        forall|a2: i32, p2: i32|
            a2 != a ==> has_line(clear_lines(s, a), a2, p2) == has_line(s, a2, p2),
        clear_lines(s, a).len() <= s.len(),
    decreases s.len(),
{
    let t = clear_lines(s, a);
    if s.len() == 0 {
        assert forall|p: i32| !(#[trigger] has_line(t, a, p)) by {}
        assert forall|a2: i32, p2: i32|
            a2 != a implies has_line(t, a2, p2) == has_line(s, a2, p2) by {}
    } else {
        lemma_lines_wf_drop_last(s);
        lemma_clear_lines(s.drop_last(), a);
        let r = clear_lines(s.drop_last(), a);
        let l = s.last();
        if l.cart_id == a {
            assert(t == r);
            assert forall|a2: i32, p2: i32|
                a2 != a implies qty(t, a2, p2) == qty(s, a2, p2) by {
                assert(qty(s, a2, p2) == qty(s.drop_last(), a2, p2) + line_qty(l, a2, p2));
                assert(line_qty(l, a2, p2) == 0);
            }
            assert forall|a2: i32, p2: i32|
                a2 != a implies has_line(t, a2, p2) == has_line(s, a2, p2) by {
                if has_line(s, a2, p2) {
                    let j = choose|j: int|
                        0 <= j < s.len() && s[j].cart_id == a2 && s[j].product_id == p2;
                    assert(j < s.len() - 1);
                    assert(s.drop_last()[j] == s[j]);
                    assert(has_line(s.drop_last(), a2, p2));
                }
                if has_line(s.drop_last(), a2, p2) {
                    let j = choose|j: int|
                        0 <= j < s.drop_last().len() && s.drop_last()[j].cart_id == a2
                            && s.drop_last()[j].product_id == p2;
                    assert(s[j] == s.drop_last()[j]);
                    assert(has_line(s, a2, p2));
                }
            }
        } else {
            assert(t == r.push(l));
            // The pushed line's pair is fresh in `r`.
            assert(!has_line(r, l.cart_id, l.product_id)) by {
                if has_line(r, l.cart_id, l.product_id) {
                    assert(has_line(s.drop_last(), l.cart_id, l.product_id));
                    let j = choose|j: int|
                        0 <= j < s.drop_last().len() && s.drop_last()[j].cart_id == l.cart_id
                            && s.drop_last()[j].product_id == l.product_id;
                    assert(s[j] == s.drop_last()[j]);
                    assert(j != s.len() - 1);
                    assert(!(s[j].cart_id == l.cart_id && s[j].product_id == l.product_id));
                }
            }
            assert forall|x: int, y: int|
                0 <= x < t.len() && 0 <= y < t.len() && x != y implies !(t[x].cart_id
                == t[y].cart_id && t[x].product_id == t[y].product_id) by {
                if x < r.len() && y < r.len() {
                    assert(t[x] == r[x] && t[y] == r[y]);
                } else if x < r.len() {
                    assert(t[x] == r[x] && t[y] == l);
                    assert(!(r[x].cart_id == l.cart_id && r[x].product_id == l.product_id));
                } else {
                    assert(t[x] == l && t[y] == r[y]);
                    assert(!(r[y].cart_id == l.cart_id && r[y].product_id == l.product_id));
                }
            }
            assert forall|x: int| 0 <= x < t.len() implies 1 <= t[x].quantity by {
                if x < r.len() {
                    assert(t[x] == r[x]);
                } else {
                    assert(t[x] == l);
                    assert(1 <= l.quantity);
                }
            }
            assert forall|j: int| 0 <= j < t.len() implies t[j].cart_id != a by {
                if j < r.len() {
                    assert(t[j] == r[j]);
                } else {
                    assert(t[j] == l);
                }
            }
            assert forall|p: i32| !(#[trigger] has_line(t, a, p)) by {
                if has_line(t, a, p) {
                    let j = choose|j: int|
                        0 <= j < t.len() && t[j].cart_id == a && t[j].product_id == p;
                    assert(t[j].cart_id != a);
                }
            }
            assert forall|p: i32| #[trigger] qty(t, a, p) == 0 by {
                assert forall|j: int|
                    0 <= j < t.len() implies !(t[j].cart_id == a && t[j].product_id == p) by {
                    assert(t[j].cart_id != a);
                }
                lemma_qty_no_match(t, a, p);
            }
            assert forall|a2: i32, p2: i32|
                a2 != a implies qty(t, a2, p2) == qty(s, a2, p2) by {
                lemma_qty_push(r, l, a2, p2);
                assert(qty(s, a2, p2) == qty(s.drop_last(), a2, p2) + line_qty(l, a2, p2));
            }
            assert forall|a2: i32, p2: i32|
                a2 != a implies has_line(t, a2, p2) == has_line(s, a2, p2) by {
                if has_line(t, a2, p2) {
                    let j = choose|j: int|
                        0 <= j < t.len() && t[j].cart_id == a2 && t[j].product_id == p2;
                    if j < r.len() {
                        assert(t[j] == r[j]);
                        assert(has_line(r, a2, p2));
                        assert(has_line(s.drop_last(), a2, p2));
                        let k = choose|k: int|
                            0 <= k < s.drop_last().len() && s.drop_last()[k].cart_id == a2
                                && s.drop_last()[k].product_id == p2;
                        assert(s[k] == s.drop_last()[k]);
                        assert(has_line(s, a2, p2));
                    } else {
                        assert(t[j] == l);
                        assert(s[s.len() - 1] == l);
                        assert(has_line(s, a2, p2));
                    }
                }
                if has_line(s, a2, p2) {
                    let j = choose|j: int|
                        0 <= j < s.len() && s[j].cart_id == a2 && s[j].product_id == p2;
                    if j == s.len() - 1 {
                        assert(t[t.len() - 1] == l);
                        assert(has_line(t, a2, p2));
                    } else {
                        assert(s.drop_last()[j] == s[j]);
                        assert(has_line(s.drop_last(), a2, p2));
                        assert(has_line(r, a2, p2));
                        let k = choose|k: int|
                            0 <= k < r.len() && r[k].cart_id == a2 && r[k].product_id == p2;
                        assert(t[k] == r[k]);
                        assert(has_line(t, a2, p2));
                    }
                }
            }
        }
    }
}

/// A cart total is never negative and never larger than one maximal line per
/// stored line.
pub proof fn lemma_cart_total_bounds(s: Seq<CartItem>, cat: Seq<Product>, a: i32)
    requires
        lines_wf(s),
    ensures
        0 <= cart_total(s, cat, a),
        cart_total(s, cat, a) <= s.len() * line_total_max(),
    decreases s.len(),
{
    if s.len() == 0 {
    } else {
        lemma_lines_wf_drop_last(s);
        lemma_cart_total_bounds(s.drop_last(), cat, a);
        assert(s.drop_last().len() == s.len() - 1);
        let l = s.last();
        if l.cart_id == a && cat_has(cat, l.product_id) {
            let q = l.quantity as int;
            let c = cat_price(cat, l.product_id) as int;
            assert(1 <= q <= i32::MAX);
            assert(0 <= c <= u32::MAX);
            assert(0 <= q * c <= 9223372030412324865) by (nonlinear_arith)
                requires
                    1 <= q <= 2147483647,
                    0 <= c <= 4294967295,
            ;
        }
        assert(cart_total(s, cat, a) <= (s.len() - 1) * line_total_max() + line_total_max());
        assert((s.len() - 1) * line_total_max() + line_total_max() == s.len() * line_total_max());
    }
}

// ---------------------------------------------------------------------------
// The store.
// ---------------------------------------------------------------------------

/// The cart store: the mutable per-account cart state of the shop.
pub struct CartStore {
    lines: Vec<CartItem>,
}

impl View for CartStore {
    type V = Seq<CartItem>;

    closed spec fn view(&self) -> Seq<CartItem> {
        self.lines@
    }
}

impl CartStore {
    /// The store's invariant: see `lines_wf`.
    pub open spec fn wf(&self) -> bool {
        lines_wf(self@)
    }

    /// An empty store: nobody has a cart line.
    pub fn new() -> (s: CartStore)
        ensures
            s.wf(),
            s@ == Seq::<CartItem>::empty(),
    {
        CartStore { lines: Vec::new() }
    }

    /// The quantity of `product_id` in `account`'s cart; zero when the cart
    /// holds no such line.
    pub fn quantity(&self, account: i32, product_id: i32) -> (q: i32)
        requires
            self.wf(),
        ensures
            q == qty(self@, account, product_id),
            q >= 0,
    {
        let n = self.lines.len();
        let mut i: usize = 0;
        while i < n
            invariant
                0 <= i <= n,
                n == self@.len(),
                self.wf(),
                forall|j: int|
                    0 <= j < i ==> !(self@[j].cart_id == account && self@[j].product_id
                        == product_id),
            decreases n - i,
        {
            let l = self.lines[i];
            if l.cart_id == account && l.product_id == product_id {
                proof {
                    lemma_qty_unique_match(self@, account, product_id, i as int);
                }
                return l.quantity;
            }
            i = i + 1;
        }
        proof {
            lemma_qty_no_match(self@, account, product_id);
        }
        0
    }

    /// Adds one unit of `product_id` to the authenticated account's cart:
    /// one more unit on the existing line, or a fresh line with one unit.
    /// The product is validated against the catalog before anything is
    /// written. Returns the resulting quantity of that line.
    ///
    /// Fails with `Unauthenticated` for an anonymous caller and with
    /// `ProductNotFound` for a product the catalog does not hold; a failed
    /// call writes nothing.
    pub fn add_item(&mut self, account: Option<i32>, product_id: i32, catalog: &Catalog) -> (r:
        Result<i32, CartError>)
        requires
            old(self).wf(),
            catalog.wf(),
            account matches Some(a) ==> qty(old(self)@, a, product_id) < i32::MAX,
        ensures
            final(self).wf(),
            r is Ok <==> (account is Some && cat_has(catalog@, product_id)),
            match r {
                Ok(q) => account matches Some(a) && final(self)@ == add_line(
                    old(self)@,
                    a,
                    product_id,
                ) && q == qty(old(self)@, a, product_id) + 1 && q == qty(
                    final(self)@,
                    a,
                    product_id,
                ),
                Err(e) => final(self)@ == old(self)@ && (e == CartError::Unauthenticated
                    <==> account is None) && (e == CartError::Unauthenticated || e
                    == CartError::ProductNotFound),
            },
    {
        let a = match account {
            Some(a) => a,
            None => {
                return Err(CartError::Unauthenticated);
            },
        };
        if self.price_check(product_id, catalog) {
            let n = self.lines.len();
            let mut i: usize = 0;
            while i < n
                invariant
                    0 <= i <= n,
                    n == self@.len(),
                    *self == *old(self),
                    old(self).wf(),
                    account == Some(a),
                    cat_has(catalog@, product_id),
                    qty(old(self)@, a, product_id) < i32::MAX,
                    forall|j: int|
                        0 <= j < i ==> !(self@[j].cart_id == a && self@[j].product_id
                            == product_id),
                decreases n - i,
            {
                let l = self.lines[i];
                if l.cart_id == a && l.product_id == product_id {
                    proof {
                        lemma_line_index_unique(self@, a, product_id, i as int);
                        lemma_qty_unique_match(self@, a, product_id, i as int);
                        lemma_add_line(self@, a, product_id);
                    }
                    let q = l.quantity + 1;
                    self.lines.set(
                        i,
                        CartItem { cart_id: a, product_id, quantity: q },
                    );
                    proof {
                        assert(self@ == add_line(old(self)@, a, product_id));
                    }
                    return Ok(q);
                }
                i = i + 1;
            }
            proof {
                assert(!has_line(self@, a, product_id)) by {
                    if has_line(self@, a, product_id) {
                        let j = choose|j: int|
                            0 <= j < self@.len() && self@[j].cart_id == a && self@[j].product_id
                                == product_id;
                        assert(!(self@[j].cart_id == a && self@[j].product_id == product_id));
                    }
                }
                lemma_qty_no_match(self@, a, product_id);
                lemma_add_line(self@, a, product_id);
            }
            self.lines.push(CartItem { cart_id: a, product_id, quantity: 1 });
            proof {
                assert(self@ == add_line(old(self)@, a, product_id));
            }
            Ok(1)
        } else {
            Err(CartError::ProductNotFound)
        }
    }

    /// Takes one unit of `product_id` out of the authenticated account's
    /// cart: the line is deleted when it held one unit, otherwise one unit
    /// less stays. Returns the resulting quantity, zero standing for
    /// removal of the line.
    ///
    /// Fails with `Unauthenticated` for an anonymous caller and with
    /// `LineNotFound` when the cart holds no such line; a failed call writes
    /// nothing.
    pub fn remove_item(&mut self, account: Option<i32>, product_id: i32) -> (r: Result<
        i32,
        CartError,
    >)
        requires
            old(self).wf(),
        ensures
            final(self).wf(),
            r is Ok <==> (account matches Some(a) && has_line(old(self)@, a, product_id)),
            match r {
                Ok(q) => account matches Some(a) && final(self)@ == drop_line(
                    old(self)@,
                    a,
                    product_id,
                ) && q == qty(old(self)@, a, product_id) - 1 && q == qty(
                    final(self)@,
                    a,
                    product_id,
                ) && (q == 0 ==> !has_line(final(self)@, a, product_id)),
                Err(e) => final(self)@ == old(self)@ && (e == CartError::Unauthenticated
                    <==> account is None) && (e == CartError::Unauthenticated || e
                    == CartError::LineNotFound),
            },
    {
        let a = match account {
            Some(a) => a,
            None => {
                return Err(CartError::Unauthenticated);
            },
        };
        let n = self.lines.len();
        let mut i: usize = 0;
        while i < n
            invariant
                0 <= i <= n,
                n == self@.len(),
                *self == *old(self),
                old(self).wf(),
                account == Some(a),
                forall|j: int|
                    0 <= j < i ==> !(self@[j].cart_id == a && self@[j].product_id == product_id),
            decreases n - i,
        {
            let l = self.lines[i];
            if l.cart_id == a && l.product_id == product_id {
                proof {
                    lemma_line_index_unique(self@, a, product_id, i as int);
                    lemma_qty_unique_match(self@, a, product_id, i as int);
                    lemma_drop_line(self@, a, product_id);
                }
                if l.quantity == 1 {
                    self.lines.remove(i);
                    proof {
                        assert(self@ == drop_line(old(self)@, a, product_id));
                    }
                    return Ok(0);
                } else {
                    let q = l.quantity - 1;
                    self.lines.set(
                        i,
                        CartItem { cart_id: a, product_id, quantity: q },
                    );
                    proof {
                        assert(self@ == drop_line(old(self)@, a, product_id));
                    }
                    return Ok(q);
                }
            }
            i = i + 1;
        }
        proof {
            assert(!has_line(self@, a, product_id)) by {
                if has_line(self@, a, product_id) {
                    let j = choose|j: int|
                        0 <= j < self@.len() && self@[j].cart_id == a && self@[j].product_id
                            == product_id;
                    assert(!(self@[j].cart_id == a && self@[j].product_id == product_id));
                }
            }
        }
        Err(CartError::LineNotFound)
    }

    /// The authenticated account's cart as (product record, quantity) pairs,
    /// in stored order, each product resolved at the catalog's current
    /// state.
    ///
    /// Fails with `Unauthenticated` for an anonymous caller. A line whose
    /// product the catalog no longer holds is a data-integrity fault and is
    /// surfaced as `InconsistentCart`, never skipped; this policy is applied
    /// to every line uniformly.
    pub fn list_items(&self, account: Option<i32>, catalog: &Catalog) -> (r: Result<
        Vec<(Product, i32)>,
        CartError,
    >)
        requires
            self.wf(),
            catalog.wf(),
        ensures
            r is Ok <==> (account matches Some(a) && all_resolvable(self@, catalog@, a)),
            match r {
                Ok(v) => account matches Some(a) && v@.len() == lines_of(self@, a).len()
                    && forall|k: int|
                    0 <= k < v@.len() ==> (#[trigger] v@[k]).1 == lines_of(self@, a)[k].quantity
                        && v@[k].0 == cat_at(catalog@, lines_of(self@, a)[k].product_id),
                Err(e) => (e == CartError::Unauthenticated <==> account is None) && (e
                    == CartError::Unauthenticated || e == CartError::InconsistentCart),
            },
    {
        let a = match account {
            Some(a) => a,
            None => {
                return Err(CartError::Unauthenticated);
            },
        };
        let n = self.lines.len();
        let mut out: Vec<(Product, i32)> = Vec::new();
        let mut i: usize = 0;
        while i < n
            invariant
                0 <= i <= n,
                n == self@.len(),
                self.wf(),
                catalog.wf(),
                account == Some(a),
                forall|j: int|
                    0 <= j < i && self@[j].cart_id == a ==> cat_has(
                        catalog@,
                        #[trigger] self@[j].product_id,
                    ),
                out@.len() == lines_of(self@.take(i as int), a).len(),
                forall|k: int|
                    0 <= k < out@.len() ==> (#[trigger] out@[k]).1 == lines_of(
                        self@.take(i as int),
                        a,
                    )[k].quantity && out@[k].0 == cat_at(
                        catalog@,
                        lines_of(self@.take(i as int), a)[k].product_id,
                    ),
            decreases n - i,
        {
            let l = self.lines[i];
            proof {
                assert(self@.take(i + 1 as int).drop_last() =~= self@.take(i as int));
                assert(self@.take(i + 1 as int).last() == self@[i as int]);
            }
            if l.cart_id == a {
                match catalog.product_details(l.product_id) {
                    Some(p) => {
                        out.push((p, l.quantity));
                    },
                    None => {
                        proof {
                            assert(self@[i as int].cart_id == a && !cat_has(
                                catalog@,
                                self@[i as int].product_id,
                            ));
                            assert(!all_resolvable(self@, catalog@, a));
                        }
                        return Err(CartError::InconsistentCart);
                    },
                }
            }
            i = i + 1;
        }
        proof {
            assert(self@.take(n as int) =~= self@);
        }
        Ok(out)
    }

    /// The value of the authenticated account's cart in cents, each line at
    /// the catalog's current unit price. An empty cart is worth zero.
    ///
    /// Fails with `Unauthenticated` for an anonymous caller and with
    /// `ProductNotFound` when some line of the account no longer resolves:
    /// a valuation over missing prices is never fabricated.
    pub fn total(&self, account: Option<i32>, catalog: &Catalog) -> (r: Result<u128, CartError>)
        requires
            self.wf(),
            catalog.wf(),
        ensures
            r is Ok <==> (account matches Some(a) && all_resolvable(self@, catalog@, a)),
            match r {
                Ok(t) => account matches Some(a) && t == cart_total(self@, catalog@, a),
                Err(e) => (e == CartError::Unauthenticated <==> account is None) && (e
                    == CartError::Unauthenticated || e == CartError::ProductNotFound),
            },
    {
        let a = match account {
            Some(a) => a,
            None => {
                return Err(CartError::Unauthenticated);
            },
        };
        let n = self.lines.len();
        let mut acc: u128 = 0;
        let mut i: usize = 0;
        while i < n
            invariant
                0 <= i <= n,
                n == self@.len(),
                self.wf(),
                catalog.wf(),
                account == Some(a),
                forall|j: int|
                    0 <= j < i && self@[j].cart_id == a ==> cat_has(
                        catalog@,
                        #[trigger] self@[j].product_id,
                    ),
                acc == cart_total(self@.take(i as int), catalog@, a),
            decreases n - i,
        {
            let l = self.lines[i];
            proof {
                assert(self@.take(i + 1 as int).drop_last() =~= self@.take(i as int));
                assert(self@.take(i + 1 as int).last() == self@[i as int]);
                assert(lines_wf(self@.take(i as int))) by {
                    assert forall|x: int, y: int|
                        0 <= x < self@.take(i as int).len() && 0 <= y < self@.take(i as int).len()
                            && x != y implies !(self@.take(i as int)[x].cart_id == self@.take(
                        i as int,
                    )[y].cart_id && self@.take(i as int)[x].product_id == self@.take(
                        i as int,
                    )[y].product_id) by {
                        assert(self@.take(i as int)[x] == self@[x]);
                        assert(self@.take(i as int)[y] == self@[y]);
                    }
                    assert forall|x: int|
                        0 <= x < self@.take(i as int).len() implies 1 <= self@.take(
                        i as int,
                    )[x].quantity by {
                        assert(self@.take(i as int)[x] == self@[x]);
                    }
                }
                lemma_cart_total_bounds(self@.take(i as int), catalog@, a);
            }
            if l.cart_id == a {
                match catalog.price_of(l.product_id) {
                    Some(c) => {
                        proof {
                            let q = l.quantity as int;
                            let c0 = c as int;
                            assert(1 <= q <= i32::MAX);
                            assert(0 <= c0 <= u32::MAX);
                            assert(0 <= q * c0 <= 9223372030412324865) by (nonlinear_arith)
                                requires
                                    1 <= q <= 2147483647,
                                    0 <= c0 <= 4294967295,
                            ;
                            assert(acc <= (i as int) * line_total_max());
                            assert((i as int) * line_total_max() + line_total_max() <= (
                            n as int) * line_total_max());
                            assert(n <= usize::MAX);
                            assert((n as int) * line_total_max() <= (usize::MAX as int)
                                * line_total_max());
                            assert(usize::MAX as int <= u64::MAX as int);
                            assert((usize::MAX as int) * line_total_max() <= (u64::MAX as int)
                                * line_total_max()) by (nonlinear_arith)
                                requires
                                    usize::MAX as int <= u64::MAX as int,
                            ;
                        }
                        let sub: u128 = (l.quantity as u128) * (c as u128);
                        acc = acc + sub;
                    },
                    None => {
                        proof {
                            assert(self@[i as int].cart_id == a && !cat_has(
                                catalog@,
                                self@[i as int].product_id,
                            ));
                            assert(!all_resolvable(self@, catalog@, a));
                        }
                        return Err(CartError::ProductNotFound);
                    },
                }
            }
            i = i + 1;
        }
        proof {
            assert(self@.take(n as int) =~= self@);
        }
        Ok(acc)
    }

    /// Deletes every cart line of `account`, leaving all other accounts'
    /// lines in place. Clearing an account without lines is a no-op success,
    /// so the operation is idempotent. Checkout uses it to empty the cart it
    /// has just valued.
    pub fn clear(&mut self, account: i32)
        requires
            old(self).wf(),
        ensures
            final(self).wf(),
            final(self)@ == clear_lines(old(self)@, account),
    {
        let n = self.lines.len();
        let mut out: Vec<CartItem> = Vec::new();
        let mut i: usize = 0;
        while i < n
            invariant
                0 <= i <= n,
                n == self@.len(),
                *self == *old(self),
                old(self).wf(),
                out@ == clear_lines(self@.take(i as int), account),
            decreases n - i,
        {
            let l = self.lines[i];
            proof {
                assert(self@.take(i + 1 as int).drop_last() =~= self@.take(i as int));
                assert(self@.take(i + 1 as int).last() == self@[i as int]);
            }
            if l.cart_id != account {
                out.push(l);
            }
            i = i + 1;
        }
        proof {
            assert(self@.take(n as int) =~= self@);
        }
        self.lines = out;
        proof {
            lemma_clear_lines(old(self)@, account);
        }
    }

    /// Whether `product_id` currently resolves against the catalog.
    fn price_check(&self, product_id: i32, catalog: &Catalog) -> (r: bool)
        requires
            catalog.wf(),
        ensures
            r == cat_has(catalog@, product_id),
    {
        match catalog.price_of(product_id) {
            Some(_) => true,
            None => false,
        }
    }
}

/// Under well-formedness, a matching position is the position `line_index`
/// speaks of.
pub proof fn lemma_line_index_unique(s: Seq<CartItem>, a: i32, p: i32, i: int)
    requires
        lines_wf(s),
        0 <= i < s.len(),
        s[i].cart_id == a,
        s[i].product_id == p,
    ensures
        has_line(s, a, p),
        line_index(s, a, p) == i,
{
    assert(has_line(s, a, p));
    let j = line_index(s, a, p);
    assert(0 <= j < s.len() && s[j].cart_id == a && s[j].product_id == p);
    if i != j {
        assert(!(s[i].cart_id == s[j].cart_id && s[i].product_id == s[j].product_id));
    }
}

} // verus!
