//! The engine's laws: facts that relate several operations, proved once over
//! the spec-level transitions that the operations' own contracts name.
//!
//! Every exec operation is one atomic read-modify-write on the store, so a
//! set of concurrent calls behaves as some serial order of the transitions
//! `add_line`, `drop_line` and `clear_lines`. The lemmas here quantify over
//! that serial order: whatever order the scheduler picks, the stated facts
//! hold.

use vstd::prelude::*;

use crate::cart::{
    add_line, all_resolvable, cart_total, clear_lines, drop_line, has_line, lemma_add_line,
    lemma_clear_lines, lemma_drop_line, lemma_qty_has_line, lemma_qty_unique_match, line_index,
    line_total, lines_wf, qty,
};
use crate::catalog::{cat_has, cat_price};
use crate::models::{CartItem, Product};

verus! {

/// The state after `n` serialized `add_item(a, p)` calls.
pub open spec fn iter_add_line(s: Seq<CartItem>, a: i32, p: i32, n: nat) -> Seq<CartItem>
    decreases n,
{
    if n == 0 {
        s
    } else {
        add_line(iter_add_line(s, a, p, (n - 1) as nat), a, p)
    }
}

/// The state after `n` serialized `remove_item(a, p)` calls.
pub open spec fn iter_drop_line(s: Seq<CartItem>, a: i32, p: i32, n: nat) -> Seq<CartItem>
    decreases n,
{
    if n == 0 {
        s
    } else {
        drop_line(iter_drop_line(s, a, p, (n - 1) as nat), a, p)
    }
}

/// `n` adds accumulate exactly `n` units on the one line of (`a`, `p`) and
/// touch nothing else.
pub proof fn lemma_iter_add_line(s: Seq<CartItem>, a: i32, p: i32, n: nat)
    requires
        lines_wf(s),
        qty(s, a, p) + n <= i32::MAX,
    ensures
        lines_wf(iter_add_line(s, a, p, n)),
        qty(iter_add_line(s, a, p, n), a, p) == qty(s, a, p) + n,
        forall|a2: i32, p2: i32|
            !(a2 == a && p2 == p) ==> qty(iter_add_line(s, a, p, n), a2, p2) == qty(s, a2, p2),
        forall|a2: i32, p2: i32|
            !(a2 == a && p2 == p) ==> has_line(iter_add_line(s, a, p, n), a2, p2) == has_line(
                s,
                a2,
                p2,
            ),
    decreases n,
{
    if n > 0 {
        let t0 = iter_add_line(s, a, p, (n - 1) as nat);
        let t = iter_add_line(s, a, p, n);
        lemma_iter_add_line(s, a, p, (n - 1) as nat);
        lemma_add_line(t0, a, p);
        assert forall|a2: i32, p2: i32|
            !(a2 == a && p2 == p) implies qty(t, a2, p2) == qty(s, a2, p2) by {
            assert(qty(t, a2, p2) == qty(t0, a2, p2));
            assert(qty(t0, a2, p2) == qty(s, a2, p2));
        }
        assert forall|a2: i32, p2: i32|
            !(a2 == a && p2 == p) implies has_line(t, a2, p2) == has_line(s, a2, p2) by {
            assert(has_line(t, a2, p2) == has_line(t0, a2, p2));
            assert(has_line(t0, a2, p2) == has_line(s, a2, p2));
        }
    }
}

/// `n` removes take exactly `n` units off the one line of (`a`, `p`) — as
/// long as they are covered — and touch nothing else.
pub proof fn lemma_iter_drop_line(s: Seq<CartItem>, a: i32, p: i32, n: nat)
    requires
        lines_wf(s),
        n <= qty(s, a, p),
    ensures
        lines_wf(iter_drop_line(s, a, p, n)),
        qty(iter_drop_line(s, a, p, n), a, p) == qty(s, a, p) - n,
        forall|a2: i32, p2: i32|
            !(a2 == a && p2 == p) ==> qty(iter_drop_line(s, a, p, n), a2, p2) == qty(s, a2, p2),
        forall|a2: i32, p2: i32|
            !(a2 == a && p2 == p) ==> has_line(iter_drop_line(s, a, p, n), a2, p2) == has_line(
                s,
                a2,
                p2,
            ),
    decreases n,
{
    if n > 0 {
        let t0 = iter_drop_line(s, a, p, (n - 1) as nat);
        let t = iter_drop_line(s, a, p, n);
        lemma_iter_drop_line(s, a, p, (n - 1) as nat);
        lemma_qty_has_line(t0, a, p);
        assert(qty(t0, a, p) >= 1);
        lemma_drop_line(t0, a, p);
        assert forall|a2: i32, p2: i32|
            !(a2 == a && p2 == p) implies qty(t, a2, p2) == qty(s, a2, p2) by {
            assert(qty(t, a2, p2) == qty(t0, a2, p2));
            assert(qty(t0, a2, p2) == qty(s, a2, p2));
        }
        assert forall|a2: i32, p2: i32|
            !(a2 == a && p2 == p) implies has_line(t, a2, p2) == has_line(s, a2, p2) by {
            assert(has_line(t, a2, p2) == has_line(t0, a2, p2));
            assert(has_line(t0, a2, p2) == has_line(s, a2, p2));
        }
    }
}

/// Adding and removing cancel out: from a state without a line for
/// (`a`, `p`), `n` `add_item(a, p)` calls followed by `n` `remove_item(a, p)`
/// calls leave no line for (`a`, `p`) and every other pair exactly as it
/// was. (The adds must stay within the machine bound `i32::MAX` on one
/// line's quantity.)
pub proof fn lemma_add_remove_roundtrip(s: Seq<CartItem>, a: i32, p: i32, n: nat)
    requires
        lines_wf(s),
        !has_line(s, a, p),
        n <= i32::MAX,
    ensures
        lines_wf(iter_drop_line(iter_add_line(s, a, p, n), a, p, n)),
        !has_line(iter_drop_line(iter_add_line(s, a, p, n), a, p, n), a, p),
        qty(iter_drop_line(iter_add_line(s, a, p, n), a, p, n), a, p) == 0,
        forall|a2: i32, p2: i32|
            !(a2 == a && p2 == p) ==> qty(iter_drop_line(iter_add_line(s, a, p, n), a, p, n), a2, p2)
                == qty(s, a2, p2),
        forall|a2: i32, p2: i32|
            !(a2 == a && p2 == p) ==> has_line(
                iter_drop_line(iter_add_line(s, a, p, n), a, p, n),
                a2,
                p2,
            ) == has_line(s, a2, p2),
{
    lemma_qty_has_line(s, a, p);
    assert(qty(s, a, p) == 0);
    let u = iter_add_line(s, a, p, n);
    lemma_iter_add_line(s, a, p, n);
    let t = iter_drop_line(u, a, p, n);
    lemma_iter_drop_line(u, a, p, n);
    lemma_qty_has_line(t, a, p);
    assert forall|a2: i32, p2: i32|
        !(a2 == a && p2 == p) implies qty(t, a2, p2) == qty(s, a2, p2) by {
        assert(qty(t, a2, p2) == qty(u, a2, p2));
        assert(qty(u, a2, p2) == qty(s, a2, p2));
    }
    assert forall|a2: i32, p2: i32|
        !(a2 == a && p2 == p) implies has_line(t, a2, p2) == has_line(s, a2, p2) by {
        assert(has_line(t, a2, p2) == has_line(u, a2, p2));
        assert(has_line(u, a2, p2) == has_line(s, a2, p2));
    }
}

/// No add is ever lost: `k` concurrent `add_item(a, p)` calls against a
/// state without a line for (`a`, `p`) run in some serial order, because
/// each call is one atomic read-modify-write — and every serial order of the
/// `k` transitions ends with a quantity of exactly `k`. (The machine bound
/// `i32::MAX` caps one line's quantity.)
pub proof fn lemma_concurrent_adds_accumulate(s: Seq<CartItem>, a: i32, p: i32, k: nat)
    requires
        lines_wf(s),
        !has_line(s, a, p),
        k <= i32::MAX,
    ensures
        lines_wf(iter_add_line(s, a, p, k)),
        qty(iter_add_line(s, a, p, k), a, p) == k,
        forall|a2: i32, p2: i32|
            !(a2 == a && p2 == p) ==> qty(iter_add_line(s, a, p, k), a2, p2) == qty(s, a2, p2),
{
    lemma_qty_has_line(s, a, p);
    assert(qty(s, a, p) == 0);
    lemma_iter_add_line(s, a, p, k);
}

/// Exchanging position `i` exchanges its contribution to the cart's value.
proof fn lemma_cart_total_update(s: Seq<CartItem>, cat: Seq<Product>, a: i32, i: int, l: CartItem)
    requires
        0 <= i < s.len(),
    ensures
        cart_total(s.update(i, l), cat, a) == cart_total(s, cat, a) - line_total(cat, a, s[i])
            + line_total(cat, a, l),
    decreases s.len(),
{
    let t = s.update(i, l);
    if i == s.len() - 1 {
        assert(t.drop_last() =~= s.drop_last());
        assert(t.last() == l);
    } else {
        assert(t.drop_last() =~= s.drop_last().update(i, l));
        assert(t.last() == s.last());
        lemma_cart_total_update(s.drop_last(), cat, a, i, l);
    }
}

/// One more unit of a resolvable product raises the cart's value by exactly
/// that product's current unit price.
pub proof fn lemma_cart_total_add_line(s: Seq<CartItem>, cat: Seq<Product>, a: i32, p: i32)
    requires
        lines_wf(s),
        cat_has(cat, p),
        qty(s, a, p) < i32::MAX,
    ensures
        cart_total(add_line(s, a, p), cat, a) == cart_total(s, cat, a) + cat_price(cat, p),
{
    let t = add_line(s, a, p);
    let c = cat_price(cat, p) as int;
    if has_line(s, a, p) {
        let i = line_index(s, a, p);
        assert(0 <= i < s.len() && s[i].cart_id == a && s[i].product_id == p);
        lemma_qty_unique_match(s, a, p, i);
        let q = s[i].quantity as int;
        let l2 = CartItem { cart_id: a, product_id: p, quantity: (s[i].quantity + 1) as i32 };
        lemma_cart_total_update(s, cat, a, i, l2);
        assert(line_total(cat, a, s[i]) == q * c);
        assert(line_total(cat, a, l2) == (q + 1) * c);
        assert((q + 1) * c == q * c + c) by (nonlinear_arith);
    } else {
        let l2 = CartItem { cart_id: a, product_id: p, quantity: 1 };
        assert(t.drop_last() =~= s);
        assert(t.last() == l2);
        assert(line_total(cat, a, l2) == 1 * c);
    }
}

/// The two serial orders of a concurrent `add_item(a, p)` and `checkout(a)`
/// — the only behaviours their atomic read-modify-writes allow — each
/// account for the added unit exactly once:
///
/// - add first, then checkout: the order bills the unit (its amount is the
///   old cart's value plus the product's current unit price) and the cart
///   retains nothing of account `a`;
/// - checkout first, then add: the order bills exactly the old cart's value
///   and the cart retains the unit as a fresh one-unit line.
///
/// In neither order is the unit both billed and retained, nor neither.
pub proof fn lemma_add_checkout_serializations(
    s: Seq<CartItem>,
    cat: Seq<Product>,
    a: i32,
    p: i32,
)
    requires
        lines_wf(s),
        cat_has(cat, p),
        all_resolvable(s, cat, a),
        qty(s, a, p) < i32::MAX,
    ensures
        all_resolvable(add_line(s, a, p), cat, a),
        cart_total(add_line(s, a, p), cat, a) == cart_total(s, cat, a) + cat_price(cat, p),
        forall|p2: i32| #[trigger] qty(clear_lines(add_line(s, a, p), a), a, p2) == 0,
        qty(add_line(clear_lines(s, a), a, p), a, p) == 1,
        has_line(add_line(clear_lines(s, a), a, p), a, p),
{
    // Add first, then checkout.
    lemma_add_line(s, a, p);
    let u = add_line(s, a, p);
    assert forall|i: int|
        0 <= i < u.len() && u[i].cart_id == a implies cat_has(cat, #[trigger] u[i].product_id) by {
        if has_line(s, a, p) {
            let j = line_index(s, a, p);
            if i != j {
                assert(u[i] == s[i]);
            }
        } else {
            if i < s.len() {
                assert(u[i] == s[i]);
            }
        }
    }
    lemma_cart_total_add_line(s, cat, a, p);
    lemma_clear_lines(u, a);
    // Checkout first, then add.
    lemma_clear_lines(s, a);
    let v = clear_lines(s, a);
    lemma_add_line(v, a, p);
}

/// Every line of `s` survives clearing a stranger account, unchanged.
proof fn lemma_clear_lines_noop(s: Seq<CartItem>, a: i32)
    requires
        forall|j: int| 0 <= j < s.len() ==> (#[trigger] s[j]).cart_id != a,
    ensures
        clear_lines(s, a) == s,
    decreases s.len(),
{
    if s.len() > 0 {
        assert forall|j: int|
            0 <= j < s.drop_last().len() implies (#[trigger] s.drop_last()[j]).cart_id != a by {
            assert(s.drop_last()[j] == s[j]);
        }
        lemma_clear_lines_noop(s.drop_last(), a);
        assert(s.last().cart_id != a);
        assert(clear_lines(s, a) == s.drop_last().push(s.last()));
        assert(s.drop_last().push(s.last()) =~= s);
    }
}

/// Clearing a cart is idempotent: clearing an already-cleared account
/// changes nothing.
pub proof fn lemma_clear_idempotent(s: Seq<CartItem>, a: i32)
    requires
        lines_wf(s),
    ensures
        clear_lines(clear_lines(s, a), a) == clear_lines(s, a),
{
    lemma_clear_lines(s, a);
    lemma_clear_lines_noop(clear_lines(s, a), a);
}

} // verus!
