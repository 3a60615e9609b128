//! The checkout coordinator: the one multi-step operation of the engine.
//!
//! A checkout values the authenticated account's cart at the catalog's
//! current prices, appends one immutable order over that value, and clears
//! the cart — all inside one call that holds both stores by `&mut`, so no
//! concurrent cart mutation or second checkout of the same account can land
//! between the valuation and the clear. On any failure nothing is written:
//! either the order insert and the cart clear both happen, or neither does.
//!
//! Checking out an empty cart is a deliberate, documented policy choice: it
//! succeeds and persists a zero-amount order. Callers that prefer to refuse
//! an empty cart can test `list_items` first.

use vstd::prelude::*;

use crate::cart::{all_resolvable, cart_total, clear_lines, CartStore};
use crate::catalog::Catalog;
use crate::errors::CartError;
use crate::models::Order;
use crate::orders::OrderLog;

verus! {

/// Converts the authenticated account's cart lines into one immutable order
/// and empties the cart, atomically with respect to every other operation on
/// the same stores. Returns the persisted order.
///
/// Exactly-once: a success appends exactly one order, whose amount is the
/// pre-checkout value of the cart at the catalog's current prices, and
/// leaves the account without any cart line; every other account's lines and
/// every earlier order are untouched.
///
/// Fails with `Unauthenticated` for an anonymous caller and with
/// `ProductNotFound` when some cart line no longer resolves against the
/// catalog — a partial order over the resolvable lines is never created. A
/// failed checkout writes nothing at all.
pub fn checkout(
    cart: &mut CartStore,
    orders: &mut OrderLog,
    account: Option<i32>,
    catalog: &Catalog,
    payment_type: String,
    order_date: i64,
) -> (r: Result<Order, CartError>)
    requires
        old(cart).wf(),
        old(orders).wf(),
        catalog.wf(),
        old(orders)@.len() < i32::MAX,
    ensures
        final(cart).wf(),
        final(orders).wf(),
        r is Ok <==> (account matches Some(a) && all_resolvable(old(cart)@, catalog@, a)),
        match r {
            Ok(o) => account matches Some(a) && o.customer_id == a && o.amount == cart_total(
                old(cart)@,
                catalog@,
                a,
            ) && o.payment_type == payment_type && o.order_date == order_date && o.id == old(
                orders,
            )@.len() && final(orders)@ == old(orders)@.push(o) && final(cart)@ == clear_lines(
                old(cart)@,
                a,
            ),
            Err(e) => final(cart)@ == old(cart)@ && final(orders)@ == old(orders)@ && (e
                == CartError::Unauthenticated <==> account is None) && (e
                == CartError::Unauthenticated || e == CartError::ProductNotFound),
        },
{
    let a = match account {
        Some(a) => a,
        None => {
            return Err(CartError::Unauthenticated);
        },
    };
    let amount = match cart.total(account, catalog) {
        Ok(t) => t,
        Err(e) => {
            return Err(e);
        },
    };
    let order = orders.place(a, amount, payment_type, order_date);
    cart.clear(a);
    Ok(order)
}

} // verus!
