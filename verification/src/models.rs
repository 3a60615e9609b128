//! Plain data carried between the engine and its callers.
//!
//! These rows mirror the relational schema the handlers persist: accounts,
//! catalog products, cart lines, orders and rating payloads. Prices and order
//! amounts are integer cents, so that valuation is exact arithmetic.

use vstd::prelude::*;

verus! {

/// A registered account row. The engine itself only ever reads `id`;
/// the remaining fields belong to the identity subsystem.
pub struct Customer {
    pub id: i32,
    pub username: String,
    pub password: String,
    pub phone_number: String,
    pub email_id: String,
    pub address: Option<String>,
}

/// Payload for creating an account; the caller hashes `password` before
/// persisting it.
pub struct NewCustomer {
    pub username: String,
    pub password: String,
    pub phone_number: String,
    pub email_id: String,
    pub address: Option<String>,
}

/// A catalog product. `price_cents` is the current unit price in cents.
pub struct Product {
    pub id: i32,
    pub name: String,
    pub kind: Option<String>,
    pub price_cents: u32,
    pub description: Option<String>,
}

impl Clone for Product {
    fn clone(&self) -> (res: Self)
        ensures
            res == *self,
    {
        Product {
            id: self.id,
            name: self.name.clone(),
            kind: match &self.kind {
                Some(k) => Some(k.clone()),
                None => None,
            },
            price_cents: self.price_cents,
            description: match &self.description {
                Some(d) => Some(d.clone()),
                None => None,
            },
        }
    }
}

/// One cart line: the account `cart_id` intends to buy `quantity` units of
/// `product_id`. A stored line always has `quantity >= 1`; a line that would
/// reach zero is deleted instead of being kept at zero.
#[derive(Clone, Copy, Debug, PartialEq, Eq, Structural)]
pub struct CartItem {
    pub cart_id: i32,
    pub product_id: i32,
    pub quantity: i32,
}

/// Payload of an add-to-cart request as the handlers receive it; a missing
/// `quantity` means one unit.
pub struct AddCartItem {
    pub cart_id: i32,
    pub product_id: i32,
    pub quantity: Option<i32>,
}

/// An immutable order record: the point-in-time snapshot a checkout creates.
/// It is never updated or re-derived from the cart afterwards.
pub struct Order {
    pub id: i32,
    pub customer_id: i32,
    pub amount: u128,
    pub payment_type: String,
    pub order_date: i64,
}

impl Clone for Order {
    fn clone(&self) -> (res: Self)
        ensures
            res == *self,
    {
        Order {
            id: self.id,
            customer_id: self.customer_id,
            amount: self.amount,
            payment_type: self.payment_type.clone(),
            order_date: self.order_date,
        }
    }
}

/// Payload for attaching a rating to a product.
pub struct AddRating {
    pub comment_text: Option<String>,
    pub stars: Option<i32>,
    pub product_id: i32,
    pub customer_id: i32,
}

/// Whether some account row already uses `name` as its username.
pub open spec fn spec_username_taken(s: Seq<Customer>, name: Seq<char>) -> bool {
    exists|i: int| 0 <= i < s.len() && s[i].username@ == name
}

/// True exactly when one of `customers` already carries username `name`.
pub fn username_taken(customers: &Vec<Customer>, name: &String) -> (taken: bool)
    ensures
        taken == spec_username_taken(customers@, name@),
{
    let n = customers.len();
    let mut i: usize = 0;
    while i < n
        invariant
            0 <= i <= n,
            n == customers@.len(),
            forall|j: int| 0 <= j < i ==> customers@[j].username@ != name@,
        decreases n - i,
    {
        if customers[i].username == *name {
            return true;
        }
        i = i + 1;
    }
    false
}

/// Resolves a username to its account identifier: the identifier of the
/// first row carrying `name`, or `None` when no row does. This is the
/// identity resolution the engine's operations receive their account
/// argument from.
pub fn find_customer_id(customers: &Vec<Customer>, name: &String) -> (r: Option<i32>)
    ensures
        r is Some <==> spec_username_taken(customers@, name@),
        match r {
            Some(id) => exists|i: int|
                0 <= i < customers@.len() && customers@[i].username@ == name@
                    && (#[trigger] customers@[i]).id == id,
            None => !spec_username_taken(customers@, name@),
        },
{
    let n = customers.len();
    let mut i: usize = 0;
    while i < n
        invariant
            0 <= i <= n,
            n == customers@.len(),
            forall|j: int| 0 <= j < i ==> customers@[j].username@ != name@,
        decreases n - i,
    {
        if customers[i].username == *name {
            return Some(customers[i].id);
        }
        i = i + 1;
    }
    None
}

} // verus!
