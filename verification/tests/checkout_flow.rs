use furby::cart::CartStore;
use furby::catalog::Catalog;
use furby::checkout::checkout;
use furby::errors::CartError;
use furby::models::Product;
use furby::orders::OrderLog;

fn product(id: i32, price_cents: u32) -> Product {
    Product {
        id,
        name: format!("product-{}", id),
        kind: Some(String::from("misc")),
        price_cents,
        description: None,
    }
}

#[test]
fn checkout_is_exactly_once() {
    let mut cat = Catalog::new();
    assert!(cat.insert_product(product(7, 999)));
    assert!(cat.insert_product(product(8, 250)));
    let mut cart = CartStore::new();
    let mut orders = OrderLog::new();
    cart.add_item(Some(1), 7, &cat).unwrap();
    cart.add_item(Some(1), 7, &cat).unwrap();
    cart.add_item(Some(1), 8, &cat).unwrap();
    let pre_total = cart.total(Some(1), &cat).unwrap();
    assert_eq!(pre_total, 2 * 999 + 250);
    let order = checkout(
        &mut cart,
        &mut orders,
        Some(1),
        &cat,
        String::from("card"),
        19876,
    )
    .unwrap();
    // exactly one new order, billing exactly the pre-checkout total
    assert_eq!(orders.count(), 1);
    assert_eq!(order.amount, pre_total);
    assert_eq!(order.customer_id, 1);
    assert_eq!(order.payment_type, "card");
    assert_eq!(order.order_date, 19876);
    assert_eq!(order.id, 0);
    // and the cart is empty
    assert_eq!(cart.quantity(1, 7), 0);
    assert_eq!(cart.quantity(1, 8), 0);
    assert_eq!(cart.total(Some(1), &cat), Ok(0));
}

#[test]
fn checkout_empty_cart_records_zero_amount_order() {
    // policy: checking out an empty cart succeeds with a zero-amount order
    let cat = Catalog::new();
    let mut cart = CartStore::new();
    let mut orders = OrderLog::new();
    let order = checkout(&mut cart, &mut orders, Some(5), &cat, String::from("cash"), 1).unwrap();
    assert_eq!(order.amount, 0);
    assert_eq!(order.customer_id, 5);
    assert_eq!(orders.count(), 1);
}

#[test]
fn checkout_requires_authentication() {
    let cat = Catalog::new();
    let mut cart = CartStore::new();
    let mut orders = OrderLog::new();
    let r = checkout(&mut cart, &mut orders, None, &cat, String::from("card"), 1);
    assert!(matches!(r, Err(CartError::Unauthenticated)));
    assert_eq!(orders.count(), 0);
}

#[test]
fn checkout_with_unresolvable_line_writes_nothing() {
    let mut cat = Catalog::new();
    assert!(cat.insert_product(product(7, 999)));
    let mut cart = CartStore::new();
    let mut orders = OrderLog::new();
    cart.add_item(Some(1), 7, &cat).unwrap();
    // the product disappears from the catalog before checkout
    let gone = Catalog::new();
    let r = checkout(&mut cart, &mut orders, Some(1), &gone, String::from("card"), 1);
    assert!(matches!(r, Err(CartError::ProductNotFound)));
    // no partial order, and the cart kept its line
    assert_eq!(orders.count(), 0);
    assert_eq!(cart.quantity(1, 7), 1);
}

#[test]
fn add_and_checkout_serialize_without_loss_or_double_billing() {
    // the two serial orders of a concurrent add_item and checkout: in each,
    // the added unit is either billed or retained, never both, never neither
    let mut cat = Catalog::new();
    assert!(cat.insert_product(product(7, 999)));

    // order one: the add lands before the checkout snapshot
    let mut cart = CartStore::new();
    let mut orders = OrderLog::new();
    cart.add_item(Some(1), 7, &cat).unwrap();
    cart.add_item(Some(1), 7, &cat).unwrap();
    let order = checkout(&mut cart, &mut orders, Some(1), &cat, String::from("card"), 1).unwrap();
    assert_eq!(order.amount, 2 * 999); // billed
    assert_eq!(cart.quantity(1, 7), 0); // not retained

    // order two: the checkout snapshot closes before the add
    let mut cart = CartStore::new();
    let mut orders = OrderLog::new();
    cart.add_item(Some(1), 7, &cat).unwrap();
    let order = checkout(&mut cart, &mut orders, Some(1), &cat, String::from("card"), 1).unwrap();
    cart.add_item(Some(1), 7, &cat).unwrap();
    assert_eq!(order.amount, 999); // the late unit is not billed
    assert_eq!(cart.quantity(1, 7), 1); // and is retained for the next checkout
}

#[test]
fn second_checkout_bills_nothing_twice() {
    let mut cat = Catalog::new();
    assert!(cat.insert_product(product(7, 999)));
    let mut cart = CartStore::new();
    let mut orders = OrderLog::new();
    cart.add_item(Some(1), 7, &cat).unwrap();
    let first = checkout(&mut cart, &mut orders, Some(1), &cat, String::from("card"), 1).unwrap();
    let second = checkout(&mut cart, &mut orders, Some(1), &cat, String::from("card"), 2).unwrap();
    assert_eq!(first.amount, 999);
    // the cart was cleared by the first checkout: nothing is billed again
    assert_eq!(second.amount, 0);
    assert_eq!(orders.count(), 2);
    assert_ne!(first.id, second.id);
}
