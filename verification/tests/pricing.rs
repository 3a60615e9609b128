use furby::cart::CartStore;
use furby::catalog::Catalog;
use furby::checkout::checkout;
use furby::errors::CartError;
use furby::models::Product;
use furby::orders::OrderLog;

fn product(id: i32, price_cents: u32) -> Product {
    Product {
        id,
        name: format!("product-{}", id),
        kind: None,
        price_cents,
        description: Some(String::from("a thing")),
    }
}

#[test]
fn scenario_two_adds_one_remove_then_checkout() {
    // product 7 priced at 9.99: quantities 1, 2, 1, then an order of 9.99
    let mut cat = Catalog::new();
    assert!(cat.insert_product(product(7, 999)));
    let mut cart = CartStore::new();
    let mut orders = OrderLog::new();
    assert_eq!(cart.quantity(1, 7), 0);
    assert_eq!(cart.add_item(Some(1), 7, &cat), Ok(1));
    assert_eq!(cart.quantity(1, 7), 1);
    assert_eq!(cart.add_item(Some(1), 7, &cat), Ok(2));
    assert_eq!(cart.quantity(1, 7), 2);
    assert_eq!(cart.remove_item(Some(1), 7), Ok(1));
    assert_eq!(cart.quantity(1, 7), 1);
    let order = checkout(&mut cart, &mut orders, Some(1), &cat, String::from("card"), 1).unwrap();
    assert_eq!(order.amount, 999);
    assert_eq!(cart.quantity(1, 7), 0);
    assert_eq!(cart.list_items(Some(1), &cat).unwrap().len(), 0);
}

#[test]
fn total_uses_live_prices_not_add_time_prices() {
    let mut cat = Catalog::new();
    assert!(cat.insert_product(product(7, 999)));
    let mut cart = CartStore::new();
    cart.add_item(Some(1), 7, &cat).unwrap();
    assert_eq!(cart.total(Some(1), &cat), Ok(999));
    // the price changes after the add and before the total is read
    assert!(cat.update_product(7, String::from("product-7"), None, 1099, None));
    assert_eq!(cart.total(Some(1), &cat), Ok(1099));
    // and back down again: the cart stays live
    assert!(cat.update_product(7, String::from("product-7"), None, 500, None));
    assert_eq!(cart.total(Some(1), &cat), Ok(500));
}

#[test]
fn total_sums_quantity_times_price() {
    let mut cat = Catalog::new();
    assert!(cat.insert_product(product(7, 999)));
    assert!(cat.insert_product(product(8, 101)));
    let mut cart = CartStore::new();
    cart.add_item(Some(1), 7, &cat).unwrap();
    cart.add_item(Some(1), 7, &cat).unwrap();
    cart.add_item(Some(1), 7, &cat).unwrap();
    cart.add_item(Some(1), 8, &cat).unwrap();
    assert_eq!(cart.total(Some(1), &cat), Ok(3 * 999 + 101));
    // an account without lines has an implicitly empty cart worth zero
    assert_eq!(cart.total(Some(2), &cat), Ok(0));
    assert_eq!(cart.total(None, &cat), Err(CartError::Unauthenticated));
}

#[test]
fn list_items_resolves_products_in_order() {
    let mut cat = Catalog::new();
    assert!(cat.insert_product(product(7, 999)));
    assert!(cat.insert_product(product(8, 101)));
    let mut cart = CartStore::new();
    cart.add_item(Some(1), 7, &cat).unwrap();
    cart.add_item(Some(1), 8, &cat).unwrap();
    cart.add_item(Some(1), 7, &cat).unwrap();
    cart.add_item(Some(2), 8, &cat).unwrap();
    let items = cart.list_items(Some(1), &cat).unwrap();
    assert_eq!(items.len(), 2);
    assert_eq!(items[0].0.id, 7);
    assert_eq!(items[0].0.price_cents, 999);
    assert_eq!(items[0].0.name, "product-7");
    assert_eq!(items[0].1, 2);
    assert_eq!(items[1].0.id, 8);
    assert_eq!(items[1].1, 1);
    assert!(matches!(cart.list_items(None, &cat), Err(CartError::Unauthenticated)));
}

#[test]
fn list_items_surfaces_orphaned_lines() {
    let mut cat = Catalog::new();
    assert!(cat.insert_product(product(7, 999)));
    let mut cart = CartStore::new();
    cart.add_item(Some(1), 7, &cat).unwrap();
    // the product is deleted from the catalog while the line persists
    let gone = Catalog::new();
    assert!(matches!(cart.list_items(Some(1), &gone), Err(CartError::InconsistentCart)));
    // the line itself is untouched
    assert_eq!(cart.quantity(1, 7), 1);
}

#[test]
fn eager_validation_and_checkout_validation() {
    // add validates eagerly; checkout validates again regardless
    let mut cat = Catalog::new();
    assert!(cat.insert_product(product(7, 999)));
    let mut cart = CartStore::new();
    assert_eq!(cart.add_item(Some(1), 9, &cat), Err(CartError::ProductNotFound));
    cart.add_item(Some(1), 7, &cat).unwrap();
    let mut orders = OrderLog::new();
    let gone = Catalog::new();
    assert!(matches!(
        checkout(&mut cart, &mut orders, Some(1), &gone, String::from("card"), 1),
        Err(CartError::ProductNotFound)
    ));
}
