use furby::cart::CartStore;
use furby::catalog::Catalog;
use furby::checkout::checkout;
use furby::errors::CartError;
use furby::models::{Customer, Product};
use furby::models::username_taken;
use furby::orders::OrderLog;
use furby::ratings::stars_summary;

fn product(id: i32, price_cents: u32) -> Product {
    Product {
        id,
        name: format!("product-{}", id),
        kind: None,
        price_cents,
        description: None,
    }
}

fn customer(id: i32, username: &str) -> Customer {
    Customer {
        id,
        username: String::from(username),
        password: String::from("SECRET-REDACTED"),
        phone_number: String::from("555-0100"),
        email_id: format!("{}@example.com", username),
        address: None,
    }
}

#[test]
fn orders_are_listed_per_account_in_creation_order() {
    let mut cat = Catalog::new();
    assert!(cat.insert_product(product(7, 999)));
    let mut cart = CartStore::new();
    let mut orders = OrderLog::new();
    cart.add_item(Some(1), 7, &cat).unwrap();
    checkout(&mut cart, &mut orders, Some(1), &cat, String::from("card"), 10).unwrap();
    cart.add_item(Some(2), 7, &cat).unwrap();
    checkout(&mut cart, &mut orders, Some(2), &cat, String::from("cash"), 11).unwrap();
    cart.add_item(Some(1), 7, &cat).unwrap();
    cart.add_item(Some(1), 7, &cat).unwrap();
    checkout(&mut cart, &mut orders, Some(1), &cat, String::from("card"), 12).unwrap();

    let mine = orders.orders_for(Some(1)).unwrap();
    assert_eq!(mine.len(), 2);
    assert_eq!(mine[0].amount, 999);
    assert_eq!(mine[0].order_date, 10);
    assert_eq!(mine[1].amount, 2 * 999);
    assert_eq!(mine[1].order_date, 12);
    assert!(mine[0].id < mine[1].id);

    let theirs = orders.orders_for(Some(2)).unwrap();
    assert_eq!(theirs.len(), 1);
    assert_eq!(theirs[0].payment_type, "cash");

    assert_eq!(orders.orders_for(Some(3)).unwrap().len(), 0);
    assert!(matches!(orders.orders_for(None), Err(CartError::Unauthenticated)));
}

#[test]
fn catalog_insert_refuses_duplicate_ids() {
    let mut cat = Catalog::new();
    assert!(cat.insert_product(product(7, 999)));
    assert!(!cat.insert_product(product(7, 100)));
    assert_eq!(cat.count(), 1);
    // the original price survives the refused insert
    assert_eq!(cat.price_of(7), Some(999));
}

#[test]
fn catalog_update_and_lookup() {
    let mut cat = Catalog::new();
    assert!(cat.insert_product(product(7, 999)));
    assert!(!cat.update_product(8, String::from("nope"), None, 1, None));
    assert_eq!(cat.price_of(8), None);
    assert!(cat.update_product(
        7,
        String::from("renamed"),
        Some(String::from("gadget")),
        1234,
        Some(String::from("new words")),
    ));
    let p = cat.product_details(7).unwrap();
    assert_eq!(p.name, "renamed");
    assert_eq!(p.kind, Some(String::from("gadget")));
    assert_eq!(p.price_cents, 1234);
    assert_eq!(p.description, Some(String::from("new words")));
    assert_eq!(cat.count(), 1);
}

#[test]
fn username_lookup_matches_exactly() {
    let rows = vec![customer(1, "ayaan"), customer(2, "blair")];
    assert!(username_taken(&rows, &String::from("ayaan")));
    assert!(username_taken(&rows, &String::from("blair")));
    assert!(!username_taken(&rows, &String::from("Blair")));
    assert!(!username_taken(&rows, &String::from("cleo")));
    let empty: Vec<Customer> = Vec::new();
    assert!(!username_taken(&empty, &String::from("ayaan")));
}

#[test]
fn stars_are_summed_and_counted_without_the_missing_ones() {
    let stars = vec![Some(5), None, Some(3), Some(4), None];
    assert_eq!(stars_summary(&stars), (12, 3));
    let none_given: Vec<Option<i32>> = vec![None, None];
    assert_eq!(stars_summary(&none_given), (0, 0));
    let empty: Vec<Option<i32>> = Vec::new();
    assert_eq!(stars_summary(&empty), (0, 0));
    let negative = vec![Some(-2), Some(2), Some(1)];
    assert_eq!(stars_summary(&negative), (1, 3));
}

#[test]
fn order_amounts_handle_large_carts() {
    let mut cat = Catalog::new();
    assert!(cat.insert_product(product(1, u32::MAX)));
    let mut cart = CartStore::new();
    let mut orders = OrderLog::new();
    for _ in 0..3 {
        cart.add_item(Some(9), 1, &cat).unwrap();
    }
    let order = checkout(&mut cart, &mut orders, Some(9), &cat, String::from("card"), 1).unwrap();
    assert_eq!(order.amount, 3 * (u32::MAX as u128));
}
