use furby::cart::CartStore;
use furby::catalog::Catalog;
use furby::errors::CartError;
use furby::models::Product;

fn product(id: i32, price_cents: u32) -> Product {
    Product {
        id,
        name: format!("product-{}", id),
        kind: None,
        price_cents,
        description: None,
    }
}

fn one_product_catalog(id: i32, price_cents: u32) -> Catalog {
    let mut cat = Catalog::new();
    assert!(cat.insert_product(product(id, price_cents)));
    cat
}

#[test]
fn add_creates_then_increments() {
    let cat = one_product_catalog(7, 999);
    let mut cart = CartStore::new();
    assert_eq!(cart.add_item(Some(1), 7, &cat), Ok(1));
    assert_eq!(cart.add_item(Some(1), 7, &cat), Ok(2));
    assert_eq!(cart.add_item(Some(1), 7, &cat), Ok(3));
    assert_eq!(cart.quantity(1, 7), 3);
}

#[test]
fn add_requires_authentication() {
    let cat = one_product_catalog(7, 999);
    let mut cart = CartStore::new();
    assert_eq!(cart.add_item(None, 7, &cat), Err(CartError::Unauthenticated));
    assert_eq!(cart.quantity(1, 7), 0);
}

#[test]
fn add_unknown_product_is_refused() {
    let cat = one_product_catalog(7, 999);
    let mut cart = CartStore::new();
    assert_eq!(cart.add_item(Some(1), 8, &cat), Err(CartError::ProductNotFound));
    assert_eq!(cart.quantity(1, 8), 0);
}

#[test]
fn remove_decrements_then_deletes() {
    let cat = one_product_catalog(7, 999);
    let mut cart = CartStore::new();
    assert_eq!(cart.add_item(Some(1), 7, &cat), Ok(1));
    assert_eq!(cart.add_item(Some(1), 7, &cat), Ok(2));
    assert_eq!(cart.remove_item(Some(1), 7), Ok(1));
    assert_eq!(cart.quantity(1, 7), 1);
    assert_eq!(cart.remove_item(Some(1), 7), Ok(0));
    assert_eq!(cart.quantity(1, 7), 0);
    // the line is gone, not kept at zero
    assert_eq!(cart.remove_item(Some(1), 7), Err(CartError::LineNotFound));
}

#[test]
fn remove_absent_line_fails_without_write() {
    let cat = one_product_catalog(7, 999);
    let mut cart = CartStore::new();
    assert_eq!(cart.add_item(Some(1), 7, &cat), Ok(1));
    // another product, another account: both absent lines
    assert_eq!(cart.remove_item(Some(1), 8), Err(CartError::LineNotFound));
    assert_eq!(cart.remove_item(Some(2), 7), Err(CartError::LineNotFound));
    assert_eq!(cart.remove_item(None, 7), Err(CartError::Unauthenticated));
    // nothing was written
    assert_eq!(cart.quantity(1, 7), 1);
    assert_eq!(cart.quantity(1, 8), 0);
    assert_eq!(cart.quantity(2, 7), 0);
    assert_eq!(cart.total(Some(1), &cat), Ok(999));
}

#[test]
fn adds_then_removes_cancel_out() {
    let cat = one_product_catalog(7, 999);
    let mut cart = CartStore::new();
    let n = 25;
    for k in 1..=n {
        assert_eq!(cart.add_item(Some(1), 7, &cat), Ok(k));
    }
    for k in (0..n).rev() {
        assert_eq!(cart.remove_item(Some(1), 7), Ok(k));
    }
    assert_eq!(cart.quantity(1, 7), 0);
    assert_eq!(cart.remove_item(Some(1), 7), Err(CartError::LineNotFound));
}

#[test]
fn serialized_adds_accumulate_exactly() {
    // every serialization of k concurrent adds is k serial adds; none is lost
    let cat = one_product_catalog(7, 999);
    let mut cart = CartStore::new();
    let k = 100;
    for _ in 0..k {
        cart.add_item(Some(1), 7, &cat).unwrap();
    }
    assert_eq!(cart.quantity(1, 7), k);
}

#[test]
fn carts_of_accounts_are_independent() {
    let mut cat = Catalog::new();
    assert!(cat.insert_product(product(7, 999)));
    assert!(cat.insert_product(product(8, 100)));
    let mut cart = CartStore::new();
    assert_eq!(cart.add_item(Some(1), 7, &cat), Ok(1));
    assert_eq!(cart.add_item(Some(2), 7, &cat), Ok(1));
    assert_eq!(cart.add_item(Some(2), 8, &cat), Ok(1));
    assert_eq!(cart.add_item(Some(2), 7, &cat), Ok(2));
    assert_eq!(cart.quantity(1, 7), 1);
    assert_eq!(cart.quantity(2, 7), 2);
    assert_eq!(cart.quantity(2, 8), 1);
    cart.clear(2);
    assert_eq!(cart.quantity(2, 7), 0);
    assert_eq!(cart.quantity(2, 8), 0);
    assert_eq!(cart.quantity(1, 7), 1);
}

#[test]
fn clear_is_idempotent() {
    let cat = one_product_catalog(7, 999);
    let mut cart = CartStore::new();
    assert_eq!(cart.add_item(Some(1), 7, &cat), Ok(1));
    cart.clear(1);
    assert_eq!(cart.quantity(1, 7), 0);
    // clearing an empty cart is a no-op success
    cart.clear(1);
    assert_eq!(cart.quantity(1, 7), 0);
    cart.clear(99);
    assert_eq!(cart.quantity(99, 7), 0);
}
