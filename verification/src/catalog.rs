//! The product catalog: the read-only price resolver the cart engine values
//! carts against. Cart totals always use the price the catalog holds at the
//! moment of the call ("live pricing"), never a price captured at add time.

use vstd::prelude::*;

use crate::models::Product;

verus! {

/// Products carry pairwise distinct identifiers.
pub open spec fn products_wf(s: Seq<Product>) -> bool {
    forall|i: int, j: int|
        0 <= i < s.len() && 0 <= j < s.len() && i != j ==> s[i].id != s[j].id
}

/// Whether the catalog holds a product with identifier `pid`.
pub open spec fn cat_has(s: Seq<Product>, pid: i32) -> bool {
    exists|i: int| 0 <= i < s.len() && s[i].id == pid
}

/// The index of the product with identifier `pid`; meaningful only when
/// `cat_has(s, pid)` holds and the identifiers are distinct.
pub open spec fn cat_index(s: Seq<Product>, pid: i32) -> int {
    choose|i: int| 0 <= i < s.len() && s[i].id == pid
}

/// The product record with identifier `pid`; meaningful only when
/// `cat_has(s, pid)` holds and the identifiers are distinct.
pub open spec fn cat_at(s: Seq<Product>, pid: i32) -> Product {
    s[cat_index(s, pid)]
}

/// The current unit price, in cents, of the product with identifier `pid`.
pub open spec fn cat_price(s: Seq<Product>, pid: i32) -> u32 {
    cat_at(s, pid).price_cents
}

/// Under distinct identifiers, any position holding `pid` is the position
/// `cat_at` and `cat_price` speak of.
pub proof fn lemma_cat_at_is_unique_match(s: Seq<Product>, pid: i32, i: int)
    requires
        products_wf(s),
        0 <= i < s.len(),
        s[i].id == pid,
    ensures
        cat_has(s, pid),
        cat_index(s, pid) == i,
        cat_at(s, pid) == s[i],
{
    assert(cat_has(s, pid));
    let j = cat_index(s, pid);
    assert(0 <= j < s.len() && s[j].id == pid);
    if i != j {
        assert(s[i].id != s[j].id);
    }
}

/// The product catalog the engine resolves prices through.
pub struct Catalog {
    products: Vec<Product>,
}

impl View for Catalog {
    type V = Seq<Product>;

    closed spec fn view(&self) -> Seq<Product> {
        self.products@
    }
}

impl Catalog {
    /// Identifiers are pairwise distinct; constructors establish this and
    /// every method preserves it.
    pub open spec fn wf(&self) -> bool {
        products_wf(self@)
    }

    /// An empty catalog.
    pub fn new() -> (c: Catalog)
        ensures
            c.wf(),
            c@ == Seq::<Product>::empty(),
    {
        Catalog { products: Vec::new() }
    }

    /// How many products the catalog holds.
    pub fn count(&self) -> (n: usize)
        ensures
            n == self@.len(),
    {
        self.products.len()
    }

    /// Appends `p` if its identifier is still free; returns whether it was
    /// inserted. A duplicate identifier leaves the catalog unchanged.
    pub fn insert_product(&mut self, p: Product) -> (inserted: bool)
        requires
            old(self).wf(),
        ensures
            final(self).wf(),
            inserted == !cat_has(old(self)@, p.id),
            inserted ==> final(self)@ == old(self)@.push(p),
            !inserted ==> final(self)@ == old(self)@,
    {
        let n = self.products.len();
        let mut i: usize = 0;
        while i < n
            invariant
                0 <= i <= n,
                n == self.products@.len(),
                *self == *old(self),
                old(self).wf(),
                forall|j: int| 0 <= j < i ==> self.products@[j].id != p.id,
            decreases n - i,
        {
            if self.products[i].id == p.id {
                return false;
            }
            i = i + 1;
        }
        self.products.push(p);
        true
    }

    /// Replaces every field but the identifier of the product `pid`; returns
    /// whether such a product existed. On `false` nothing changed.
    pub fn update_product(
        &mut self,
        pid: i32,
        name: String,
        kind: Option<String>,
        price_cents: u32,
        description: Option<String>,
    ) -> (updated: bool)
        requires
            old(self).wf(),
        ensures
            final(self).wf(),
            updated == cat_has(old(self)@, pid),
            updated ==> final(self)@ == old(self)@.update(
                cat_index(old(self)@, pid),
                Product { id: pid, name, kind, price_cents, description },
            ),
            !updated ==> final(self)@ == old(self)@,
    {
        let n = self.products.len();
        let mut i: usize = 0;
        while i < n
            invariant
                0 <= i <= n,
                n == self.products@.len(),
                *self == *old(self),
                old(self).wf(),
                forall|j: int| 0 <= j < i ==> self.products@[j].id != pid,
            decreases n - i,
        {
            if self.products[i].id == pid {
                proof {
                    lemma_cat_at_is_unique_match(self.products@, pid, i as int);
                }
                self.products.set(i, Product { id: pid, name, kind, price_cents, description });
                proof {
                    assert forall|x: int, y: int|
                        0 <= x < self.products@.len() && 0 <= y < self.products@.len() && x != y
                        implies self.products@[x].id != self.products@[y].id by {
                        assert(old(self)@[x].id == self.products@[x].id);
                        assert(old(self)@[y].id == self.products@[y].id);
                    }
                }
                return true;
            }
            i = i + 1;
        }
        false
    }

    /// The product record for `pid`, or `None` when the catalog has no such
    /// product.
    pub fn product_details(&self, pid: i32) -> (r: Option<Product>)
        requires
            self.wf(),
        ensures
            match r {
                Some(p) => cat_has(self@, pid) && p == cat_at(self@, pid),
                None => !cat_has(self@, pid),
            },
    {
        let n = self.products.len();
        let mut i: usize = 0;
        while i < n
            invariant
                0 <= i <= n,
                n == self.products@.len(),
                self.wf(),
                forall|j: int| 0 <= j < i ==> self.products@[j].id != pid,
            decreases n - i,
        {
            if self.products[i].id == pid {
                proof {
                    lemma_cat_at_is_unique_match(self@, pid, i as int);
                }
                return Some(self.products[i].clone());
            }
            i = i + 1;
        }
        None
    }

    /// The current unit price of `pid` in cents, or `None` when the catalog
    /// has no such product.
    pub fn price_of(&self, pid: i32) -> (r: Option<u32>)
        requires
            self.wf(),
        ensures
            match r {
                Some(c) => cat_has(self@, pid) && c == cat_price(self@, pid),
                None => !cat_has(self@, pid),
            },
    {
        match self.product_details(pid) {
            Some(p) => Some(p.price_cents),
            None => None,
        }
    }
}

} // verus!
