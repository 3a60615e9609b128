//! The failure taxonomy of the cart and checkout engine.

use vstd::prelude::*;

verus! {

/// Why a cart or checkout operation was refused.
///
/// Every operation of the engine reports exactly one of these; the caller
/// maps them onto its own protocol (the HTTP layer uses 401 for
/// `Unauthenticated`, 404 for `ProductNotFound` and `LineNotFound`, and 500
/// for `InconsistentCart`).
#[derive(Clone, Copy, Debug, PartialEq, Eq, Structural)]
pub enum CartError {
    /// The caller presented no resolved account: the operation needs a
    /// logged-in user and nothing was read or written.
    Unauthenticated,
    /// A product identifier did not resolve against the catalog.
    ProductNotFound,
    /// `remove_item` found no cart line for the given account and product.
    LineNotFound,
    /// A cart line refers to a product the catalog no longer holds; the
    /// listing is refused rather than fabricated.
    InconsistentCart,
}

} // verus!
