//! Cart and checkout transaction engine for a small shop backend.
//!
//! The crate verifies the state the shop's handlers compute over: per-account
//! cart lines with quantity accounting, a read-only product catalog used to
//! value carts at their current prices, and the checkout step that converts a
//! cart into one immutable order while clearing the cart in the same call.
//! HTTP routing, session handling and the relational store live outside this
//! library; they hand in plain values (a resolved account identifier or
//! `None` for an anonymous caller) and apply the returned state under one
//! lock per operation, which gives each operation here the atomicity its
//! contract states.

pub mod cart;
pub mod catalog;
pub mod checkout;
pub mod errors;
pub mod laws;
pub mod models;
pub mod orders;
pub mod ratings;
