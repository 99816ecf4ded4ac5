//! An advertising-rewards ledger.
//!
//! Advertisers fund ads with a deposit, viewers earn reward currency for
//! watching them, and accrued reward currency can be converted back into the
//! base currency. Minting and burning are done by a token service that is
//! reached by request and answered by callback: every operation here either
//! decides what to request or applies the outcome of a request, and the host
//! carries the requests out.
//!
//! - [`pricing`] holds the formulas, [`arith`] the arithmetic under them.
//! - [`types`] holds the entities, the requests and the reasons for refusal.
//! - [`model`] describes the ledger as a mathematical value: its invariant,
//!   what each operation makes of it, and what holds of every state.
//! - [`ledger`] is the ledger itself, [`snapshot`] what a host stores of it
//!   between calls.
//! - [`keyed`] relates a sequence of entries to its index by key.

pub mod arith;
pub mod keyed;
pub mod ledger;
pub mod model;
pub mod pricing;
pub mod snapshot;
pub mod types;
