//! A lifecycle engine for commercial payments and their refunds.
//!
//! `payment` and `refund` each hold the records of one kind, numbered in
//! the order in which they came, move them through their statuses, and
//! answer lookups by the parties involved. `index` is the append-only
//! index that both keep for those lookups, and `identity` names the
//! parties.
//!
//! The engine decides; it does not reach out. Who is calling, what time it
//! is, and whether tokens could be moved is for the caller to find out and
//! to hand in.

pub mod identity;
pub mod index;
pub mod payment;
pub mod refund;
