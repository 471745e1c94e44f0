//! The batch ledger and transaction engine of a point-of-sale inventory:
//! stock is kept per receipt batch, sales draw first-expired-first-out, and
//! every change of quantity leaves an entry in an append-only history.
pub mod ledger;
pub mod model;
pub mod plan;
pub mod schema;
pub mod transaction;
