//! Read-side introspection of a component's holdings on a ledger: walks the
//! component's state, its key-value stores and the vaults they own, and reports
//! which resource each vault holds and what it holds of it. Around it stands a
//! small test environment that keeps users and packages by name.
pub mod env;
pub mod holdings;
pub mod ledger;
pub mod query;
pub mod receipt;
pub mod state;
pub mod transaction;
