//! The data model: transactions, accounts and the registry that holds them.
pub mod account;
pub mod registry;
pub mod transaction;
