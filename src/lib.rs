//! Reconciles on-disk schema migrations with a ledger of applied ones.
pub mod cli;
pub mod engine;
pub mod ledger;
pub mod order;
pub mod runs;
pub mod scaffold;
pub mod script;
