pub mod book;
pub mod errors;
pub mod handlers;
pub mod laws;
pub mod ledger;
pub mod market;
pub mod models;
pub mod state;
pub mod username;
