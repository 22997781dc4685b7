pub mod batch;
pub mod bridge;
pub mod checks;
pub mod error;
pub mod freeze;
pub mod hooks;
pub mod ledger;
pub mod math;
pub mod msg;
pub mod notify;
pub mod operator;
pub mod query;
pub mod strutil;
pub mod logo;
pub mod state;
