//! Decoding of marketplace event logs into typed events.

pub mod abi;
pub mod error;
pub mod event;
pub mod log;
pub mod payload;
pub mod schema;
pub mod value;
pub mod word;
