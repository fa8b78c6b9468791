//! A small key-value store spoken to over a line-oriented request protocol,
//! with per-key expiry and whole-snapshot persistence.
pub mod storage;
pub mod protocol;
pub mod dispatch;
