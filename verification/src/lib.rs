//! Verified core of a small replicated key-value server.
pub mod text;
pub mod store;
pub mod assoc;
pub mod records;
pub mod error;
pub mod master2slave;
pub mod regex_api;
pub mod aofmgr;
pub mod ping;
pub mod proxy2master;
pub mod proxy2slave;
pub mod slave2master;
pub mod client2proxy;
pub mod client;
