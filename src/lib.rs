//! Control-plane client logic for ASIC mining hardware: a decoder for the
//! bracketed cgminer text grammar, salted MD5 crypt, the encrypted session
//! envelope, per-field response caches and vendor detection decisions.
pub mod antminer;
pub mod avalon;
pub mod auth;
pub mod cache;
pub mod classify;
pub mod common;
pub mod crypt;
pub mod detect;
pub mod error;
pub mod minerva;
pub mod roundtrip;
pub mod session;
pub mod status;
pub mod whatsminer;
pub mod wire;
