//! Records shared by the cgminer socket API of several vendors.
use vstd::prelude::*;
use crate::status::Status;

verus! {

/// One upstream mining pool; the position in a list is its priority.
#[derive(Debug, Clone, PartialEq, Eq)]
pub struct Pool {
    pub url: String,
    pub username: String,
    pub password: Option<String>,
}

impl Pool {
    /// A pool with empty URL and user and no password.
    pub fn new() -> (r: Pool)
        ensures
            r.url@.len() == 0,
            r.username@.len() == 0,
            r.password is None,
    {
        Pool { url: String::new(), username: String::new(), password: None }
    }
}

impl Default for Pool {
    fn default() -> (r: Pool)
        ensures
            r.url@.len() == 0,
            r.username@.len() == 0,
            r.password is None,
    {
        Pool::new()
    }
}

/// The `ascidentify` count.
#[derive(Debug, Clone, PartialEq, Eq)]
pub struct AscIdentify {
    pub count: usize,
}

/// The answer to `ascidentify`.
#[derive(Debug, Clone, PartialEq, Eq)]
pub struct AscIdentifyResp {
    pub status: [Status; 1],
    pub ascs: [AscIdentify; 1],
}

/// One device of a `devdetails` answer.
#[derive(Debug, Clone, PartialEq, Eq)]
pub struct DevDetails {
    pub devdetails: usize,
    pub name: String,
    pub id: usize,
    pub driver: String,
    pub kernel: String,
    pub model: String,
    pub device_path: Option<String>,
}

/// The answer to `devdetails`.
#[derive(Debug, Clone, PartialEq, Eq)]
pub struct DevDetailsResp {
    pub status: Vec<Status>,
    pub devdetails: Vec<DevDetails>,
}

/// A flag that firmware sends either as a number or as a boolean.
#[derive(Debug, Clone, Copy, PartialEq, Eq, Structural)]
pub enum Bool {
    U8(u8),
    BOOL(bool),
}

/// The Antminer block of a `stats` answer, with its model and version.
#[derive(Debug, Clone, PartialEq, Eq)]
pub struct AmVersion {
    pub bmminer: String,
    pub miner: String,
    pub compile_time: String,
    pub type_: String,
}

} // verus!
