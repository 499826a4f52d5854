//! Records of the Antminer CGI interface.
use vstd::prelude::*;
use crate::status::StatusCode;

verus! {

/// The status block of a CGI answer.
#[derive(Debug, Clone, PartialEq, Eq)]
pub struct Status {
    pub status: StatusCode,
    pub when: usize,
    pub msg: String,
    pub api_version: String,
}

/// Firmware information that CGI answers carry.
#[derive(Debug, Clone, PartialEq, Eq)]
pub struct CgiInfo {
    pub compile_time: String,
    pub miner_version: String,
    pub type_: String,
}

/// The answer to a configuration write.
#[derive(Debug, Clone, PartialEq, Eq)]
pub struct CgiPostResp {
    pub code: String,
}

/// One pool as `pools.cgi` reports it.
#[derive(Debug, Clone, PartialEq, Eq)]
pub struct PoolStat {
    pub accepted: usize,
    pub diff: String,
    pub diff1: usize,
    pub diffa: usize,
    pub diffr: usize,
    pub diffs: usize,
    pub discarded: usize,
    pub getworks: usize,
    pub index: usize,
    pub lsdiff: usize,
    pub lstime: String,
    pub priority: usize,
    pub rejected: usize,
    pub stale: usize,
    pub status: String,
    pub url: String,
    pub user: String,
}

/// The answer of `pools.cgi`.
#[derive(Debug, Clone, PartialEq, Eq)]
pub struct PoolsResponse {
    pub info: CgiInfo,
    pub pools: Vec<PoolStat>,
    pub status: Status,
}

/// One status line of a summary.
#[derive(Debug, Clone, PartialEq, Eq)]
pub struct StatusSummary {
    pub type_: String,
    pub status: String,
    pub code: i32,
    pub msg: String,
}

/// The answer of `get_system_info.cgi`.
#[derive(Debug, Clone, PartialEq, Eq)]
pub struct SystemInfoResponse {
    pub minertype: String,
    pub nettype: String,
    pub netdevice: String,
    pub macaddr: String,
    pub hostname: String,
    pub ipaddress: String,
    pub netmask: String,
    pub gateway: String,
    pub dnsservers: String,
    pub system_mode: String,
    pub system_kernel_version: String,
    pub system_filesystem_version: String,
    pub firmware_type: String,
}

} // verus!
