//! Records of the two Minerva web interfaces.
use vstd::prelude::*;
use vstd::string::StringExecFns;
use crate::common::Pool;

verus! {

/// The token of a login answer.
#[derive(Debug, Clone, PartialEq, Eq)]
pub struct AuthData {
    pub access_token: String,
}

/// A login answer.
#[derive(Debug, Clone, PartialEq, Eq)]
pub struct AuthResp {
    pub code: usize,
    pub data: AuthData,
    pub message: String,
}

/// The state of the identification LED.
#[derive(Debug, Clone, PartialEq, Eq)]
pub struct LedStatus {
    pub status: String,
}

/// The answer about the identification LED.
#[derive(Debug, Clone, PartialEq, Eq)]
pub struct LedResp {
    pub code: usize,
    pub data: LedStatus,
    pub message: String,
}

/// The answer with the log lines.
#[derive(Debug, Clone, PartialEq, Eq)]
pub struct LogResp {
    pub code: usize,
    pub data: Vec<String>,
    pub message: String,
}

/// A generic API answer.
#[derive(Debug, Clone, PartialEq, Eq)]
pub struct ApiResp {
    pub code: usize,
    pub message: String,
    pub data: Option<String>,
}

/// Network settings.
#[allow(non_snake_case)]
#[derive(Debug, Clone, PartialEq, Eq)]
pub struct Network {
    pub dhcp4: bool,
    pub dns: String,
    pub dnsBak: String,
    pub gateway: String,
    pub hardwareAddress: String,
    pub interfaceName: String,
    pub ip: String,
    pub netmask: String,
}

/// The answer with the network settings.
#[derive(Debug, Clone, PartialEq, Eq)]
pub struct NetworkResponse {
    pub code: usize,
    pub data: Network,
    pub message: String,
}

/// The three pools of a `changePool` request.
#[derive(Debug, Clone, PartialEq, Eq)]
pub struct SetPoolRequest<'a> {
    pub pool0url: &'a str,
    pub pool0user: &'a str,
    pub pool0pwd: &'a str,
    pub pool1url: &'a str,
    pub pool1user: &'a str,
    pub pool1pwd: &'a str,
    pub pool2url: &'a str,
    pub pool2user: &'a str,
    pub pool2pwd: &'a str,
}

/// The three configured pools.
#[derive(Debug, Clone, PartialEq, Eq)]
pub struct GetPools {
    pub pool1url: String,
    pub pool1user: String,
    pub pool2url: String,
    pub pool2user: String,
    pub pool3url: String,
    pub pool3user: String,
}

impl GetPools {
    /// The three configured pools, in priority order; this interface does
    /// not report passwords.
    pub fn to_pools(self) -> (r: Vec<Pool>)
        ensures
            r@.len() == 3,
            r@[0].url == self.pool1url && r@[0].username == self.pool1user && r@[0].password is None,
            r@[1].url == self.pool2url && r@[1].username == self.pool2user && r@[1].password is None,
            r@[2].url == self.pool3url && r@[2].username == self.pool3user && r@[2].password is None,
    {
        let mut v: Vec<Pool> = Vec::new();
        v.push(Pool { url: self.pool1url, username: self.pool1user, password: None });
        v.push(Pool { url: self.pool2url, username: self.pool2user, password: None });
        v.push(Pool { url: self.pool3url, username: self.pool3user, password: None });
        v
    }
}

/// The password a pool is written with: empty where it has none.
pub open spec fn password_text(p: Pool) -> Seq<char> {
    match p.password {
        Some(pw) => pw@,
        None => seq![],
    }
}

fn password_str(p: &Pool) -> (r: &str)
    ensures
        r@ == password_text(*p),
{
    match &p.password {
        Some(pw) => pw.as_str(),
        None => {
            proof {
                reveal_strlit("");
            }
            ""
        },
    }
}

impl<'a> SetPoolRequest<'a> {
    /// The `changePool` request for the first three pools of a list, or
    /// `None` where the list holds fewer than three.
    pub fn from_pools(pools: &'a Vec<Pool>) -> (r: Option<SetPoolRequest<'a>>)
        ensures
            pools@.len() < 3 <==> r is None,
            r matches Some(q) ==> q.pool0url@ == pools@[0].url@ && q.pool0user@ == pools@[0].username@
                && q.pool0pwd@ == password_text(pools@[0]) && q.pool1url@ == pools@[1].url@ && q.pool1user@
                == pools@[1].username@ && q.pool1pwd@ == password_text(pools@[1]) && q.pool2url@ == pools@[2].url@
                && q.pool2user@ == pools@[2].username@ && q.pool2pwd@ == password_text(pools@[2]),
    {
        if pools.len() < 3 {
            return None;
        }
        Some(SetPoolRequest {
            pool0url: pools[0].url.as_str(),
            pool0user: pools[0].username.as_str(),
            pool0pwd: password_str(&pools[0]),
            pool1url: pools[1].url.as_str(),
            pool1user: pools[1].username.as_str(),
            pool1pwd: password_str(&pools[1]),
            pool2url: pools[2].url.as_str(),
            pool2user: pools[2].username.as_str(),
            pool2pwd: password_str(&pools[2]),
        })
    }
}

/// The answer with the configured pools.
#[derive(Debug, Clone, PartialEq, Eq)]
pub struct GetPoolsResp {
    pub code: usize,
    pub data: GetPools,
    pub message: String,
}

/// Minera's network settings.
#[derive(Debug, Clone, PartialEq, Eq)]
pub struct Ifconfig {
    pub mac: String,
    pub mask: String,
    pub ip: String,
    pub gw: String,
    pub dns: String,
    pub dhcp: String,
}

/// The pool Minera is mining on.
#[derive(Debug, Clone, PartialEq, Eq)]
pub struct ActivePool {
    pub hashrate: usize,
    pub url: String,
    pub user: String,
    pub alive: u8,
}

/// The work mode mask that puts the hash boards to sleep (`0x0`) or wakes
/// all four (`0xf`).
pub fn sleep_mask(sleep: bool) -> (r: &'static str)
    ensures
        sleep ==> r@ == "0x0"@,
        !sleep ==> r@ == "0xf"@,
{
    if sleep {
        "0x0"
    } else {
        "0xf"
    }
}

/// Whether a work mode mask means that the device sleeps: every board off.
pub fn is_sleep_mask(mask: &str) -> (r: bool)
    ensures
        r == (mask@ == "0x0"@),
{
    let expected = String::from_str("0x0");
    let given = String::from_str(mask);
    given == expected
}

/// The form fields of a Minera pool update, in order: the save marker, then
/// each pool's URL, user and password (empty without one).
pub open spec fn pool_form(pools: Seq<Pool>) -> Seq<(Seq<char>, Seq<char>)>
    decreases pools.len(),
{
    if pools.len() == 0 {
        seq![("save_miner_pools"@, "1"@)]
    } else {
        let p = pools.last();
        pool_form(pools.drop_last()) + seq![
            ("pool_url[]"@, p.url@),
            ("pool_username[]"@, p.username@),
            ("pool_password[]"@, password_text(p)),
        ]
    }
}

pub open spec fn pairs_view(v: Seq<(String, String)>) -> Seq<(Seq<char>, Seq<char>)> {
    v.map_values(|p: (String, String)| (p.0@, p.1@))
}

/// Builds the multipart form fields of a Minera pool update.
pub fn pool_form_fields(pools: &Vec<Pool>) -> (r: Vec<(String, String)>)
    ensures
        pairs_view(r@) == pool_form(pools@),
{
    proof {
        reveal_strlit("save_miner_pools");
        reveal_strlit("1");
        reveal_strlit("pool_url[]");
        reveal_strlit("pool_username[]");
        reveal_strlit("pool_password[]");
    }
    let mut out: Vec<(String, String)> = Vec::new();
    out.push((String::from_str("save_miner_pools"), String::from_str("1")));
    assert(pairs_view(out@) =~= pool_form(pools@.subrange(0, 0)));
    let mut k: usize = 0;
    while k < pools.len()
        invariant
            k <= pools@.len(),
            pairs_view(out@) == pool_form(pools@.subrange(0, k as int)),
        decreases pools@.len() - k,
    {
        let p = &pools[k];
        let ghost before = pairs_view(out@);
        out.push((String::from_str("pool_url[]"), p.url.clone()));
        out.push((String::from_str("pool_username[]"), p.username.clone()));
        out.push((String::from_str("pool_password[]"), String::from_str(password_str(p))));
        assert(pools@.subrange(0, k + 1).drop_last() =~= pools@.subrange(0, k as int));
        assert(pools@.subrange(0, k + 1).last() == pools@[k as int]);
        assert(pairs_view(out@) =~= pool_form(pools@.subrange(0, k + 1)));
        k = k + 1;
    }
    assert(pools@.subrange(0, k as int) =~= pools@);
    out
}
} // verus!
