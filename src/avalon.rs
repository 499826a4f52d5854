//! Records of the Avalon cgminer API.
use vstd::prelude::*;
use vstd::string::StrSliceExecFns;
use vstd::string::StringExecFns;
use crate::classify::{captures_of, regex_captures};
use crate::error::Error;
use crate::status::{Status, StatusCode, StatusResp};

verus! {

/// The `version` block of an Avalon.
#[derive(Debug, Clone, PartialEq, Eq)]
pub struct Version {
    pub cgminer: String,
    pub api: String,
    pub stm8: String,
    pub prod: String,
    pub model: String,
    pub hwtype: String,
    pub swtype: String,
    pub version: String,
    pub loader: String,
    pub dna: String,
    pub mac: String,
    pub upapi: String,
}

/// The answer to `version`.
#[derive(Debug, Clone, PartialEq, Eq)]
pub struct VersionResp {
    pub status: [Status; 1],
    pub version: Option<Vec<Version>>,
}

/// The first `n` characters of `s` with a colon before each pair but the
/// first.
pub open spec fn with_colons(s: Seq<char>, n: int) -> Seq<char>
    decreases n,
{
    if n <= 0 {
        seq![]
    } else {
        let i = n - 1;
        with_colons(s, i) + (if i % 2 == 0 && i != 0 { seq![':'] } else { seq![] }) + seq![s[i]]
    }
}

/// The value of a text of decimal digits read from the left, or `None`
/// where a character is not a digit.
pub open spec fn digits_value(s: Seq<char>) -> Option<int>
    decreases s.len(),
{
    if s.len() == 0 {
        Some(0)
    } else {
        match digits_value(s.drop_last()) {
            Some(v) => if '0' <= s.last() <= '9' {
                Some(v * 10 + (s.last() as int - '0' as int))
            } else {
                None
            },
            None => None,
        }
    }
}

/// Reads a non-empty text of decimal digits that fits a `u64`.
fn parse_decimal_text(t: &str) -> (r: Option<u64>)
    ensures
        r matches Some(v) ==> t@.len() > 0 && digits_value(t@) == Some(v as int),
        r is None ==> t@.len() == 0 || digits_value(t@) is None || digits_value(t@)->0 > u64::MAX,
{
    let n = t.unicode_len();
    if n == 0 {
        return None;
    }
    let mut v: u64 = 0;
    let mut i: usize = 0;
    while i < n
        invariant
            n == t@.len(),
            i <= n,
            digits_value(t@.subrange(0, i as int)) == Some(v as int),
        decreases n - i,
    {
        let c = t.get_char(i);
        assert(t@.subrange(0, i + 1).drop_last() =~= t@.subrange(0, i as int));
        if c < '0' || c > '9' {
            proof {
                lemma_digits_prefix(t@, i + 1);
            }
            return None;
        }
        let d = (c as u32 - '0' as u32) as u64;
        if v > (u64::MAX - d) / 10 {
            proof {
                lemma_digits_grow(t@, i + 1);
            }
            return None;
        }
        v = v * 10 + d;
        i = i + 1;
    }
    assert(t@.subrange(0, n as int) =~= t@);
    Some(v)
}

/// A prefix whose value is missing leaves the whole text without one.
proof fn lemma_digits_prefix(s: Seq<char>, k: int)
    requires
        0 <= k <= s.len(),
        digits_value(s.subrange(0, k)) is None,
    ensures
        digits_value(s) is None,
    decreases s.len() - k,
{
    if k < s.len() {
        assert(s.subrange(0, k + 1).drop_last() =~= s.subrange(0, k));
        lemma_digits_prefix(s, k + 1);
    } else {
        assert(s.subrange(0, k) =~= s);
    }
}

/// A text's value is at least that of each of its prefixes.
proof fn lemma_digits_grow(s: Seq<char>, k: int)
    requires
        0 <= k <= s.len(),
        digits_value(s.subrange(0, k)) is Some,
    ensures
        digits_value(s) is None || digits_value(s)->0 >= digits_value(s.subrange(0, k))->0,
    decreases s.len() - k,
{
    if k < s.len() {
        assert(s.subrange(0, k + 1).drop_last() =~= s.subrange(0, k));
        lemma_digits_nonneg(s.subrange(0, k));
        if digits_value(s.subrange(0, k + 1)) is Some {
            lemma_digits_grow(s, k + 1);
        } else {
            lemma_digits_prefix(s, k + 1);
        }
    } else {
        assert(s.subrange(0, k) =~= s);
    }
}

proof fn lemma_digits_nonneg(s: Seq<char>)
    ensures
        digits_value(s) matches Some(v) ==> v >= 0,
    decreases s.len(),
{
    if s.len() > 0 {
        lemma_digits_nonneg(s.drop_last());
    }
}

/// The hashrate pattern: the number after the dash of `1246-81`.
pub const HASHRATE_PATTERN: &'static str = "(?:[\\d\\w]+)-(\\d+)";

/// The model pattern: the name before the dash of `1246-81`.
pub const MODEL_PATTERN: &'static str = "([\\w\\d]+)-(?:\\d+)";

impl Version {
    /// The rated hashrate in TH/s: the number after the dash in `MODEL`.
    pub fn hashrate_th(&self) -> (r: Result<u64, Error>)
        ensures
            r matches Ok(h) ==> (captures_of(HASHRATE_PATTERN@, self.model@) matches Some(g) && g.len() > 1
                && (g[1] matches Some(t) && digits_value(t) == Some(h as int))),
            r is Err ==> r == Err::<u64, Error>(Error::InvalidResponse),
            (captures_of(HASHRATE_PATTERN@, self.model@) matches Some(g) && g.len() > 1 && (g[1] matches Some(t)
                && t.len() > 0 && (digits_value(t) matches Some(v) && v <= u64::MAX))) ==> r is Ok,
    {
        let caps = match regex_captures(HASHRATE_PATTERN, self.model.as_str()) {
            Some(c) => c,
            None => {
                return Err(Error::InvalidResponse);
            },
        };
        if caps.len() < 2 {
            return Err(Error::InvalidResponse);
        }
        match &caps[1] {
            Some(t) => match parse_decimal_text(t.as_str()) {
                Some(h) => Ok(h),
                None => Err(Error::InvalidResponse),
            },
            None => Err(Error::InvalidResponse),
        }
    }

    /// The MAC address with a colon between each pair of digits.
    pub fn mac_addr(&self) -> (r: String)
        ensures
            r@ == with_colons(self.mac@, self.mac@.len() as int),
    {
        let s = self.mac.as_str();
        let n = s.unicode_len();
        let mut acc = String::new();
        let mut i: usize = 0;
        while i < n
            invariant
                i <= n,
                n == s@.len(),
                s@ == self.mac@,
                acc@ == with_colons(s@, i as int),
            decreases n - i,
        {
            if i % 2 == 0 && i != 0 {
                acc.append(":");
            }
            acc.append(s.substring_char(i, i + 1));
            proof {
                reveal_strlit(":");
            }
            assert(acc@ =~= with_colons(s@, i + 1));
            i = i + 1;
        }
        acc
    }

    /// The model name: the first group of the model pattern in `MODEL`.
    pub fn model(&self) -> (r: Result<String, Error>)
        ensures
            r matches Ok(m) ==> captures_of(MODEL_PATTERN@, self.model@) matches Some(g) && g.len() > 1 && g[1]
                == Some(m@),
            r is Err ==> r == Err::<String, Error>(Error::InvalidResponse),
            (captures_of(MODEL_PATTERN@, self.model@) matches Some(g) && g.len() > 1 && g[1] is Some) ==> r is Ok,
    {
        let caps = match regex_captures(MODEL_PATTERN, self.model.as_str()) {
            Some(c) => c,
            None => {
                return Err(Error::InvalidResponse);
            },
        };
        if caps.len() < 2 {
            return Err(Error::InvalidResponse);
        }
        match &caps[1] {
            Some(m) => Ok(m.clone()),
            None => Err(Error::InvalidResponse),
        }
    }
}


/// The reply status of a command: `code` is the success, any other status
/// carries the device's message as it came.
pub fn expect_status(resp: &StatusResp, code: StatusCode) -> (r: Result<(), Error>)
    ensures
        resp.status[0].status == code ==> r is Ok,
        resp.status[0].status != code ==> (r matches Err(Error::ApiCallFailed(m)) && m@ == resp.status[0].msg@),
{
    if resp.status[0].status == code {
        Ok(())
    } else {
        Err(Error::ApiCallFailed(resp.status[0].msg.clone()))
    }
}

/// The pattern of the six power supply readings.
pub const PS_PATTERN: &'static str = "PS\\[(\\d+) (\\d+) (\\d+) (\\d+) (\\d+) (\\d+)\\]";

/// The pattern of the power supply block in an `ascset` reply.
pub const PS_STATUS_PATTERN: &'static str = "ASC \\d+ set info: (PS\\[\\d+ \\d+ \\d+ \\d+ \\d+ \\d+\\])";

/// The pattern of the identification LED state in an `ascset` reply.
pub const LED_PATTERN: &'static str = "LED\\[(\\d)\\]";

/// The power supply readings of an Avalon. Voltages are in hundredths of a
/// volt, as the device sends them.
#[derive(Debug, Clone, Copy, PartialEq, Eq, Structural)]
pub struct PowerSupplyInfo {
    pub err: u32,
    pub volt_cntrl: u32,
    pub volt_hash: u32,
    pub current: u32,
    pub power: u32,
    pub set_volt_hash: u32,
}

/// Whether group `i` of the captures is a number that fits a `u32`.
pub open spec fn u32_group(g: Seq<Option<Seq<char>>>, i: int) -> Option<u32> {
    if 0 <= i < g.len() && (g[i] matches Some(t) && t.len() > 0 && (digits_value(t) matches Some(v)
        && v <= u32::MAX)) {
        Some(digits_value(g[i]->0)->0 as u32)
    } else {
        None
    }
}

/// The readings that the six groups of a `PS[...]` match hold.
pub open spec fn ps_readings(g: Seq<Option<Seq<char>>>) -> Option<PowerSupplyInfo> {
    if u32_group(g, 1) is Some && u32_group(g, 2) is Some && u32_group(g, 3) is Some && u32_group(g, 4) is Some
        && u32_group(g, 5) is Some && u32_group(g, 6) is Some {
        Some(
            PowerSupplyInfo {
                err: u32_group(g, 1)->0,
                volt_cntrl: u32_group(g, 2)->0,
                volt_hash: u32_group(g, 3)->0,
                current: u32_group(g, 4)->0,
                power: u32_group(g, 5)->0,
                set_volt_hash: u32_group(g, 6)->0,
            },
        )
    } else {
        None
    }
}

/// Reads capture group `i` as a `u32`.
fn group_u32(caps: &Vec<Option<String>>, i: usize) -> (r: Option<u32>)
    ensures
        r == u32_group(crate::classify::groups_view(caps@), i as int),
{
    if i >= caps.len() {
        return None;
    }
    match &caps[i] {
        Some(t) => match parse_decimal_text(t.as_str()) {
            Some(v) => {
                if v <= u32::MAX as u64 {
                    Some(v as u32)
                } else {
                    None
                }
            },
            None => None,
        },
        None => None,
    }
}

impl PowerSupplyInfo {
    /// The readings in the order the device sends them.
    pub fn from_values(v: [u32; 6]) -> (r: PowerSupplyInfo)
        ensures
            r == (PowerSupplyInfo {
                err: v[0],
                volt_cntrl: v[1],
                volt_hash: v[2],
                current: v[3],
                power: v[4],
                set_volt_hash: v[5],
            }),
    {
        PowerSupplyInfo {
            err: v[0],
            volt_cntrl: v[1],
            volt_hash: v[2],
            current: v[3],
            power: v[4],
            set_volt_hash: v[5],
        }
    }

    /// Reads the readings from a `PS[a b c d e f]` text.
    pub fn from_text(input: &str) -> (r: Result<PowerSupplyInfo, Error>)
        ensures
            r matches Ok(p) ==> (captures_of(PS_PATTERN@, input@) matches Some(g) && ps_readings(g) == Some(p)),
            (captures_of(PS_PATTERN@, input@) matches Some(g) && ps_readings(g) is Some) ==> r is Ok,
            r is Err ==> r == Err::<PowerSupplyInfo, Error>(Error::InvalidResponse),
    {
        let caps = match regex_captures(PS_PATTERN, input) {
            Some(c) => c,
            None => {
                return Err(Error::InvalidResponse);
            },
        };
        let a = group_u32(&caps, 1);
        let b = group_u32(&caps, 2);
        let c = group_u32(&caps, 3);
        let d = group_u32(&caps, 4);
        let e = group_u32(&caps, 5);
        let f = group_u32(&caps, 6);
        match (a, b, c, d, e, f) {
            (Some(a), Some(b), Some(c), Some(d), Some(e), Some(f)) => Ok(
                PowerSupplyInfo { err: a, volt_cntrl: b, volt_hash: c, current: d, power: e, set_volt_hash: f },
            ),
            _ => Err(Error::InvalidResponse),
        }
    }

    /// Reads the readings from an `ascset` reply: its status must be `I`,
    /// and its message must hold a `PS[...]` block.
    pub fn from_status(status: &StatusResp) -> (r: Result<PowerSupplyInfo, Error>)
        ensures
            status.status[0].status != StatusCode::INFO ==> (r matches Err(Error::ApiCallFailed(m)) && m@
                == status.status[0].msg@),
            r matches Ok(p) ==> (captures_of(PS_STATUS_PATTERN@, status.status[0].msg@) matches Some(g) && g.len()
                > 1 && (g[1] matches Some(t) && (captures_of(PS_PATTERN@, t) matches Some(h) && ps_readings(h)
                == Some(p)))),
            (status.status[0].status == StatusCode::INFO && (captures_of(PS_STATUS_PATTERN@, status.status[0].msg@)
                matches Some(g) && g.len() > 1 && (g[1] matches Some(t) && (captures_of(PS_PATTERN@, t) matches Some(
                h) && ps_readings(h) is Some)))) ==> r is Ok,
    {
        expect_status(status, StatusCode::INFO)?;
        let caps = match regex_captures(PS_STATUS_PATTERN, status.status[0].msg.as_str()) {
            Some(c) => c,
            None => {
                return Err(Error::InvalidResponse);
            },
        };
        if caps.len() < 2 {
            return Err(Error::InvalidResponse);
        }
        match &caps[1] {
            Some(t) => Self::from_text(t.as_str()),
            None => Err(Error::InvalidResponse),
        }
    }

    /// The command that reads the power supply.
    pub fn get_cmd() -> (r: &'static str)
        ensures
            r@ == "{\"command\":\"ascset\",\"parameter\":\"0,hashpower\"}"@,
    {
        "{\"command\":\"ascset\",\"parameter\":\"0,hashpower\"}"
    }

    /// The command that switches the hash power off (sleep) or on.
    pub fn set_cmd(sleep: bool) -> (r: &'static str)
        ensures
            sleep ==> r@ == "{\"command\":\"ascset\",\"parameter\":\"0,hashpower,0\"}"@,
            !sleep ==> r@ == "{\"command\":\"ascset\",\"parameter\":\"0,hashpower,1\"}"@,
    {
        if sleep {
            "{\"command\":\"ascset\",\"parameter\":\"0,hashpower,0\"}"
        } else {
            "{\"command\":\"ascset\",\"parameter\":\"0,hashpower,1\"}"
        }
    }
}

/// Whether the identification LED is on, from the reply to the LED query:
/// the status must be `I`, and the `LED[n]` digit is non-zero.
pub fn led_from_status(status: &StatusResp) -> (r: Result<bool, Error>)
    ensures
        status.status[0].status != StatusCode::INFO ==> (r matches Err(Error::ApiCallFailed(m)) && m@
            == status.status[0].msg@),
        r matches Ok(b) ==> (captures_of(LED_PATTERN@, status.status[0].msg@) matches Some(g) && g.len() > 1 && (
        g[1] matches Some(t) && (digits_value(t) matches Some(v) && b == (v > 0)))),
        r is Err && status.status[0].status == StatusCode::INFO ==> r == Err::<bool, Error>(Error::InvalidResponse),
        (status.status[0].status == StatusCode::INFO && (captures_of(LED_PATTERN@, status.status[0].msg@) matches Some(
            g) && g.len() > 1 && (g[1] matches Some(t) && t.len() > 0 && (digits_value(t) matches Some(v) && v
            <= u64::MAX)))) ==> r is Ok,
{
    expect_status(status, StatusCode::INFO)?;
    let caps = match regex_captures(LED_PATTERN, status.status[0].msg.as_str()) {
        Some(c) => c,
        None => {
            return Err(Error::InvalidResponse);
        },
    };
    if caps.len() < 2 {
        return Err(Error::InvalidResponse);
    }
    match &caps[1] {
        Some(t) => match parse_decimal_text(t.as_str()) {
            Some(v) => {
                proof {
                    lemma_digits_nonneg(t@);
                }
                Ok(v > 0)
            },
            None => Err(Error::InvalidResponse),
        },
        None => Err(Error::InvalidResponse),
    }
}
} // verus!
