//! Records of the Whatsminer API.
use vstd::prelude::*;
use vstd::string::StrSliceExecFns;
use vstd::string::StringExecFns;
use crate::error::Error;
use crate::common::DevDetails;
use crate::status::StatusCode;

verus! {

/// The length of the log file.
#[derive(Debug, Clone, PartialEq, Eq)]
pub struct LogLen {
    pub logfilelen: String,
}

/// The answer to a log download request.
#[derive(Debug, Clone, PartialEq, Eq)]
pub struct LogsResponse {
    pub status: StatusCode,
    pub when: usize,
    pub code: usize,
    pub msg: Option<LogLen>,
    pub description: String,
}

/// A Whatsminer status block, whose `When` and `Code` may be missing.
#[derive(Debug, Clone, PartialEq, Eq)]
pub struct Status {
    pub status: StatusCode,
    pub when: Option<usize>,
    pub code: Option<usize>,
    pub msg: String,
    pub description: Option<String>,
}

/// The answer to `devdetails`.
#[derive(Debug, Clone, PartialEq, Eq)]
pub struct DevDetailsResp {
    pub status: Vec<Status>,
    pub devdetails: Vec<DevDetails>,
}

/// Network information and LED state.
#[derive(Debug, Clone, PartialEq, Eq)]
pub struct MinerInfo {
    pub ip: String,
    pub proto: String,
    pub netmask: String,
    pub dns: String,
    pub mac: String,
    pub ledstat: String,
    pub gateway: String,
}

/// The answer to `get_miner_info`.
#[derive(Debug, Clone, PartialEq, Eq)]
pub struct MinerInfoResponse {
    pub status: StatusCode,
    pub when: usize,
    pub code: usize,
    pub msg: MinerInfo,
    pub description: String,
}

/// Whether the mining process is stopped, and the firmware version.
#[derive(Debug, Clone, PartialEq, Eq)]
pub struct BtStatus {
    pub btmineroff: bool,
    pub firmware_version: String,
}

/// The answer to `status`.
#[derive(Debug, Clone, PartialEq, Eq)]
pub struct BtStatusResp {
    pub status: StatusCode,
    pub when: Option<usize>,
    pub code: Option<usize>,
    pub msg: BtStatus,
    pub description: Option<String>,
}

/// Reads a boolean that the API sends as the text `true` or `false`.
pub fn parse_bool_text(s: &str) -> (r: Option<bool>)
    ensures
        s@ == seq!['t', 'r', 'u', 'e'] ==> r == Some(true),
        s@ == seq!['f', 'a', 'l', 's', 'e'] ==> r == Some(false),
        s@ != seq!['t', 'r', 'u', 'e'] && s@ != seq!['f', 'a', 'l', 's', 'e'] ==> r is None,
{
    let n = s.unicode_len();
    if n == 4 && s.get_char(0) == 't' && s.get_char(1) == 'r' && s.get_char(2) == 'u' && s.get_char(3) == 'e' {
        assert(s@ =~= seq!['t', 'r', 'u', 'e']);
        return Some(true);
    }
    if n == 5 && s.get_char(0) == 'f' && s.get_char(1) == 'a' && s.get_char(2) == 'l' && s.get_char(3) == 's'
        && s.get_char(4) == 'e' {
        assert(s@ =~= seq!['f', 'a', 'l', 's', 'e']);
        return Some(false);
    }
    None
}

/// The pieces of `s` between `\n` characters, from the piece that started
/// at `start` and the scan at `i` on.
pub open spec fn split_from(s: Seq<char>, start: int, i: int) -> Seq<Seq<char>>
    decreases s.len() - i,
{
    if i >= s.len() {
        seq![s.subrange(start, s.len() as int)]
    } else if s[i] == '\n' {
        seq![s.subrange(start, i)] + split_from(s, i + 1, i + 1)
    } else {
        split_from(s, start, i + 1)
    }
}

/// The lines of a text split at each `\n`; a trailing `\n` leaves an empty
/// last line.
pub open spec fn split_lines(s: Seq<char>) -> Seq<Seq<char>> {
    split_from(s, 0, 0)
}

pub open spec fn strings_view(v: Seq<String>) -> Seq<Seq<char>> {
    v.map_values(|x: String| x@)
}

/// Splits a text at each `\n`.
pub fn split_newlines(text: &str) -> (r: Vec<String>)
    ensures
        strings_view(r@) == split_lines(text@),
{
    let n = text.unicode_len();
    let mut out: Vec<String> = Vec::new();
    let mut start: usize = 0;
    let mut i: usize = 0;
    while i < n
        invariant
            n == text@.len(),
            start <= i <= n,
            split_lines(text@) == strings_view(out@) + split_from(text@, start as int, i as int),
        decreases n - i,
    {
        if text.get_char(i) == '\n' {
            let line = String::from_str(text.substring_char(start, i));
            let ghost before = strings_view(out@);
            out.push(line);
            assert(strings_view(out@) =~= before.push(text@.subrange(start as int, i as int)));
            assert(before + split_from(text@, start as int, i as int) =~= strings_view(out@) + split_from(
                text@,
                i + 1,
                i + 1,
            ));
            start = i + 1;
        }
        i = i + 1;
    }
    let line = String::from_str(text.substring_char(start, n));
    let ghost before = strings_view(out@);
    out.push(line);
    assert(strings_view(out@) =~= before + split_from(text@, start as int, n as int));
    out
}

/// The lines of a log download: the status block must report success,
/// else the session was refused.
pub fn logs_from_answer(status: StatusCode, text: &str) -> (r: Result<Vec<String>, Error>)
    ensures
        status == StatusCode::SUCC ==> (r matches Ok(v) && strings_view(v@) == split_lines(text@)),
        status != StatusCode::SUCC ==> r == Err::<Vec<String>, Error>(Error::Unauthorized),
{
    if status == StatusCode::SUCC {
        Ok(split_newlines(text))
    } else {
        Err(Error::Unauthorized)
    }
}

/// The error codes a Whatsminer reports, each with the time it was raised,
/// in the order of the answer.
#[derive(Debug, Clone, PartialEq, Eq)]
pub struct ErrorData {
    pub error_code: Vec<(String, String)>,
}

/// The answer to `get_error_code`.
#[derive(Debug, Clone, PartialEq, Eq)]
pub struct ErrorResp {
    pub status: StatusCode,
    pub when: usize,
    pub code: usize,
    pub msg: ErrorData,
    pub description: String,
}

/// The texts of `v` joined by `\n`.
pub open spec fn join_lines(v: Seq<Seq<char>>) -> Seq<char>
    decreases v.len(),
{
    if v.len() == 0 {
        seq![]
    } else if v.len() == 1 {
        v[0]
    } else {
        join_lines(v.drop_last()) + seq!['\n'] + v.last()
    }
}

pub open spec fn code_keys(v: Seq<(String, String)>) -> Seq<Seq<char>> {
    v.map_values(|p: (String, String)| p.0@)
}

impl ErrorResp {
    /// The error codes one per line: the text the error rules are matched
    /// against.
    pub fn error_log(&self) -> (r: String)
        ensures
            r@ == join_lines(code_keys(self.msg.error_code@)),
    {
        let codes = &self.msg.error_code;
        let mut out = String::new();
        let mut k: usize = 0;
        while k < codes.len()
            invariant
                k <= codes@.len(),
                codes == &self.msg.error_code,
                out@ == join_lines(code_keys(codes@).subrange(0, k as int)),
            decreases codes@.len() - k,
        {
            let ghost before = code_keys(codes@).subrange(0, k as int);
            if k > 0 {
                out.append("\n");
            }
            out.append(codes[k].0.as_str());
            proof {
                reveal_strlit("\n");
                let next = code_keys(codes@).subrange(0, k + 1);
                assert(next.drop_last() =~= before);
                assert(next.last() == codes@[k as int].0@);
                if k == 0 {
                    assert(before =~= seq![]);
                    assert(out@ =~= join_lines(next));
                } else {
                    assert(out@ =~= join_lines(next));
                }
            }
            k = k + 1;
        }
        assert(code_keys(codes@).subrange(0, k as int) =~= code_keys(codes@));
        out
    }
}
} // verus!
