//! The status block that every cgminer-style answer carries.
use vstd::prelude::*;
use vstd::string::StrSliceExecFns;

verus! {

/// The one-letter status of an answer.
#[derive(Debug, Clone, Copy, PartialEq, Eq, Structural)]
pub enum StatusCode {
    WARN,
    INFO,
    SUCC,
    ERROR,
    FATAL,
}

/// The status code that a letter stands for.
pub open spec fn status_of(s: Seq<char>) -> Option<StatusCode> {
    if s == seq!['W'] {
        Some(StatusCode::WARN)
    } else if s == seq!['I'] {
        Some(StatusCode::INFO)
    } else if s == seq!['S'] {
        Some(StatusCode::SUCC)
    } else if s == seq!['E'] {
        Some(StatusCode::ERROR)
    } else if s == seq!['F'] {
        Some(StatusCode::FATAL)
    } else {
        None
    }
}

impl StatusCode {
    /// Reads a status letter (`W`, `I`, `S`, `E` or `F`).
    pub fn from_code(s: &str) -> (r: Option<StatusCode>)
        ensures
            r == status_of(s@),
    {
        if s.unicode_len() != 1 {
            assert(s@ != seq!['W'] && s@ != seq!['I'] && s@ != seq!['S'] && s@ != seq!['E'] && s@ != seq!['F']);
            return None;
        }
        let c = s.get_char(0);
        assert(s@ =~= seq![c]);
        if c == 'W' {
            Some(StatusCode::WARN)
        } else if c == 'I' {
            Some(StatusCode::INFO)
        } else if c == 'S' {
            Some(StatusCode::SUCC)
        } else if c == 'E' {
            Some(StatusCode::ERROR)
        } else if c == 'F' {
            Some(StatusCode::FATAL)
        } else {
            None
        }
    }
}

/// The status block of an answer.
#[derive(Debug, Clone, PartialEq, Eq)]
pub struct Status {
    pub status: StatusCode,
    pub when: usize,
    pub code: usize,
    pub msg: String,
    pub description: Option<String>,
}

/// An answer that holds only its status block.
#[derive(Debug, Clone, PartialEq, Eq)]
pub struct StatusResp {
    pub status: [Status; 1],
}

} // verus!
