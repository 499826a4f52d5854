//! Vendor detection: the decisions taken on the answers of the socket probe
//! and of the HTTP probes. The probes themselves are the caller's.
use vstd::prelude::*;
use vstd::string::StrSliceExecFns;
use crate::error::Error;
use crate::status::StatusCode;

verus! {

/// The control port that the socket probe uses when none is given.
pub const DEFAULT_PORT: u16 = 4028;

/// The vendor families this library can drive.
#[derive(Debug, Clone, Copy, PartialEq, Eq, Structural)]
pub enum Vendor {
    Antminer,
    Avalon,
    /// Minerva with its own web interface.
    Minerva,
    /// Minerva running the Minera interface.
    Minera,
    Whatsminer,
}

/// What one entry of a `stats` answer says about the device.
#[derive(Debug, Clone, PartialEq, Eq)]
pub enum StatMarker {
    /// An Antminer version block.
    AmVersion,
    /// A device block with its `Type`, if any.
    Dev(Option<String>),
    /// Any other block.
    Other,
}

/// The answer of the socket probe, as the caller parsed it.
#[derive(Debug, Clone, PartialEq, Eq)]
pub enum SocketAnswer {
    /// Nothing came back (refused, timed out, closed).
    Failed,
    /// A `stats` answer.
    Stats { status: StatusCode, msg: String, markers: Option<Vec<StatMarker>> },
    /// A bare status block.
    StatusOnly { status: StatusCode, code: usize, description: Option<String> },
    /// Something that is neither.
    Unparsed,
}

/// What the socket probe concludes.
#[derive(Debug, Clone, PartialEq, Eq)]
pub enum SocketVerdict {
    Found(Vendor),
    /// A Minerva: `GET /index.php` tells its interface.
    ProbeMinervaInterface,
    Fail(Error),
}

/// The lower-case form of a text.
pub uninterp spec fn lower_of(s: Seq<char>) -> Seq<char>;

/// Relies on str::to_lowercase: the lower-case form of the text, which
/// depends on its characters alone.
#[verifier::external_body]
fn lowercase(s: &str) -> (r: String)
    ensures
        r@ == lower_of(s@),
{
    s.to_lowercase()
}

/// Whether a regular expression compiles and matches somewhere in a text.
pub uninterp spec fn regex_matches(pattern: Seq<char>, text: Seq<char>) -> bool;

/// Relies on regex::Regex (as lazy_regex re-exports it): `new` compiles the
/// pattern and `is_match` tells whether it matches somewhere in the text; a
/// pattern that does not compile matches nothing.
#[verifier::external_body]
fn regex_is_match(pattern: &str, text: &str) -> (r: bool)
    ensures
        r == regex_matches(pattern@, text@),
{
    match lazy_regex::Regex::new(pattern) {
        Ok(re) => re.is_match(text),
        Err(_) => false,
    }
}

/// Whether `needle` occurs in `hay` at `i`.
pub open spec fn occurs_at(hay: Seq<char>, needle: Seq<char>, i: int) -> bool {
    0 <= i && i + needle.len() <= hay.len() && hay.subrange(i, i + needle.len()) == needle
}

/// Whether `needle` occurs in `hay`.
pub open spec fn contains(hay: Seq<char>, needle: Seq<char>) -> bool {
    exists|i: int| occurs_at(hay, needle, i)
}

/// Whether `needle` occurs in `hay`.
pub fn text_contains(hay: &str, needle: &str) -> (r: bool)
    ensures
        r == contains(hay@, needle@),
{
    let n = hay.unicode_len();
    let m = needle.unicode_len();
    if m > n {
        assert forall|i: int| !occurs_at(hay@, needle@, i) by {}
        return false;
    }
    let mut i: usize = 0;
    while i <= n - m
        invariant
            n == hay@.len(),
            m == needle@.len(),
            m <= n,
            i <= n - m + 1,
            forall|j: int| 0 <= j < i ==> !occurs_at(hay@, needle@, j),
        decreases n - m + 1 - i,
    {
        let mut k: usize = 0;
        let mut same = true;
        while k < m
            invariant
                n == hay@.len(),
                m == needle@.len(),
                i + m <= n,
                k <= m,
                same == (forall|t: int| 0 <= t < k ==> hay@[i + t] == needle@[t]),
            decreases m - k,
        {
            if hay.get_char(i + k) != needle.get_char(k) {
                same = false;
            }
            k = k + 1;
        }
        if same {
            assert(hay@.subrange(i as int, i + m) =~= needle@);
            assert(occurs_at(hay@, needle@, i as int));
            return true;
        }
        assert(!occurs_at(hay@, needle@, i as int)) by {
            if hay@.subrange(i as int, i + m) == needle@ {
                assert forall|t: int| 0 <= t < m implies hay@[i + t] == needle@[t] by {
                    assert(hay@.subrange(i as int, i + m)[t] == hay@[i + t]);
                }
            }
        }
        i = i + 1;
    }
    assert forall|j: int| !occurs_at(hay@, needle@, j) by {
        if 0 <= j && j + m <= n {
            assert(j < i);
        }
    }
    false
}

/// The verdict of the first `stats` block, from `i` on, that tells the
/// device's type.
pub open spec fn marker_verdict(markers: Seq<StatMarker>, i: int) -> SocketVerdict
    decreases markers.len() - i,
{
    if i < 0 || i >= markers.len() {
        SocketVerdict::Fail(Error::UnknownMinerType)
    } else {
        match markers[i] {
            StatMarker::AmVersion => SocketVerdict::Found(Vendor::Antminer),
            StatMarker::Dev(Some(t)) => if t@ == seq!['M', 'i', 'n', 'e', 'r', 'v', 'a'] {
                SocketVerdict::ProbeMinervaInterface
            } else {
                SocketVerdict::Fail(Error::UnknownMinerType)
            },
            StatMarker::Dev(None) => SocketVerdict::Fail(Error::UnknownMinerType),
            StatMarker::Other => marker_verdict(markers, i + 1),
        }
    }
}

/// `whatsminer`, which that vendor puts in the description of its error
/// answer.
pub open spec fn whatsminer_word() -> Seq<char> {
    seq!['w', 'h', 'a', 't', 's', 'm', 'i', 'n', 'e', 'r']
}

/// What the socket probe concludes from an answer. A failed `stats` status
/// carries the device's message; a bare error status with code 14 and
/// "whatsminer" in its description (any case) is a Whatsminer.
pub open spec fn socket_verdict_of(a: SocketAnswer) -> SocketVerdict {
    match a {
        SocketAnswer::Stats { status, msg, markers } => if status != StatusCode::SUCC {
            SocketVerdict::Fail(Error::ApiCallFailed(msg))
        } else {
            match markers {
                None => SocketVerdict::Fail(Error::UnknownMinerType),
                Some(m) => marker_verdict(m@, 0),
            }
        },
        SocketAnswer::StatusOnly { status, code, description } => if status == StatusCode::ERROR && code == 14
            && (description matches Some(d) && contains(lower_of(d@), whatsminer_word())) {
            SocketVerdict::Found(Vendor::Whatsminer)
        } else {
            SocketVerdict::Fail(Error::UnknownMinerType)
        },
        _ => SocketVerdict::Fail(Error::UnknownMinerType),
    }
}

/// Whether a device type is `Minerva`.
fn is_minerva(t: &String) -> (r: bool)
    ensures
        r == (t@ == seq!['M', 'i', 'n', 'e', 'r', 'v', 'a']),
{
    let s = t.as_str();
    if s.unicode_len() != 7 {
        return false;
    }
    let r = s.get_char(0) == 'M' && s.get_char(1) == 'i' && s.get_char(2) == 'n' && s.get_char(3) == 'e'
        && s.get_char(4) == 'r' && s.get_char(5) == 'v' && s.get_char(6) == 'a';
    if r {
        assert(s@ =~= seq!['M', 'i', 'n', 'e', 'r', 'v', 'a']);
    }
    r
}

/// Decides what the socket probe's answer says.
pub fn socket_verdict(a: &SocketAnswer) -> (r: SocketVerdict)
    ensures
        r == socket_verdict_of(*a),
{
    match a {
        SocketAnswer::Stats { status, msg, markers } => {
            if *status != StatusCode::SUCC {
                return SocketVerdict::Fail(Error::ApiCallFailed(msg.clone()));
            }
            match markers {
                None => SocketVerdict::Fail(Error::UnknownMinerType),
                Some(m) => {
                    let mut i: usize = 0;
                    while i < m.len()
                        invariant
                            i <= m@.len(),
                            socket_verdict_of(*a) == marker_verdict(m@, i as int),
                        decreases m@.len() - i,
                    {
                        match &m[i] {
                            StatMarker::AmVersion => {
                                return SocketVerdict::Found(Vendor::Antminer);
                            },
                            StatMarker::Dev(Some(t)) => {
                                if is_minerva(t) {
                                    return SocketVerdict::ProbeMinervaInterface;
                                }
                                return SocketVerdict::Fail(Error::UnknownMinerType);
                            },
                            StatMarker::Dev(None) => {
                                return SocketVerdict::Fail(Error::UnknownMinerType);
                            },
                            StatMarker::Other => {},
                        }
                        i = i + 1;
                    }
                    SocketVerdict::Fail(Error::UnknownMinerType)
                },
            }
        },
        SocketAnswer::StatusOnly { status, code, description } => {
            if *status == StatusCode::ERROR && *code == 14 {
                if let Some(d) = description {
                    let lower = lowercase(d.as_str());
                    let found = text_contains(lower.as_str(), "whatsminer");
                    proof {
                        reveal_strlit("whatsminer");
                        assert("whatsminer"@ =~= whatsminer_word());
                    }
                    if found {
                        return SocketVerdict::Found(Vendor::Whatsminer);
                    }
                }
            }
            SocketVerdict::Fail(Error::UnknownMinerType)
        },
        _ => SocketVerdict::Fail(Error::UnknownMinerType),
    }
}

/// Which Minerva interface answers: 404 on `/index.php` is the custom one,
/// 200 is Minera, anything else is not recognised.
pub fn minerva_interface(status: u16) -> (r: Result<Vendor, Error>)
    ensures
        status == 404 ==> r == Ok::<Vendor, Error>(Vendor::Minerva),
        status == 200 ==> r == Ok::<Vendor, Error>(Vendor::Minera),
        status != 404 && status != 200 ==> r == Err::<Vendor, Error>(Error::UnknownMinerType),
{
    if status == 404 {
        Ok(Vendor::Minerva)
    } else if status == 200 {
        Ok(Vendor::Minera)
    } else {
        Err(Error::UnknownMinerType)
    }
}

/// What detection does once the socket probe is over.
#[derive(Debug, Clone, PartialEq, Eq)]
pub enum DetectNext {
    /// The vendor is known; no HTTP probe is made.
    Done(Vendor),
    /// Fall back to the HTTP probes.
    ProbeHttp,
}

pub open spec fn detect_next_of(socket: Result<Vendor, Error>) -> DetectNext {
    match socket {
        Ok(v) => DetectNext::Done(v),
        Err(_) => DetectNext::ProbeHttp,
    }
}

/// Chooses between the socket probe's result and the HTTP fallback.
pub fn after_socket(socket: &Result<Vendor, Error>) -> (r: DetectNext)
    ensures
        r == detect_next_of(*socket),
{
    match socket {
        Ok(v) => DetectNext::Done(*v),
        Err(_) => DetectNext::ProbeHttp,
    }
}

/// A socket probe that identifies a vendor ends detection: the HTTP probe is
/// never attempted after it, whatever the vendor.
pub proof fn lemma_socket_success_skips_http(v: Vendor, e: Error)
    ensures
        detect_next_of(Ok(v)) == DetectNext::Done(v),
        detect_next_of(Err(e)) == DetectNext::ProbeHttp,
{
}

/// The HTTP probes, in the order they are tried.
#[derive(Debug, Clone, Copy, PartialEq, Eq, Structural)]
pub enum HttpProbe {
    /// `HEAD /`: a digest challenge means an Antminer.
    Root,
    /// `GET https://host`: a Minerva/umi page means the custom Minerva.
    RootPage,
    /// `HEAD /index.php/app/stats`: 200 means Minera.
    StatsPage,
    /// `GET /cgi-bin/luci`: 403 with a WhatsMiner title means a Whatsminer.
    LuciPage,
}

/// An HTTP answer, as far as detection reads it.
#[derive(Debug, Clone, PartialEq, Eq)]
pub struct HttpAnswer {
    pub status: u16,
    pub www_authenticate: Option<String>,
    pub body: String,
}

/// What follows an HTTP probe.
#[derive(Debug, Clone, PartialEq, Eq)]
pub enum HttpStep {
    Found(Vendor),
    Next(HttpProbe),
    Fail(Error),
}

pub const DIGEST_PATTERN: &'static str = "^[Dd]igest";

pub const MINERVA_PATTERN: &'static str = "Minerva(.|\n)+umi";

pub const WHATSMINER_PATTERN: &'static str = "<title>WhatsMiner";

/// What an HTTP probe's answer leads to; `None` is a request that failed.
/// A failed first probe is a timeout; later ones are failed requests.
pub open spec fn http_step_of(probe: HttpProbe, answer: Option<HttpAnswer>) -> HttpStep {
    match answer {
        None => if probe == HttpProbe::Root {
            HttpStep::Fail(Error::Timeout)
        } else {
            HttpStep::Fail(Error::HttpRequestFailed)
        },
        Some(a) => match probe {
            HttpProbe::Root => if a.status == 401 && (a.www_authenticate matches Some(h) && regex_matches(
                DIGEST_PATTERN@,
                h@,
            )) {
                HttpStep::Found(Vendor::Antminer)
            } else {
                HttpStep::Next(HttpProbe::RootPage)
            },
            HttpProbe::RootPage => if regex_matches(MINERVA_PATTERN@, a.body@) {
                HttpStep::Found(Vendor::Minerva)
            } else {
                HttpStep::Next(HttpProbe::StatsPage)
            },
            HttpProbe::StatsPage => if a.status == 200 {
                HttpStep::Found(Vendor::Minera)
            } else {
                HttpStep::Next(HttpProbe::LuciPage)
            },
            HttpProbe::LuciPage => if a.status == 403 && regex_matches(WHATSMINER_PATTERN@, a.body@) {
                HttpStep::Found(Vendor::Whatsminer)
            } else {
                HttpStep::Fail(Error::UnknownMinerType)
            },
        },
    }
}

/// Decides what follows an HTTP probe.
pub fn http_step(probe: HttpProbe, answer: &Option<HttpAnswer>) -> (r: HttpStep)
    ensures
        r == http_step_of(probe, *answer),
{
    match answer {
        None => {
            if probe == HttpProbe::Root {
                HttpStep::Fail(Error::Timeout)
            } else {
                HttpStep::Fail(Error::HttpRequestFailed)
            }
        },
        Some(a) => match probe {
            HttpProbe::Root => {
                if a.status == 401 {
                    if let Some(h) = &a.www_authenticate {
                        if regex_is_match(DIGEST_PATTERN, h.as_str()) {
                            return HttpStep::Found(Vendor::Antminer);
                        }
                    }
                }
                HttpStep::Next(HttpProbe::RootPage)
            },
            HttpProbe::RootPage => {
                if regex_is_match(MINERVA_PATTERN, a.body.as_str()) {
                    HttpStep::Found(Vendor::Minerva)
                } else {
                    HttpStep::Next(HttpProbe::StatsPage)
                }
            },
            HttpProbe::StatsPage => {
                if a.status == 200 {
                    HttpStep::Found(Vendor::Minera)
                } else {
                    HttpStep::Next(HttpProbe::LuciPage)
                }
            },
            HttpProbe::LuciPage => {
                if a.status == 403 && regex_is_match(WHATSMINER_PATTERN, a.body.as_str()) {
                    HttpStep::Found(Vendor::Whatsminer)
                } else {
                    HttpStep::Fail(Error::UnknownMinerType)
                }
            },
        },
    }
}

/// Drops the NUL bytes that some firmware pads its socket answers with.
pub fn remove_nuls(data: &[u8]) -> (r: Vec<u8>)
    ensures
        r@ == data@.filter(|b: u8| b != 0u8),
{
    let mut out: Vec<u8> = Vec::new();
    let mut k: usize = 0;
    while k < data.len()
        invariant
            k <= data@.len(),
            out@ == data@.subrange(0, k as int).filter(|b: u8| b != 0u8),
        decreases data@.len() - k,
    {
        proof {
            reveal(Seq::filter);
            assert(data@.subrange(0, k + 1).drop_last() =~= data@.subrange(0, k as int));
        }
        if data[k] != 0u8 {
            out.push(data[k]);
        }
        k = k + 1;
    }
    assert(data@.subrange(0, k as int) =~= data@);
    out
}

} // verus!
