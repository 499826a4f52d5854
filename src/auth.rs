//! HTTP digest authentication: one retry with an `Authorization` header
//! after a 401, and a second 401 reported as "unauthorized".
use vstd::prelude::*;
use crate::detect::contains;
use crate::error::Error;

verus! {

/// Where a digest-authenticated request stands.
#[derive(Debug, Clone, Copy, PartialEq, Eq, Structural)]
pub enum DigestPhase {
    /// The request went out without credentials.
    First,
    /// The request went out again with an `Authorization` header.
    Retried,
}

/// What to do with the answer to a digest-authenticated request.
#[derive(Debug, Clone, PartialEq, Eq)]
pub enum DigestStep {
    /// The answer is the result.
    Done,
    /// Send the request again with this `Authorization` header.
    Retry(String),
    /// Stop with this error.
    Fail(Error),
}

/// The decision for an answer, before any challenge is computed.
#[derive(Debug, Clone, Copy, PartialEq, Eq, Structural)]
pub enum DigestDecision {
    Done,
    Respond,
    Unauthorized,
}

/// What an answer with `status` leads to in `phase`.
pub open spec fn digest_decision(phase: DigestPhase, status: u16, has_challenge: bool) -> DigestDecision {
    if status != 401 {
        DigestDecision::Done
    } else if phase == DigestPhase::Retried || !has_challenge {
        DigestDecision::Unauthorized
    } else {
        DigestDecision::Respond
    }
}

/// Whether digest_auth answers a challenge: `parse` accepts it and its qop
/// options leave `respond` a choice. Both read the challenge text alone.
pub uninterp spec fn digest_challenge_accepted(challenge: Seq<char>) -> bool;

/// The `uri` field of an `Authorization` header for a URI needing no escapes.
pub open spec fn uri_field(uri: Seq<char>) -> Seq<char> {
    seq!['u', 'r', 'i', '=', '"'] + uri + seq!['"']
}

/// What is known of an `Authorization` header computed for `uri`: it is a
/// digest answer, and it names the URI (quoted as it stands where it holds
/// no `"` or `\`).
pub open spec fn digest_header_for(h: Seq<char>, uri: Seq<char>) -> bool {
    &&& h.len() >= 7
    &&& h.subrange(0, 7) == seq!['D', 'i', 'g', 'e', 's', 't', ' ']
    &&& (forall|i: int| 0 <= i < uri.len() ==> #[trigger] uri[i] != '"' && uri[i] != '\\') ==> contains(
        h,
        uri_field(uri),
    )
}

/// Relies on digest_auth: `parse` reads the `WWW-Authenticate` challenge,
/// `AuthContext::new_with_method` holds the credentials, request line and
/// body, and `respond` computes the answer (with a fresh client nonce),
/// written out by `to_header_string`. `None` exactly where `parse` refuses
/// the challenge or `from_prompt` finds no usable qop. The parser slices the
/// challenge at character counts, so only an ASCII challenge is handed to
/// it. The header's `Display` begins with `Digest ` and writes the context's
/// URI as `uri="…"`, escaping only `"` and `\`.
#[verifier::external_body]
fn digest_response(
    username: &str,
    password: &str,
    uri: &str,
    method: &str,
    body: Option<&[u8]>,
    challenge: &str,
) -> (r: Option<String>)
    requires
        challenge.is_ascii(),
    ensures
        r is Some <==> digest_challenge_accepted(challenge@),
        r matches Some(h) ==> digest_header_for(h@, uri@),
{
    let context = digest_auth::AuthContext::new_with_method(
        username,
        password,
        uri,
        body,
        digest_auth::HttpMethod::from(method),
    );
    let mut prompt = digest_auth::parse(challenge).ok()?;
    Some(prompt.respond(&context).ok()?.to_header_string())
}

/// Decides what follows an answer to a digest-authenticated request. Only
/// the first 401 leads to a retry, with the answer to its challenge for the
/// request's URI; one after the retry is "unauthorized".
pub fn on_digest_answer(
    phase: DigestPhase,
    status: u16,
    challenge: Option<&str>,
    username: &str,
    password: &str,
    uri: &str,
    method: &str,
    body: Option<&[u8]>,
) -> (r: DigestStep)
    ensures
        match digest_decision(phase, status, challenge is Some) {
            DigestDecision::Done => r == DigestStep::Done,
            DigestDecision::Unauthorized => r == DigestStep::Fail(Error::Unauthorized),
            DigestDecision::Respond => (r matches DigestStep::Retry(h) && digest_header_for(h@, uri@)) || r
                == DigestStep::Fail(Error::DigestAuthError),
        },
        status == 401 && phase == DigestPhase::First && (challenge matches Some(c) && !c.is_ascii()) ==> r
            == DigestStep::Fail(Error::DigestAuthError),
        challenge matches Some(c) ==> (status == 401 && phase == DigestPhase::First && c.is_ascii() ==> (r is Retry
            <==> digest_challenge_accepted(c@))),
{
    if status != 401 {
        return DigestStep::Done;
    }
    match phase {
        DigestPhase::Retried => DigestStep::Fail(Error::Unauthorized),
        DigestPhase::First => match challenge {
            None => DigestStep::Fail(Error::Unauthorized),
            Some(c) => {
                if !c.is_ascii() {
                    return DigestStep::Fail(Error::DigestAuthError);
                }
                match digest_response(username, password, uri, method, body, c) {
                    Some(h) => DigestStep::Retry(h),
                    None => DigestStep::Fail(Error::DigestAuthError),
                }
            },
        },
    }
}

/// A request is retried at most once: a 401 with a challenge to the first
/// attempt leads to the retry, and no answer to the retry leads to another;
/// a second 401 is reported as "unauthorized", not as a transport failure.
pub proof fn lemma_single_digest_retry(status: u16, has_challenge: bool)
    ensures
        digest_decision(DigestPhase::First, 401, true) == DigestDecision::Respond,
        digest_decision(DigestPhase::Retried, status, has_challenge) != DigestDecision::Respond,
        status == 401 ==> digest_decision(DigestPhase::Retried, status, has_challenge)
            == DigestDecision::Unauthorized,
{
}

} // verus!
