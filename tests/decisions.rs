use libminer::auth::{on_digest_answer, DigestPhase, DigestStep};
use libminer::cache::{fetch_status, reboot_outcome, CachedField};
use libminer::detect::{
    after_socket, http_step, minerva_interface, remove_nuls, socket_verdict, text_contains, DetectNext, HttpAnswer,
    HttpProbe, HttpStep, SocketAnswer, SocketVerdict, StatMarker, Vendor,
};
use libminer::error::Error;
use libminer::status::StatusCode;

const CHALLENGE: &str = r#"Digest realm="antMiner Configuration", nonce="abc123", qop="auth""#;

#[test]
fn digest_retries_once_then_reports_unauthorized() {
    let first = on_digest_answer(DigestPhase::First, 401, Some(CHALLENGE), "root", "root", "/cgi-bin/x", "GET", None);
    match first {
        DigestStep::Retry(h) => {
            assert!(h.starts_with("Digest "));
            assert!(h.contains("username=\"root\""));
            assert!(h.contains("uri=\"/cgi-bin/x\""));
        },
        other => panic!("expected a retry, got {:?}", other),
    }
    let second = on_digest_answer(DigestPhase::Retried, 401, Some(CHALLENGE), "root", "root", "/cgi-bin/x", "GET", None);
    assert_eq!(second, DigestStep::Fail(Error::Unauthorized));
    assert_eq!(on_digest_answer(DigestPhase::First, 200, None, "u", "p", "/", "GET", None), DigestStep::Done);
    assert_eq!(on_digest_answer(DigestPhase::Retried, 200, None, "u", "p", "/", "GET", None), DigestStep::Done);
    assert_eq!(
        on_digest_answer(DigestPhase::First, 401, None, "u", "p", "/", "GET", None),
        DigestStep::Fail(Error::Unauthorized)
    );
    assert_eq!(
        on_digest_answer(DigestPhase::First, 401, Some("Basic realm=x"), "u", "p", "/", "GET", None),
        DigestStep::Fail(Error::DigestAuthError)
    );
    assert_eq!(
        on_digest_answer(DigestPhase::First, 401, Some("Digest €a=1"), "u", "p", "/", "GET", None),
        DigestStep::Fail(Error::DigestAuthError)
    );
}

#[test]
fn cache_is_emptied_only_by_a_successful_mutation() {
    let mut c: CachedField<u32> = CachedField::new();
    assert!(c.needs_fetch());
    c.fill(7);
    assert_eq!(c.cached(), Some(&7));
    c.after_mutation::<Error>(&Err(Error::Timeout));
    assert_eq!(c.cached(), Some(&7));
    c.after_mutation::<Error>(&Ok(()));
    assert!(c.needs_fetch());
    assert_eq!(c.cached(), None);
    c.fill(8);
    c.invalidate();
    assert!(c.needs_fetch());
}

#[test]
fn fetch_status_distinguishes_unauthorized() {
    assert_eq!(fetch_status(200), Ok(()));
    assert_eq!(fetch_status(204), Ok(()));
    assert_eq!(fetch_status(401), Err(Error::Unauthorized));
    assert_eq!(fetch_status(500), Err(Error::HttpRequestFailed));
    assert_eq!(fetch_status(404), Err(Error::HttpRequestFailed));
}

#[test]
fn reboot_succeeds_when_the_connection_drops() {
    assert_eq!(reboot_outcome(true), Ok(()));
    assert_eq!(reboot_outcome(false), Err(Error::ApiCallFailed("Reboot failed".to_string())));
}

fn stats(markers: Vec<StatMarker>) -> SocketAnswer {
    SocketAnswer::Stats { status: StatusCode::SUCC, msg: "ok".to_string(), markers: Some(markers) }
}

#[test]
fn socket_probe_identifies_vendors() {
    assert_eq!(
        socket_verdict(&stats(vec![StatMarker::Other, StatMarker::AmVersion])),
        SocketVerdict::Found(Vendor::Antminer)
    );
    assert_eq!(
        socket_verdict(&stats(vec![StatMarker::Dev(Some("Minerva".to_string()))])),
        SocketVerdict::ProbeMinervaInterface
    );
    assert_eq!(
        socket_verdict(&stats(vec![StatMarker::Dev(Some("Avalon".to_string()))])),
        SocketVerdict::Fail(Error::UnknownMinerType)
    );
    assert_eq!(socket_verdict(&stats(vec![StatMarker::Other])), SocketVerdict::Fail(Error::UnknownMinerType));
    assert_eq!(
        socket_verdict(&SocketAnswer::Stats { status: StatusCode::ERROR, msg: "busy".to_string(), markers: None }),
        SocketVerdict::Fail(Error::ApiCallFailed("busy".to_string()))
    );
    let wm = SocketAnswer::StatusOnly {
        status: StatusCode::ERROR,
        code: 14,
        description: Some("WhatsMiner v1".to_string()),
    };
    assert_eq!(socket_verdict(&wm), SocketVerdict::Found(Vendor::Whatsminer));
    let other = SocketAnswer::StatusOnly { status: StatusCode::ERROR, code: 23, description: Some("whatsminer".to_string()) };
    assert_eq!(socket_verdict(&other), SocketVerdict::Fail(Error::UnknownMinerType));
    assert_eq!(socket_verdict(&SocketAnswer::Failed), SocketVerdict::Fail(Error::UnknownMinerType));
}

#[test]
fn socket_success_skips_http() {
    assert_eq!(after_socket(&Ok(Vendor::Whatsminer)), DetectNext::Done(Vendor::Whatsminer));
    assert_eq!(after_socket(&Err(Error::UnknownMinerType)), DetectNext::ProbeHttp);
    assert_eq!(minerva_interface(404), Ok(Vendor::Minerva));
    assert_eq!(minerva_interface(200), Ok(Vendor::Minera));
    assert_eq!(minerva_interface(500), Err(Error::UnknownMinerType));
}

fn answer(status: u16, auth: Option<&str>, body: &str) -> Option<HttpAnswer> {
    Some(HttpAnswer { status, www_authenticate: auth.map(|s| s.to_string()), body: body.to_string() })
}

#[test]
fn http_probes_run_in_order() {
    assert_eq!(http_step(HttpProbe::Root, &None), HttpStep::Fail(Error::Timeout));
    assert_eq!(http_step(HttpProbe::Root, &answer(401, Some(CHALLENGE), "")), HttpStep::Found(Vendor::Antminer));
    assert_eq!(http_step(HttpProbe::Root, &answer(401, Some("Basic x"), "")), HttpStep::Next(HttpProbe::RootPage));
    assert_eq!(
        http_step(HttpProbe::RootPage, &answer(200, None, "<title>Minerva</title>\n<p>umi</p>")),
        HttpStep::Found(Vendor::Minerva)
    );
    assert_eq!(http_step(HttpProbe::RootPage, &answer(200, None, "hello")), HttpStep::Next(HttpProbe::StatsPage));
    assert_eq!(http_step(HttpProbe::StatsPage, &answer(200, None, "")), HttpStep::Found(Vendor::Minera));
    assert_eq!(http_step(HttpProbe::StatsPage, &answer(404, None, "")), HttpStep::Next(HttpProbe::LuciPage));
    assert_eq!(
        http_step(HttpProbe::LuciPage, &answer(403, None, "<html><title>WhatsMiner</title>")),
        HttpStep::Found(Vendor::Whatsminer)
    );
    assert_eq!(http_step(HttpProbe::LuciPage, &answer(200, None, "")), HttpStep::Fail(Error::UnknownMinerType));
    assert_eq!(http_step(HttpProbe::LuciPage, &None), HttpStep::Fail(Error::HttpRequestFailed));
}

#[test]
fn nul_padding_is_removed() {
    assert_eq!(remove_nuls(b"{\"a\":1}\0\0"), b"{\"a\":1}".to_vec());
    assert_eq!(remove_nuls(b"\0x\0y"), b"xy".to_vec());
    assert!(text_contains("abcdef", "cde"));
    assert!(!text_contains("abc", "abcd"));
    assert!(text_contains("abc", ""));
}
