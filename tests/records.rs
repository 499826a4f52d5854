use libminer::avalon::{expect_status, led_from_status, PowerSupplyInfo, Version};
use libminer::status::{Status, StatusResp};
use libminer::classify::{classify, MinerError};
use libminer::common::Pool;
use libminer::minerva::{is_sleep_mask, pool_form_fields, sleep_mask, GetPools, SetPoolRequest};
use libminer::error::Error;
use libminer::status::StatusCode;
use libminer::whatsminer::{logs_from_answer, parse_bool_text, split_newlines, ErrorData, ErrorResp};

fn version(model: &str, mac: &str) -> Version {
    Version {
        cgminer: "4.11.1".to_string(),
        api: "3.7".to_string(),
        stm8: "20.08.01".to_string(),
        prod: "AvalonMiner 1246-81".to_string(),
        model: model.to_string(),
        hwtype: "MM3v2_X3".to_string(),
        swtype: "MM314".to_string(),
        version: "21030201_4ec6bb0_09b1765".to_string(),
        loader: "d0d779de.00".to_string(),
        dna: "020100000828a153".to_string(),
        mac: mac.to_string(),
        upapi: "2".to_string(),
    }
}

#[test]
fn version_it_parses() {
    let v = version("1246-81", "b4a2eb3460fa");
    assert_eq!(v.model().unwrap(), "1246");
}

#[test]
fn model_without_a_dash_is_refused() {
    assert_eq!(version("unknown", "").model(), Err(Error::InvalidResponse));
}

#[test]
fn mac_gets_colons() {
    assert_eq!(version("1246-81", "b4a2eb3460fa").mac_addr(), "b4:a2:eb:34:60:fa");
    assert_eq!(version("1246-81", "").mac_addr(), "");
    assert_eq!(version("1246-81", "abc").mac_addr(), "ab:c");
}

#[test]
fn test_bt_status() {
    assert_eq!(parse_bool_text("true"), Some(true));
    assert_eq!(parse_bool_text("false"), Some(false));
    assert_eq!(parse_bool_text("yes"), None);
}

#[test]
fn status_letters() {
    assert_eq!(StatusCode::from_code("S"), Some(StatusCode::SUCC));
    assert_eq!(StatusCode::from_code("E"), Some(StatusCode::ERROR));
    assert_eq!(StatusCode::from_code("I"), Some(StatusCode::INFO));
    assert_eq!(StatusCode::from_code("W"), Some(StatusCode::WARN));
    assert_eq!(StatusCode::from_code("F"), Some(StatusCode::FATAL));
    assert_eq!(StatusCode::from_code("X"), None);
    assert_eq!(StatusCode::from_code("SS"), None);
}

#[test]
fn classifier_fills_templates_and_dedups() {
    let rules = vec![
        MinerError { re: r"Data load fail for chain ([0-9])", msg: "Chain {} load EEPROM fail" },
        MinerError { re: r".+ERROR_POWER_LOST", msg: "Power lost" },
        MinerError { re: r"chain ([0-9]) temp ([0-9]+)", msg: "Chain {} too hot: {}C" },
        MinerError { re: r"Data load fail for chain ([0-9])", msg: "Chain {} load EEPROM fail" },
    ];
    let log = "boot\nData load fail for chain 2\nchain 1 temp 95\n";
    let mut found = classify(log, &rules);
    found.sort();
    assert_eq!(found, vec!["Chain 1 too hot: 95C".to_string(), "Chain 2 load EEPROM fail".to_string()]);
    assert_eq!(rules[1].get_msg(log), None);
    assert_eq!(rules[0].get_msg("x Data load fail for chain 7"), Some("Chain 7 load EEPROM fail".to_string()));
}

#[test]
fn default_pool_is_empty() {
    let p = Pool::new();
    assert!(p.url.is_empty() && p.username.is_empty() && p.password.is_none());
}

#[test]
fn default_pool_is_the_empty_pool() {
    let p = Pool::default();
    assert_eq!(p, Pool::new());
}

#[test]
fn minerva_pools_keep_their_order() {
    let got = GetPools {
        pool1url: "stratum+tcp://a:3333".to_string(),
        pool1user: "w1".to_string(),
        pool2url: "stratum+tcp://b:3333".to_string(),
        pool2user: "w2".to_string(),
        pool3url: "stratum+tcp://c:3333".to_string(),
        pool3user: "w3".to_string(),
    };
    let pools = got.to_pools();
    assert_eq!(pools.len(), 3);
    assert_eq!(pools[1].url, "stratum+tcp://b:3333");
    assert_eq!(pools[2].username, "w3");
    assert!(pools.iter().all(|p| p.password.is_none()));

    let mut with_pw = pools.clone();
    with_pw[0].password = Some("x".to_string());
    let req = SetPoolRequest::from_pools(&with_pw).unwrap();
    assert_eq!(req.pool0pwd, "x");
    assert_eq!(req.pool1pwd, "");
    assert_eq!(req.pool2url, "stratum+tcp://c:3333");
    let two = vec![Pool::new(), Pool::new()];
    assert!(SetPoolRequest::from_pools(&two).is_none());
}

#[test]
fn hashrate_is_the_number_after_the_dash() {
    assert_eq!(version("1246-81", "").hashrate_th(), Ok(81));
    assert_eq!(version("1246", "").hashrate_th(), Err(Error::InvalidResponse));
    assert_eq!(version("a-99999999999999999999999", "").hashrate_th(), Err(Error::InvalidResponse));
}

#[test]
fn sleep_masks() {
    assert_eq!(sleep_mask(true), "0x0");
    assert_eq!(sleep_mask(false), "0xf");
    assert!(is_sleep_mask("0x0"));
    assert!(!is_sleep_mask("0xf"));
}

#[test]
fn minera_pool_form_keeps_order() {
    let mut a = Pool::new();
    a.url = "u1".to_string();
    a.username = "w1".to_string();
    let mut b = Pool::new();
    b.url = "u2".to_string();
    b.username = "w2".to_string();
    b.password = Some("p2".to_string());
    let form = pool_form_fields(&vec![a, b]);
    let expect: Vec<(String, String)> = [
        ("save_miner_pools", "1"),
        ("pool_url[]", "u1"),
        ("pool_username[]", "w1"),
        ("pool_password[]", ""),
        ("pool_url[]", "u2"),
        ("pool_username[]", "w2"),
        ("pool_password[]", "p2"),
    ]
    .iter()
    .map(|(k, v)| (k.to_string(), v.to_string()))
    .collect();
    assert_eq!(form, expect);
}

#[test]
fn log_download_lines() {
    assert_eq!(split_newlines("a\nb\n"), vec!["a".to_string(), "b".to_string(), String::new()]);
    assert_eq!(split_newlines(""), vec![String::new()]);
    assert_eq!(logs_from_answer(StatusCode::SUCC, "x\ny"), Ok(vec!["x".to_string(), "y".to_string()]));
    assert_eq!(logs_from_answer(StatusCode::ERROR, "x"), Err(Error::Unauthorized));
}

fn status_resp(code: StatusCode, msg: &str) -> StatusResp {
    StatusResp {
        status: [Status {
            status: code,
            when: 10075,
            code: 118,
            msg: msg.to_string(),
            description: Some("cgminer 4.11.1".to_string()),
        }],
    }
}

#[test]
fn it_parses_good_response() {
    let status = status_resp(StatusCode::INFO, "ASC 0 set info: PS[0 1197 1249 260 3247 1248]");
    let hashpower = PowerSupplyInfo::from_status(&status).unwrap();
    assert_eq!(hashpower.err, 0);
    assert_eq!(hashpower.volt_cntrl as f32 / 100.0, 11.97);
    assert_eq!(hashpower.volt_hash as f32 / 100.0, 12.49);
    assert_eq!(hashpower.current, 260);
    assert_eq!(hashpower.power, 3247);
    assert_eq!(hashpower.set_volt_hash as f32 / 100.0, 12.48);
}

#[test]
fn it_parses_bad_response() {
    let status = status_resp(StatusCode::ERROR, "ASC 0 set info: PS[0 1197 1249 260 3247 1248]");
    let hashpower = PowerSupplyInfo::from_status(&status);
    assert!(hashpower.is_err());
}

#[test]
fn power_supply_text_and_commands() {
    assert_eq!(PowerSupplyInfo::from_text("PS[1 2 3 4 5 6]").unwrap(), PowerSupplyInfo::from_values([1, 2, 3, 4, 5, 6]));
    assert_eq!(PowerSupplyInfo::from_text("PS[1 2 3]"), Err(Error::InvalidResponse));
    assert_eq!(PowerSupplyInfo::from_text("PS[1 2 3 4 5 99999999999]"), Err(Error::InvalidResponse));
    assert_eq!(PowerSupplyInfo::get_cmd(), r#"{"command":"ascset","parameter":"0,hashpower"}"#);
    assert_eq!(PowerSupplyInfo::set_cmd(true), r#"{"command":"ascset","parameter":"0,hashpower,0"}"#);
    assert_eq!(PowerSupplyInfo::set_cmd(false), r#"{"command":"ascset","parameter":"0,hashpower,1"}"#);
}

#[test]
fn avalon_status_checks() {
    assert_eq!(expect_status(&status_resp(StatusCode::SUCC, "ok"), StatusCode::SUCC), Ok(()));
    assert_eq!(
        expect_status(&status_resp(StatusCode::ERROR, "busy"), StatusCode::INFO),
        Err(Error::ApiCallFailed("busy".to_string()))
    );
    assert_eq!(led_from_status(&status_resp(StatusCode::INFO, "ASC 0 set info: LED[1]")), Ok(true));
    assert_eq!(led_from_status(&status_resp(StatusCode::INFO, "ASC 0 set info: LED[0]")), Ok(false));
    assert_eq!(led_from_status(&status_resp(StatusCode::INFO, "nothing")), Err(Error::InvalidResponse));
}

#[test]
fn whatsminer_error_codes_become_a_log() {
    let answer = ErrorResp {
        status: StatusCode::SUCC,
        when: 0,
        code: 133,
        msg: ErrorData {
            error_code: vec![
                ("111".to_string(), "2022-10-20 09:18:54".to_string()),
                ("2010".to_string(), "1970-01-02 08:00:04".to_string()),
            ],
        },
        description: String::new(),
    };
    let log = answer.error_log();
    assert_eq!(log, "111\n2010");
    let rules = vec![MinerError { re: r"1[0-3](0|1)", msg: "Fan {} speed error" }];
    assert_eq!(classify(&log, &rules), vec!["Fan 1 speed error".to_string()]);
}
