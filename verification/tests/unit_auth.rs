use pexels::cli::build_auth_status;
use pexels::config::{Config, TokenSource};
use pexels::json::Json;
use pexels::output::wrap_ok;

fn jobj(pairs: Vec<(&str, Json)>) -> Json {
    Json::Obj(pairs.into_iter().map(|(k, v)| (k.to_string(), v)).collect())
}

fn jstr(s: &str) -> Json {
    Json::Str(s.to_string())
}

#[test]
fn auth_status_details_no_meta_and_schema() {
    let mut cfg = Config::default();
    // simulate config-sourced token present
    cfg.token = Some("t".into());
    cfg.token_source = Some(TokenSource::Config);

    // Build payload like handler and ensure no meta when wrapped with None
    let payload = jobj(vec![
        ("present", Json::Bool(true)),
        ("source", jstr("config")),
        (
            "details",
            jobj(vec![("path", jstr(&cfg.path())), ("profile", Json::Null)]),
        ),
    ]);
    let out = wrap_ok(&payload, None);
    assert!(out.get("data").is_some());
    // the envelope always carries meta; with none supplied it is empty
    match out.get("meta") {
        Some(Json::Obj(fields)) => assert!(fields.is_empty()),
        _ => panic!("meta should be an empty object"),
    }
}

#[test]
fn login_success_payloads() {
    // positional token path
    let out = wrap_ok(
        &jobj(vec![("status", jstr("ok")), ("message", jstr("token saved"))]),
        None,
    );
    match out.get("meta") {
        Some(Json::Obj(fields)) => assert!(fields.is_empty()),
        _ => panic!("meta should be an empty object"),
    }
    // env path example
    let out2 = wrap_ok(
        &jobj(vec![
            ("status", jstr("ok")),
            ("message", jstr("token saved from env PEXELS_TOKEN")),
        ]),
        None,
    );
    match out2.get("meta") {
        Some(Json::Obj(fields)) => assert!(fields.is_empty()),
        _ => panic!("meta should be an empty object"),
    }
}

#[test]
fn auth_status_none_reason() {
    let cfg = Config::default();
    let payload = build_auth_status(&cfg);
    match payload.get("source") {
        Some(Json::Str(s)) => assert_eq!(s, "none"),
        other => panic!("unexpected source: {:?}", other.is_some()),
    }
    match payload.get("present") {
        Some(Json::Bool(b)) => assert!(!b),
        _ => panic!("present missing"),
    }
    let details = payload.get("details").expect("details");
    match details.get("reason") {
        Some(Json::Str(s)) => assert_eq!(s, "no token found"),
        _ => panic!("reason missing"),
    }
}
