use pexels::cli::{
    fmt_from_cli, pagination_qp, Cli, Commands, PhotoSize, PhotosCmd, PhotosSub,
};
use pexels::config::{inspect_info, Config, TokenSource};
use pexels::json::{json_eq, Json};
use pexels::output::OutputFormat;
use pexels::proj::project;

fn mk_cli() -> Cli {
    Cli {
        json: false,
        raw: false,
        fields: vec![],
        page: None,
        per_page: None,
        all: false,
        limit: None,
        max_pages: None,
        jq: None,
        jmes: None,
        timeout: 15,
        max_retries: 3,
        retry_after: None,
        host: None,
        locale: None,
        verbose: false,
        debug: false,
        color: None,
        command: Commands::Photos(PhotosCmd {
            sub: PhotosSub::Curated,
        }),
    }
}

#[test]
fn pagination_qp_renders_decimals() {
    let mut cli = mk_cli();
    cli.page = Some(3);
    cli.per_page = Some(40);
    let qp = pagination_qp(&cli);
    assert_eq!(qp.len(), 2);
    assert_eq!(qp[0], ("page".to_string(), "3".to_string()));
    assert_eq!(qp[1], ("per_page".to_string(), "40".to_string()));
    cli.page = None;
    let qp = pagination_qp(&cli);
    assert_eq!(qp, vec![("per_page".to_string(), "40".to_string())]);
}

#[test]
fn fmt_from_cli_priorities() {
    let mut cli = mk_cli();
    assert!(matches!(fmt_from_cli(&cli), OutputFormat::Yaml));
    cli.json = true;
    assert!(matches!(fmt_from_cli(&cli), OutputFormat::Json));
    cli.raw = true;
    assert!(matches!(fmt_from_cli(&cli), OutputFormat::Raw));
}

#[test]
fn photo_size_keys() {
    assert_eq!(PhotoSize::Original.key(), "original");
    assert_eq!(PhotoSize::Large2x.key(), "large2x");
    assert_eq!(PhotoSize::Tiny.key(), "tiny");
}

#[test]
fn token_presence_requires_non_empty() {
    let mut cfg = Config::default();
    let (src, present) = cfg.token_source_with_presence();
    assert_eq!(src, "none");
    assert!(!present);
    cfg.token = Some(String::new());
    cfg.token_source = Some(TokenSource::Cli);
    let (src, present) = cfg.token_source_with_presence();
    assert_eq!(src, "cli");
    assert!(!present);
    cfg.token = Some("t".to_string());
    let (_, present) = cfg.token_source_with_presence();
    assert!(present);
}

#[test]
fn apply_cli_overrides_host_and_knobs() {
    let mut cfg = Config::default();
    cfg.host = Some("https://old.example".to_string());
    let mut cli = mk_cli();
    cli.timeout = 30;
    cli.max_retries = 5;
    cli.retry_after = Some(2);
    cfg.apply_cli(&cli);
    assert_eq!(cfg.timeout_secs, 30);
    assert_eq!(cfg.max_retries, 5);
    assert_eq!(cfg.retry_after, Some(2));
    // host untouched when the flag is absent
    assert_eq!(cfg.host.as_deref(), Some("https://old.example"));
    cli.host = Some("https://new.example".to_string());
    cfg.apply_cli(&cli);
    assert_eq!(cfg.host.as_deref(), Some("https://new.example"));
}

#[test]
fn config_set_key_accepts_token_names_only() {
    let mut cfg = Config::default();
    assert!(pexels::cli::config_set_key(&mut cfg, "token", "abc"));
    assert_eq!(cfg.token.as_deref(), Some("abc"));
    assert!(pexels::cli::config_set_key(&mut cfg, "api_key", "xyz"));
    assert_eq!(cfg.token.as_deref(), Some("xyz"));
    assert!(!pexels::cli::config_set_key(&mut cfg, "host", "h"));
    assert_eq!(cfg.token.as_deref(), Some("xyz"));
}

#[test]
fn inspect_info_reports_effective_settings() {
    let mut cfg = Config::default();
    cfg.timeout_secs = 15;
    cfg.max_retries = 3;
    let info = inspect_info(&cfg);
    match info.get("host") {
        Some(Json::Str(h)) => assert_eq!(h, "https://api.pexels.com"),
        _ => panic!("host missing"),
    }
    assert!(matches!(info.get("timeout"), Some(Json::Int(15))));
    assert!(matches!(info.get("locale"), Some(Json::Null)));
    assert!(matches!(info.get("max_retries"), Some(Json::Int(3))));
}

#[test]
fn duplicate_keys_resolve_to_first() {
    let doc = Json::Obj(vec![
        ("a".to_string(), Json::Int(1)),
        ("a".to_string(), Json::Int(2)),
    ]);
    assert!(matches!(doc.get("a"), Some(Json::Int(1))));
    let out = project(&doc, &vec!["a".to_string()]);
    assert!(matches!(out.get("a"), Some(Json::Int(1))));
}

#[test]
fn json_eq_and_deep_copy_agree() {
    let doc = Json::Obj(vec![
        ("k".to_string(), Json::Arr(vec![Json::Int(1), Json::Null])),
        ("s".to_string(), Json::Str("x".to_string())),
    ]);
    let copy = doc.deep_copy();
    assert!(json_eq(&doc, &copy));
    let other = Json::Obj(vec![("k".to_string(), Json::Arr(vec![Json::Int(1)]))]);
    assert!(!json_eq(&doc, &other));
    // scalars on non-objects resolve no fields
    assert!(Json::Int(3).get("k").is_none());
}

#[test]
fn quota_header_names() {
    assert!(pexels::api::is_quota_header("x-ratelimit-limit"));
    assert!(pexels::api::is_quota_header("x-ratelimit-remaining"));
    assert!(pexels::api::is_quota_header("x-ratelimit-reset"));
    assert!(!pexels::api::is_quota_header("content-type"));
}
