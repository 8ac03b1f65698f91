use pexels::cli::shape_output;
use pexels::json::Json;
use pexels::output::{parse_page_number, wrap_ok};
use pexels::proj::project_item_with_fallback;

fn jobj(pairs: Vec<(&str, Json)>) -> Json {
    Json::Obj(pairs.into_iter().map(|(k, v)| (k.to_string(), v)).collect())
}

fn jstr(s: &str) -> Json {
    Json::Str(s.to_string())
}

fn sv(xs: &[&str]) -> Vec<String> {
    xs.iter().map(|x| x.to_string()).collect()
}

#[test]
fn test_parse_page_number() {
    assert_eq!(parse_page_number("https://x/y?page=2&per_page=5"), Some(2));
    assert_eq!(parse_page_number("/v1/search?page=10"), Some(10));
    assert_eq!(parse_page_number("/v1/search?foo=bar"), None);
}

#[test]
fn test_shape_output_wraps_list_and_meta() {
    let resp = jobj(vec![
        ("page", Json::Int(1)),
        ("per_page", Json::Int(2)),
        (
            "next_page",
            jstr("https://api.pexels.com/v1/search?page=2&per_page=2&query=cats"),
        ),
        (
            "photos",
            Json::Arr(vec![
                jobj(vec![("id", Json::Int(1)), ("photographer", jstr("A"))]),
                jobj(vec![("id", Json::Int(2)), ("photographer", jstr("B"))]),
            ]),
        ),
    ]);
    let (data, meta) = shape_output(&resp);
    assert!(matches!(data, Json::Arr(_)));
    let out = wrap_ok(&data, Some(meta));
    assert!(out.get("data").is_some());
    assert!(out.get("meta").is_some());
    let meta_out = out.get("meta").unwrap();
    assert!(meta_out.get("page").is_none());
    assert!(meta_out.get("per_page").is_none());
    assert!(matches!(
        meta_out.get("next_page"),
        Some(Json::Int(_)) | Some(Json::Null)
    ));
    // Ensure page/per_page not present anywhere but original
    assert!(out.get("page").is_none());
    assert!(out.get("per_page").is_none());
}

#[test]
fn test_single_resource_projection_fallback() {
    let item = jobj(vec![
        ("id", Json::Int(123)),
        ("url", jstr("u")),
        ("width", Json::Int(100)),
        ("height", Json::Int(200)),
        ("src", jobj(vec![("original", jstr("heavy"))])),
    ]);
    // Project a field that doesn't exist to force empty projection
    let projected = project_item_with_fallback(&item, &sv(&["nonexistent"]));
    match &projected {
        Json::Obj(fields) => assert!(!fields.is_empty()),
        _ => panic!("expected object"),
    }
}

#[test]
fn shape_output_next_page_url_reads_page_two() {
    let resp = jobj(vec![(
        "next_page",
        jstr("https://api.pexels.com/v1/search?page=2&per_page=2&query=x"),
    )]);
    let (_, meta) = shape_output(&resp);
    match meta.get("next_page") {
        Some(Json::Int(n)) => assert_eq!(*n, 2),
        _ => panic!("next_page should be 2"),
    }
}

#[test]
fn shape_output_without_next_page_is_null() {
    let resp = jobj(vec![("total_results", Json::Int(7))]);
    let (_, meta) = shape_output(&resp);
    assert!(matches!(meta.get("next_page"), Some(Json::Null)));
    match meta.get("total_results") {
        Some(Json::Int(n)) => assert_eq!(*n, 7),
        _ => panic!("total_results missing"),
    }
}

#[test]
fn shape_output_keeps_single_resource_whole() {
    let resp = jobj(vec![("id", Json::Int(9)), ("width", Json::Int(3))]);
    let (data, _) = shape_output(&resp);
    assert!(pexels::json::json_eq(&data, &resp));
}

#[test]
fn wrap_ok_replaces_non_object_meta() {
    let data = jstr("payload");
    let out = wrap_ok(&data, Some(Json::Int(5)));
    match out.get("meta") {
        Some(Json::Obj(fields)) => assert!(fields.is_empty()),
        _ => panic!("meta should be an empty object"),
    }
}

#[test]
fn parse_u32_accepts_decimals_and_plus_only() {
    assert_eq!(pexels::text::parse_u32("10"), Some(10));
    assert_eq!(pexels::text::parse_u32("+7"), Some(7));
    assert_eq!(pexels::text::parse_u32("0"), Some(0));
    assert_eq!(pexels::text::parse_u32("4294967295"), Some(u32::MAX));
    assert_eq!(pexels::text::parse_u32("4294967296"), None);
    assert_eq!(pexels::text::parse_u32(""), None);
    assert_eq!(pexels::text::parse_u32("+"), None);
    assert_eq!(pexels::text::parse_u32("12a"), None);
    assert_eq!(pexels::text::parse_u32("-3"), None);
}
