use pexels::cli::{build_envelope, DefaultFields};
use pexels::json::{json_eq, Json};
use pexels::proj::{project, project_item_with_fallback};

fn jobj(pairs: Vec<(&str, Json)>) -> Json {
    Json::Obj(pairs.into_iter().map(|(k, v)| (k.to_string(), v)).collect())
}

fn jstr(s: &str) -> Json {
    Json::Str(s.to_string())
}

fn sv(xs: &[&str]) -> Vec<String> {
    xs.iter().map(|x| x.to_string()).collect()
}

#[test]
fn test_project_dot() {
    let v = jobj(vec![
        ("a", jobj(vec![("b", jobj(vec![("c", Json::Int(1))]))])),
        ("id", Json::Int(5)),
        ("url", jstr("x")),
    ]);
    let out = project(&v, &sv(&["a.b.c"]));
    match out
        .get("a")
        .and_then(|a| a.get("b"))
        .and_then(|b| b.get("c"))
    {
        Some(Json::Int(n)) => assert_eq!(*n, 1),
        _ => panic!("a.b.c missing"),
    }
}

#[test]
fn test_sets() {
    let v = jobj(vec![
        ("id", Json::Int(1)),
        ("url", jstr("u")),
        (
            "video_files",
            Json::Arr(vec![jobj(vec![("link", jstr("x"))])]),
        ),
    ]);
    let out = project(&v, &sv(&["@ids", "@urls", "@files"]));
    assert!(matches!(out, Json::Obj(_)));
}

#[test]
fn test_project_array_items_direct() {
    let items = vec![jobj(vec![
        ("id", Json::Int(1)),
        ("width", Json::Int(100)),
        ("height", Json::Int(200)),
        ("src", jobj(vec![("original", jstr("u"))])),
    ])];
    let proj: Vec<Json> = items
        .iter()
        .map(|it| project(it, &sv(&["width", "height"])))
        .collect();
    match proj[0].get("width") {
        Some(Json::Int(n)) => assert_eq!(*n, 100),
        _ => panic!("width missing"),
    }
    assert!(proj[0].get("src").is_none());
}

#[test]
fn project_identity_on_empty_and_all() {
    let doc = jobj(vec![
        ("id", Json::Int(3)),
        ("src", jobj(vec![("original", jstr("u"))])),
    ]);
    assert!(json_eq(&project(&doc, &sv(&[])), &doc));
    assert!(json_eq(&project(&doc, &sv(&["@all"])), &doc));
    assert!(json_eq(&project(&doc, &sv(&["id", "@all"])), &doc));
}

#[test]
fn project_idempotent_on_paths_and_groups() {
    let doc = jobj(vec![
        ("a", jobj(vec![("b", Json::Int(1)), ("c", Json::Int(2))])),
        ("id", Json::Int(7)),
        ("photo_url", jstr("u")),
    ]);
    for sel in [
        sv(&["a.b"]),
        sv(&["@ids"]),
        sv(&["@urls"]),
        sv(&["a.b", "id"]),
    ] {
        let once = project(&doc, &sel);
        let twice = project(&once, &sel);
        assert!(json_eq(&once, &twice));
    }
}

#[test]
fn projection_fallback_keeps_id() {
    let item = jobj(vec![("id", Json::Int(42)), ("name", jstr("foo"))]);
    let raw = project(&item, &sv(&["nonexistent"]));
    match &raw {
        Json::Obj(fields) => assert!(fields.is_empty()),
        _ => panic!("expected object"),
    }
    let fb = project_item_with_fallback(&item, &sv(&["nonexistent"]));
    match fb.get("id") {
        Some(Json::Int(n)) => assert_eq!(*n, 42),
        _ => panic!("fallback should keep id"),
    }
}

#[test]
fn merge_is_right_biased() {
    let doc = jobj(vec![(
        "a",
        jobj(vec![("b", Json::Int(1)), ("c", Json::Int(2))]),
    )]);
    // later selector's object replaces the earlier one at the same key
    let out = project(&doc, &sv(&["a.b", "a.c"]));
    let a = out.get("a").expect("a");
    assert!(a.get("b").is_none());
    match a.get("c") {
        Some(Json::Int(n)) => assert_eq!(*n, 2),
        _ => panic!("a.c missing"),
    }
}

#[test]
fn project_wildcard_maps_over_arrays() {
    let doc = jobj(vec![(
        "items",
        Json::Arr(vec![
            jobj(vec![("id", Json::Int(1)), ("x", Json::Int(9))]),
            jobj(vec![("id", Json::Int(2))]),
        ]),
    )]);
    let out = project(&doc, &sv(&["items[*].id"]));
    let inner = out
        .get("items[*]")
        .and_then(|v| v.get("id"))
        .expect("items[*].id");
    match inner {
        Json::Arr(es) => {
            assert_eq!(es.len(), 2);
            assert!(matches!(es[0], Json::Int(1)));
            assert!(matches!(es[1], Json::Int(2)));
        }
        _ => panic!("expected array of ids"),
    }
}

#[test]
fn envelope_projects_each_item() {
    let resp = jobj(vec![(
        "photos",
        Json::Arr(vec![jobj(vec![
            ("id", Json::Int(1)),
            ("width", Json::Int(100)),
            ("height", Json::Int(200)),
            ("src", jobj(vec![("original", jstr("u"))])),
        ])]),
    )]);
    let out = build_envelope(&resp, &sv(&["width", "height"]), &DefaultFields::Photos);
    let data = out.get("data").expect("data");
    match data {
        Json::Arr(items) => {
            assert_eq!(items.len(), 1);
            let expected = jobj(vec![("width", Json::Int(100)), ("height", Json::Int(200))]);
            assert!(json_eq(&items[0], &expected));
            assert!(items[0].get("src").is_none());
            assert!(items[0].get("id").is_none());
        }
        _ => panic!("data should be an array"),
    }
}

#[test]
fn envelope_uses_default_fields_when_none_given() {
    let resp = jobj(vec![(
        "photos",
        Json::Arr(vec![jobj(vec![
            ("id", Json::Int(1)),
            ("width", Json::Int(100)),
            ("src", jobj(vec![("original", jstr("u"))])),
        ])]),
    )]);
    let out = build_envelope(&resp, &sv(&[]), &DefaultFields::Photos);
    let data = out.get("data").expect("data");
    match data {
        Json::Arr(items) => {
            assert!(items[0].get("id").is_some());
            assert!(items[0].get("width").is_some());
            assert!(items[0].get("src").is_none());
        }
        _ => panic!("data should be an array"),
    }
}
