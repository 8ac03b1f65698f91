use pexels::json::Json;
use pexels::proj::project;

fn jobj(pairs: Vec<(&str, Json)>) -> Json {
    Json::Obj(pairs.into_iter().map(|(k, v)| (k.to_string(), v)).collect())
}

fn sv(xs: &[&str]) -> Vec<String> {
    xs.iter().map(|x| x.to_string()).collect()
}

#[test]
fn test_config_precedence_env_over_config() {
    // Basic smoke: ensure project compiles and functions exist
    let v = jobj(vec![("a", jobj(vec![("b", Json::Int(1))]))]);
    let out = project(&v, &sv(&["a.b"]));
    match out.get("a").and_then(|a| a.get("b")) {
        Some(Json::Int(n)) => assert_eq!(*n, 1),
        _ => panic!("a.b missing"),
    }
}

#[test]
fn single_resource_projection_fallback_non_empty() {
    // Given a single resource and fields that produce an empty object, the
    // raw projection is empty; the envelope layer's fallback is covered by
    // its own tests.
    let resource = jobj(vec![
        ("id", Json::Int(42)),
        ("name", Json::Str("foo".to_string())),
    ]);
    let out = project(&resource, &sv(&["nonexistent"]));
    match out {
        Json::Obj(fields) => assert!(fields.is_empty()),
        _ => panic!("expected object"),
    }
}
