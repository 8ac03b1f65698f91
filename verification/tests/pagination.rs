use pexels::api::{Aggregator, Pending};
use pexels::json::Json;

fn jobj(pairs: Vec<(&str, Json)>) -> Json {
    Json::Obj(pairs.into_iter().map(|(k, v)| (k.to_string(), v)).collect())
}

fn jstr(s: &str) -> Json {
    Json::Str(s.to_string())
}

fn keys(pairs: &[(&str, &str)]) -> Vec<(String, String)> {
    pairs
        .iter()
        .map(|(a, b)| (a.to_string(), b.to_string()))
        .collect()
}

fn photo(id: i64) -> Json {
    jobj(vec![("id", Json::Int(id))])
}

#[test]
fn pagination_all_limit_respected() {
    let mut agg = Aggregator::new(keys(&[("photos", "photos")]), Some(3), None);
    assert!(agg.wants_fetch());
    let page1 = jobj(vec![
        ("page", Json::Int(1)),
        ("per_page", Json::Int(2)),
        (
            "next_page",
            jstr("https://api.example.test/v1/search?page=2&per_page=2&query=dog"),
        ),
        ("photos", Json::Arr(vec![photo(1), photo(2)])),
    ]);
    agg.absorb_page(&page1);
    assert_eq!(agg.collected, 2);
    match &agg.pending {
        Pending::Link(url) => assert!(url.contains("page=2")),
        _ => panic!("a second page should be pending"),
    }
    let page2 = jobj(vec![
        ("page", Json::Int(2)),
        ("per_page", Json::Int(2)),
        (
            "next_page",
            jstr("https://api.example.test/v1/search?page=3&per_page=2&query=dog"),
        ),
        ("photos", Json::Arr(vec![photo(3), photo(4)])),
    ]);
    agg.absorb_page(&page2);
    // exactly 3 items, and no third fetch is pending
    assert_eq!(agg.collected, 3);
    assert!(!agg.wants_fetch());
    let result = agg.into_result();
    match result.get("photos") {
        Some(Json::Arr(items)) => assert_eq!(items.len(), 3),
        _ => panic!("photos array missing"),
    }
}

#[test]
fn pagination_limit_zero_still_fetches_once() {
    let mut agg = Aggregator::new(keys(&[("photos", "photos")]), Some(0), None);
    // the first request is issued even with a zero limit
    assert!(agg.wants_fetch());
    let page1 = jobj(vec![
        ("page", Json::Int(1)),
        ("per_page", Json::Int(2)),
        ("total_results", Json::Int(40)),
        (
            "next_page",
            jstr("https://api.example.test/v1/search?page=2"),
        ),
        ("photos", Json::Arr(vec![photo(1), photo(2)])),
    ]);
    agg.absorb_page(&page1);
    // zero items, one page, metadata carried over, nothing more pending
    assert_eq!(agg.collected, 0);
    assert_eq!(agg.pages, 1);
    assert!(!agg.wants_fetch());
    let result = agg.into_result();
    match result.get("photos") {
        Some(Json::Arr(items)) => assert!(items.is_empty()),
        _ => panic!("photos array missing"),
    }
    match result.get("total_results") {
        Some(Json::Int(n)) => assert_eq!(*n, 40),
        _ => panic!("metadata should be carried over"),
    }
    match result.get("page") {
        Some(Json::Int(n)) => assert_eq!(*n, 1),
        _ => panic!("metadata should be carried over"),
    }
    assert!(result.get("next_page").is_none());
}

#[test]
fn pagination_first_page_metadata_wins() {
    let mut agg = Aggregator::new(keys(&[("photos", "photos")]), None, Some(2));
    let page1 = jobj(vec![
        ("per_page", Json::Int(2)),
        (
            "next_page",
            jstr("https://api.example.test/v1/search?page=2"),
        ),
        ("photos", Json::Arr(vec![photo(1)])),
    ]);
    agg.absorb_page(&page1);
    let page2 = jobj(vec![
        ("per_page", Json::Int(80)),
        ("photos", Json::Arr(vec![photo(2)])),
    ]);
    agg.absorb_page(&page2);
    let result = agg.into_result();
    match result.get("per_page") {
        Some(Json::Int(n)) => assert_eq!(*n, 2),
        _ => panic!("per_page missing"),
    }
}

#[test]
fn pagination_stops_on_unparseable_link() {
    let mut agg = Aggregator::new(keys(&[("photos", "photos")]), None, None);
    let page1 = jobj(vec![
        ("next_page", jstr("::not a url::")),
        ("photos", Json::Arr(vec![photo(1)])),
    ]);
    agg.absorb_page(&page1);
    assert!(!agg.wants_fetch());
}

#[test]
fn pagination_stops_on_numeric_link() {
    let mut agg = Aggregator::new(keys(&[("videos", "videos")]), None, None);
    let page1 = jobj(vec![
        ("next_page", Json::Int(2)),
        ("videos", Json::Arr(vec![photo(1)])),
    ]);
    agg.absorb_page(&page1);
    assert!(!agg.wants_fetch());
}

#[test]
fn pagination_max_pages_cap() {
    let mut agg = Aggregator::new(keys(&[("photos", "photos")]), None, Some(1));
    let page1 = jobj(vec![
        (
            "next_page",
            jstr("https://api.example.test/v1/search?page=2"),
        ),
        ("photos", Json::Arr(vec![photo(1), photo(2)])),
    ]);
    agg.absorb_page(&page1);
    assert_eq!(agg.pages, 1);
    assert!(!agg.wants_fetch());
}

#[test]
fn pagination_mid_array_cut() {
    let mut agg = Aggregator::new(keys(&[("photos", "photos")]), Some(1), None);
    let page1 = jobj(vec![(
        "photos",
        Json::Arr(vec![photo(1), photo(2), photo(3)]),
    )]);
    agg.absorb_page(&page1);
    assert_eq!(agg.collected, 1);
    let result = agg.into_result();
    match result.get("photos") {
        Some(Json::Arr(items)) => {
            assert_eq!(items.len(), 1);
            assert!(matches!(items[0].get("id"), Some(Json::Int(1))));
        }
        _ => panic!("photos array missing"),
    }
}
