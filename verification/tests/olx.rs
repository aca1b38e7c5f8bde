use uzwatch::json::{JsonNumber, JsonValue};
use uzwatch::olx::{self, ApiResponse};
use uzwatch::olx_watch::{
    default_version, extract_category_id, extract_id, page_offers, page_url, sorted_distinct,
    CategoryCrawl, Poll, State,
};

fn to_json(v: &serde_json::Value) -> JsonValue {
    match v {
        serde_json::Value::Null => JsonValue::Null,
        serde_json::Value::Bool(b) => JsonValue::Bool(*b),
        serde_json::Value::Number(n) => JsonValue::Number(match (n.as_u64(), n.as_i64()) {
            (Some(u), _) => JsonNumber::UInt(u),
            (None, Some(i)) => JsonNumber::NegInt(i),
            (None, None) => JsonNumber::Float(n.to_string()),
        }),
        serde_json::Value::String(s) => JsonValue::Str(s.clone()),
        serde_json::Value::Array(a) => JsonValue::Array(a.iter().map(to_json).collect()),
        serde_json::Value::Object(m) => {
            JsonValue::Object(m.iter().map(|(k, v)| (k.clone(), to_json(v))).collect())
        }
    }
}

/// A JSON text as the library's value (the tests build values this way).
fn parse_json(text: &str) -> Option<JsonValue> {
    serde_json::from_str::<serde_json::Value>(text).ok().map(|v| to_json(&v))
}


fn offers(text: &str) -> Vec<JsonValue> {
    match parse_json(text) {
        Some(JsonValue::Array(v)) => v,
        other => panic!("not an array: {other:?}"),
    }
}

#[test]
fn test_extract_id() {
    let offer = parse_json(r#"{"id": 12345}"#).unwrap();
    assert_eq!(extract_id(&offer), Some(12345));
}

#[test]
fn test_extract_id_missing() {
    assert_eq!(extract_id(&parse_json("{}").unwrap()), None);
}

#[test]
fn test_extract_category_id() {
    let offer = parse_json(r#"{"category": {"id": 42}}"#).unwrap();
    assert_eq!(extract_category_id(&offer), Some(42));
}

#[test]
fn main_test_state_default() {
    let state = State::default();
    assert_eq!(state.version, 1);
    assert_eq!(state.max_id, 0);
    assert!(!state.initial_complete);
    assert!(state.known_categories.is_empty());
}

#[test]
fn lib_extract_id_and_version() {
    assert_eq!(olx::extract_id(&parse_json(r#"{"id": 3}"#).unwrap()), Some(3));
    assert_eq!(olx::extract_id(&parse_json(r#"[1]"#).unwrap()), None);
    assert_eq!(default_version(), 1);
    assert_eq!(extract_category_id(&parse_json(r#"{"category": 5}"#).unwrap()), None);
}

#[test]
fn page_addresses() {
    assert_eq!(
        page_url(None, 0),
        "https://www.olx.uz/api/v1/offers/?offset=0&limit=50&sort_by=created_at:desc"
    );
    assert_eq!(
        page_url(Some(317), 150),
        "https://www.olx.uz/api/v1/offers/?offset=150&limit=50&category_id=317&sort_by=created_at:desc"
    );
    assert_eq!(
        page_url(Some(u64::MAX), 1000),
        "https://www.olx.uz/api/v1/offers/?offset=1000&limit=50&category_id=18446744073709551615&sort_by=created_at:desc"
    );
}

#[test]
fn page_flags() {
    let full: Vec<JsonValue> = (0..50).map(|i| parse_json(&format!("{{\"id\":{i}}}")).unwrap()).collect();
    let (o, more) = page_offers(Some(ApiResponse { data: Some(full) }));
    assert_eq!(o.len(), 50);
    assert!(more);
    let (o, more) = page_offers(Some(ApiResponse { data: Some(offers(r#"[{"id":1}]"#)) }));
    assert_eq!(o.len(), 1);
    assert!(!more);
    let (o, more) = page_offers(Some(ApiResponse { data: None }));
    assert!(o.is_empty() && !more);
    let (o, more) = page_offers(None);
    assert!(o.is_empty() && !more);
}

#[test]
fn crawl_pages_each_category_once_and_writes_each_offer_once() {
    let mut state = State::default();
    let mut crawl = CategoryCrawl::new();
    assert_eq!(crawl.next_request(), Some((None, 0)));
    // default listing, first page: categories 10 and 20 discovered
    let p1 = offers(r#"[{"id":1,"category":{"id":10}},{"id":2,"category":{"id":20}},{"id":1,"category":{"id":30}}]"#);
    assert_eq!(crawl.absorb(&mut state, &p1, true), vec![0, 1]);
    assert_eq!(crawl.next_request(), Some((None, 50)));
    // default listing ends
    let p2 = offers(r#"[{"id":3,"category":{"id":10}}]"#);
    assert_eq!(crawl.absorb(&mut state, &p2, false), vec![0]);
    assert_eq!(crawl.next_request(), Some((Some(10), 0)));
    // category 10 finds category 40 and an offer seen before
    let p3 = offers(r#"[{"id":2},{"id":4,"category":{"id":40}}]"#);
    assert_eq!(crawl.absorb(&mut state, &p3, false), vec![1]);
    assert_eq!(crawl.next_request(), Some((Some(20), 0)));
    assert_eq!(crawl.absorb(&mut state, &Vec::new(), true), Vec::<usize>::new());
    assert_eq!(crawl.next_request(), Some((Some(40), 0)));
    let p4 = offers(r#"[{"id":9,"category":{"id":20}}]"#);
    assert_eq!(crawl.absorb(&mut state, &p4, true), vec![0]);
    assert_eq!(crawl.next_request(), Some((Some(40), 50)));
    assert_eq!(crawl.absorb(&mut state, &p4, true), Vec::<usize>::new());
    assert_eq!(crawl.next_request(), Some((Some(40), 100)));
    assert_eq!(crawl.absorb(&mut state, &Vec::new(), true), Vec::<usize>::new());
    assert_eq!(crawl.next_request(), None);
    assert_eq!(state.max_id, 9);
    crawl.finish(&mut state);
    assert!(state.initial_complete);
    assert_eq!(state.known_categories, vec![10, 20, 40]);
}

#[test]
fn crawl_category_paging_stops_at_offset_cap() {
    let mut state = State::default();
    let mut crawl = CategoryCrawl::new();
    let seed = offers(r#"[{"id":1,"category":{"id":7}}]"#);
    crawl.absorb(&mut state, &seed, false);
    let mut offset = 0;
    while let Some((Some(7), o)) = crawl.next_request() {
        assert_eq!(o, offset);
        let page = offers(&format!("[{{\"id\":{}}}]", 100 + o));
        crawl.absorb(&mut state, &page, true);
        offset += 50;
    }
    assert_eq!(offset, 1050);
    assert_eq!(crawl.next_request(), None);
}

#[test]
fn crawl_without_categories_ends_after_default_listing() {
    let mut state = State::default();
    let mut crawl = CategoryCrawl::new();
    crawl.absorb(&mut state, &offers(r#"[{"id":4}]"#), false);
    assert_eq!(crawl.next_request(), None);
    crawl.finish(&mut state);
    assert!(state.known_categories.is_empty());
    assert_eq!(state.max_id, 4);
}

#[test]
fn sorting_categories() {
    assert_eq!(sorted_distinct(&vec![30, 10, 20]), vec![10, 20, 30]);
    assert_eq!(sorted_distinct(&vec![]), Vec::<u64>::new());
}

#[test]
fn poll_cycle() {
    let mut state = State { version: 1, max_id: 10, initial_complete: true, known_categories: vec![] };
    let mut poll = Poll::new(&state);
    let p1 = offers(r#"[{"id":13},{"id":12},{"id":9}]"#);
    assert_eq!(poll.absorb(&p1, true), vec![0, 1]);
    assert!(!poll.done);
    assert_eq!(poll.offset, 50);
    let p2 = offers(r#"[{"id":11},{"id":8}]"#);
    assert_eq!(poll.absorb(&p2, true), vec![0]);
    let p3 = offers(r#"[{"id":7}]"#);
    assert_eq!(poll.absorb(&p3, true), Vec::<usize>::new());
    assert!(poll.done);
    assert_eq!(poll.finish(&mut state), 3);
    assert_eq!(state.max_id, 13);
    let mut again = Poll::new(&state);
    assert!(again.absorb(&p1, true).is_empty());
    assert!(again.done);
    assert_eq!(again.finish(&mut state), 0);
    assert_eq!(state.max_id, 13);
}
