use uzwatch::birbir::{
    extract_id, parse_cookie_json, parse_session_token, simple_b64_decode, token_expired_at,
    token_from_set_cookie_lines, url_decode, cached_token_of, Paginator,
};
use uzwatch::birbir_watch::{
    self, feed_page, feed_request, fresh_cached_token, initial_page, is_token_expired,
    next_poll_page, scan_headers_for_token, stale_cached_token, token_from_cookie_output,
    FeedContent, FeedPoll, FeedResponse, State,
};
use uzwatch::json::{JsonNumber, JsonValue};

fn to_json(v: &serde_json::Value) -> JsonValue {
    match v {
        serde_json::Value::Null => JsonValue::Null,
        serde_json::Value::Bool(b) => JsonValue::Bool(*b),
        serde_json::Value::Number(n) => JsonValue::Number(match (n.as_u64(), n.as_i64()) {
            (Some(u), _) => JsonNumber::UInt(u),
            (None, Some(i)) => JsonNumber::NegInt(i),
            (None, None) => JsonNumber::Float(n.to_string()),
        }),
        serde_json::Value::String(s) => JsonValue::Str(s.clone()),
        serde_json::Value::Array(a) => JsonValue::Array(a.iter().map(to_json).collect()),
        serde_json::Value::Object(m) => {
            JsonValue::Object(m.iter().map(|(k, v)| (k.clone(), to_json(v))).collect())
        }
    }
}

/// A JSON text as the library's value (the tests build values this way).
fn parse_json(text: &str) -> Option<JsonValue> {
    serde_json::from_str::<serde_json::Value>(text).ok().map(|v| to_json(&v))
}


fn b64(s: &str) -> String {
    base64::Engine::encode(&base64::engine::general_purpose::STANDARD, s)
}

fn offers(text: &str) -> Vec<JsonValue> {
    match parse_json(text) {
        Some(JsonValue::Array(v)) => v,
        other => panic!("not an array: {other:?}"),
    }
}

#[test]
fn test_state_default() {
    let state = State::default();
    assert_eq!(state.version, 1);
    assert_eq!(state.max_id, 0);
    assert!(!state.initial_complete);
}

#[test]
fn test_token_expired_malformed() {
    assert!(is_token_expired(""));
    assert!(is_token_expired("abc"));
    assert!(is_token_expired("a.b"));
}

#[test]
fn test_token_expired_future() {
    let payload = r#"{"exp":9999999999}"#;
    let token = format!("header.{}.sig", b64(payload));
    assert!(!is_token_expired(&token));
}

#[test]
fn watch_token_expiry_uses_exp_and_margin() {
    let token = format!("h.{}.s", b64(r#"{"exp":1000}"#));
    assert!(!birbir_watch::token_expired_at(&token, 939));
    assert!(birbir_watch::token_expired_at(&token, 940));
    let no_exp = format!("h.{}.s", b64(r#"{"sub":"x"}"#));
    assert!(birbir_watch::token_expired_at(&no_exp, 0));
    // JWT payloads come without padding; both forms are read
    let padded = b64(r#"{"exp":99999999999}"#);
    assert!(padded.ends_with('='));
    let unpadded = format!("h.{}.s", padded.trim_end_matches('='));
    assert!(!birbir_watch::token_expired_at(&unpadded, 0));
    assert!(!uzwatch::birbir::token_expired_at(&unpadded, 0));
    assert!(!birbir_watch::token_expired_at(&format!("h.{padded}.s"), 0));
    // padding in the wrong amount is refused by the strict decoder
    let wrong = format!("h.{}=.s", padded);
    assert!(birbir_watch::token_expired_at(&wrong, 0));
}

#[test]
fn watch_token_unpadded_jwt_is_read_now() {
    assert!(!is_token_expired("h.eyJleHAiOjk5OTk5OTk5OTk5fQ.s"));
    assert!(is_token_expired("h.eyJleHAiOjEwMDB9.s"));
}

#[test]
fn b64_round_trip_with_and_without_padding() {
    let samples: [&[u8]; 6] = [b"", b"f", b"fo", b"foo", b"\x00\xff\x10\x80", b"any carnal pleasure."];
    for bytes in samples {
        let padded = base64::Engine::encode(&base64::engine::general_purpose::STANDARD, bytes);
        let unpadded = padded.trim_end_matches('=');
        assert_eq!(simple_b64_decode(&padded), Some(bytes.to_vec()));
        assert_eq!(simple_b64_decode(unpadded), Some(bytes.to_vec()));
        let spread: String = unpadded.chars().flat_map(|c| [c, '=']).collect();
        assert_eq!(simple_b64_decode(&spread), Some(bytes.to_vec()));
    }
}

#[test]
fn b64_decode_values() {
    assert_eq!(simple_b64_decode("aGVsbG8="), Some(b"hello".to_vec()));
    assert_eq!(simple_b64_decode("aGVsbG8"), Some(b"hello".to_vec()));
    assert_eq!(simple_b64_decode("TWFu"), Some(b"Man".to_vec()));
    assert_eq!(simple_b64_decode("-_"), Some(vec![0xfb]));
    assert_eq!(simple_b64_decode("a"), Some(vec![]));
    assert_eq!(simple_b64_decode(""), Some(vec![]));
    assert_eq!(simple_b64_decode("a=b="), Some(vec![0x69]));
    assert_eq!(simple_b64_decode("ab!c"), None);
    assert_eq!(simple_b64_decode("Ж"), None);
}

#[test]
fn url_decode_values() {
    assert_eq!(url_decode("j%3A%7B%7D"), "j:{}");
    assert_eq!(url_decode("a+b"), "a b");
    assert_eq!(url_decode("%4"), "@");
    assert_eq!(url_decode("%zz!"), "\u{0}!");
    assert_eq!(url_decode("%e9"), "\u{e9}");
    assert_eq!(url_decode("plain"), "plain");
}

#[test]
fn lib_token_expiry() {
    let payload = simple_b64_encode_free(r#"{"exp":100}"#);
    let token = format!("x.{payload}.y");
    assert!(!token_expired_at(&token, 39));
    assert!(token_expired_at(&token, 40));
    assert!(token_expired_at("nodots", 0));
    assert!(token_expired_at("a.!!.b", 0));
    let not_json = format!("a.{}.b", simple_b64_encode_free("nope"));
    assert!(token_expired_at(&not_json, 0));
    let big = format!("a.{}.b", simple_b64_encode_free(r#"{"exp":18446744073709551615}"#));
    assert!(!token_expired_at(&big, 0));
    assert!(token_expired_at(&big, u64::MAX));
}

fn simple_b64_encode_free(s: &str) -> String {
    b64(s).trim_end_matches('=').to_string()
}

#[test]
fn session_token_forms() {
    assert_eq!(parse_session_token(r#"j:{"accessToken":"tok"}"#), Some("tok".to_string()));
    assert_eq!(
        parse_session_token("j%3A%7B%22accessToken%22%3A%22tok%22%7D"),
        Some("tok".to_string())
    );
    assert_eq!(parse_session_token(r#"x:{"accessToken":"tok"}"#), None);
    assert_eq!(parse_session_token(r#"j:{"accessToken":5}"#), None);
    assert_eq!(parse_session_token("j:not json"), None);
    // lib version turns '+' into a space, the watcher's keeps it
    assert_eq!(parse_session_token("j%3A%7B%22accessToken%22%3A%22a+b%22%7D"), Some("a b".to_string()));
    assert_eq!(
        birbir_watch::parse_session_token("j%3A%7B%22accessToken%22%3A%22a+b%22%7D"),
        Some("a+b".to_string())
    );
    assert_eq!(birbir_watch::parse_session_token("j%3A%FF"), None);
}

#[test]
fn cookie_json_choice() {
    let json = r#"[{"name":"other","value":"j:{}"},{"name":"SESSION","value":"j:{\"accessToken\":\"t1\"}"}]"#;
    assert_eq!(parse_cookie_json(json), Some("t1".to_string()));
    let no_value = r#"[{"name":"session"},{"name":"","value":"j:{\"accessToken\":\"t2\"}"}]"#;
    assert_eq!(parse_cookie_json(no_value), None);
    let unnamed = r#"[{"value":"j:{\"accessToken\":\"t3\"}"}]"#;
    assert_eq!(parse_cookie_json(unnamed), Some("t3".to_string()));
    assert_eq!(parse_cookie_json(r#"{"name":"session"}"#), None);
    assert_eq!(parse_cookie_json("not json"), None);
}

#[test]
fn agent_browser_output() {
    let out = br#"[{"name":"session","value":"bad"},{"name":"Session","value":"j:{\"accessToken\":\"ok\"}"}]"#;
    assert_eq!(token_from_cookie_output(out), Some("ok".to_string()));
    assert_eq!(token_from_cookie_output(b"[]"), None);
    assert_eq!(token_from_cookie_output(b"\xff"), None);
}

#[test]
fn set_cookie_scans() {
    let headers = "HTTP/2 200\r\nset-cookie: theme=dark\r\nSet-Cookie: session=j%3A%7B%22accessToken%22%3A%22abc%22%7D; Path=/\r\n\r\n";
    assert_eq!(token_from_set_cookie_lines(headers), Some("abc".to_string()));
    assert_eq!(scan_headers_for_token(headers), Some("abc".to_string()));
    let first_bad = "Set-Cookie: session=j:broken\nSet-Cookie: session=j:{\"accessToken\":\"z\"}\n";
    // the direct fetch keeps scanning; the watcher's scan stops at the first session cookie
    assert_eq!(token_from_set_cookie_lines(first_bad), Some("z".to_string()));
    assert_eq!(scan_headers_for_token(first_bad), None);
    assert_eq!(scan_headers_for_token("Content-Type: x\n"), None);
}

#[test]
fn cached_token_files() {
    assert_eq!(cached_token_of("  tok \n"), Some("tok".to_string()));
    assert_eq!(cached_token_of(" \n"), None);
    let fresh = format!("h.{}.s", b64(r#"{"exp":500}"#));
    assert_eq!(fresh_cached_token(&format!("{fresh}\n"), 100), Some(fresh.clone()));
    assert_eq!(fresh_cached_token(&fresh, 450), None);
    assert_eq!(stale_cached_token(&format!(" {fresh} ")), Some(fresh));
}

#[test]
fn extract_offer_id() {
    let o = parse_json(r#"{"id": 77, "title": "x"}"#).unwrap();
    assert_eq!(extract_id(&o), Some(77));
    let neg = parse_json(r#"{"id": -1}"#).unwrap();
    assert_eq!(extract_id(&neg), None);
    let s = parse_json(r#"{"id": "7"}"#).unwrap();
    assert_eq!(extract_id(&s), None);
}

#[test]
fn feed_pages() {
    let p = Paginator { step: 40, current: 1, next_page_exists: true };
    assert_eq!(p.current, 1);
    let feed = FeedResponse {
        content: Some(FeedContent {
            items: Some(offers(r#"[{"id":1},{"id":2}]"#)),
            paginator: Some(birbir_watch::Paginator { next_page_exists: true }),
        }),
    };
    let (items, more) = feed_page(Some(feed));
    assert_eq!(items.len(), 2);
    assert!(more);
    let (items, more) = feed_page(Some(FeedResponse { content: Some(FeedContent { items: None, paginator: None }) }));
    assert!(items.is_empty() && !more);
    let (items, more) = feed_page(None);
    assert!(items.is_empty() && !more);
    let body = feed_request(3);
    assert_eq!(body.get("page").and_then(|v| v.as_u64()), Some(3));
    assert_eq!(body.get("perPage").and_then(|v| v.as_u64()), Some(40));
    assert_eq!(body.get("region").and_then(|v| v.as_str()), Some("all"));
    assert!(matches!(body.get("sort"), Some(JsonValue::Number(JsonNumber::UInt(2)))));
}

#[test]
fn initial_collection_pages() {
    let mut state = State::default();
    let page = offers(r#"[{"id":5},{"x":1},{"id":9},{"id":2}]"#);
    let (written, next) = initial_page(&mut state, &page, true, 1);
    assert_eq!(written, vec![0, 2, 3]);
    assert_eq!(state.max_id, 9);
    assert_eq!(next, Some(2));
    let (_, next) = initial_page(&mut state, &page, false, 2);
    assert_eq!(next, None);
    let (written, next) = initial_page(&mut state, &Vec::new(), true, 3);
    assert!(written.is_empty());
    assert_eq!(next, None);
    let (_, next) = initial_page(&mut state, &page, true, 10000);
    assert_eq!(next, None);
    birbir_watch::complete_initial(&mut state);
    assert!(state.initial_complete);
}

#[test]
fn polling_writes_only_newer_and_is_idempotent() {
    let mut state = State { version: 1, max_id: 5, initial_complete: true };
    let page = offers(r#"[{"id":7},{"id":3},{"id":6},{"nope":true}]"#);
    let mut poll = FeedPoll::new(&state);
    let written = poll.absorb(&page, false);
    assert_eq!(written, vec![0, 2]);
    assert!(poll.done);
    assert_eq!(poll.finish(&mut state), 2);
    assert_eq!(state.max_id, 7);
    let mut again = FeedPoll::new(&state);
    assert!(again.absorb(&page, true).is_empty());
    assert!(again.done);
    assert_eq!(again.finish(&mut state), 0);
    assert_eq!(state.max_id, 7);
    let old = offers(r#"[{"id":1}]"#);
    let mut third = FeedPoll::new(&state);
    assert!(third.absorb(&old, true).is_empty());
    third.finish(&mut state);
    assert_eq!(state.max_id, 7);
}

#[test]
fn polling_goes_past_the_first_page_until_a_page_is_all_known() {
    let mut state = State { version: 1, max_id: 10, initial_complete: true };
    let first = offers(r#"[{"id":40},{"id":30}]"#);
    let second = offers(r#"[{"id":20},{"id":9}]"#);
    let third = offers(r#"[{"id":8},{"id":5}]"#);
    let mut poll = FeedPoll::new(&state);
    assert_eq!(poll.page, 1);
    assert_eq!(poll.absorb(&first, true), vec![0, 1]);
    assert!(!poll.done);
    assert_eq!(poll.page, 2);
    // offers of page 2 are compared with the mark the cycle started with
    assert_eq!(poll.absorb(&second, true), vec![0]);
    assert_eq!(poll.page, 3);
    assert!(poll.absorb(&third, true).is_empty());
    assert!(poll.done);
    assert_eq!(poll.finish(&mut state), 3);
    assert_eq!(state.max_id, 40);
}

#[test]
fn next_poll_page_rules() {
    assert_eq!(next_poll_page(1, 3, true), Some(2));
    assert_eq!(next_poll_page(1, 0, true), None);
    assert_eq!(next_poll_page(1, 3, false), None);
    assert_eq!(next_poll_page(10000, 3, true), None);
}
