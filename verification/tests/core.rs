use uzwatch::json::{JsonNumber, JsonValue};
use uzwatch::numtext::decimal_chars;
use uzwatch::retry::{Action, FetchPolicy, Fetcher, Reply};
use uzwatch::text::{chars_of, lines_of, split_chars, string_of, trim_chars};
use uzwatch::token_search::{TokenAction, TokenOutcome, TokenSearch, TokenSource, HTTP_ATTEMPTS};

fn to_json(v: &serde_json::Value) -> JsonValue {
    match v {
        serde_json::Value::Null => JsonValue::Null,
        serde_json::Value::Bool(b) => JsonValue::Bool(*b),
        serde_json::Value::Number(n) => JsonValue::Number(match (n.as_u64(), n.as_i64()) {
            (Some(u), _) => JsonNumber::UInt(u),
            (None, Some(i)) => JsonNumber::NegInt(i),
            (None, None) => JsonNumber::Float(n.to_string()),
        }),
        serde_json::Value::String(s) => JsonValue::Str(s.clone()),
        serde_json::Value::Array(a) => JsonValue::Array(a.iter().map(to_json).collect()),
        serde_json::Value::Object(m) => {
            JsonValue::Object(m.iter().map(|(k, v)| (k.clone(), to_json(v))).collect())
        }
    }
}

/// A JSON text as the library's value (the tests build values this way).
fn parse_json(text: &str) -> Option<JsonValue> {
    serde_json::from_str::<serde_json::Value>(text).ok().map(|v| to_json(&v))
}


fn reply(status: u16, body: Option<&str>) -> Reply {
    Reply::Response { status, body: body.map(|b| b.to_string()) }
}

#[test]
fn json_model() {
    let v = parse_json(r#"{"a":1,"b":-2,"c":1.5,"d":"x","e":[true,null],"f":{"g":2}}"#).unwrap();
    assert!(matches!(v.get("a"), Some(JsonValue::Number(JsonNumber::UInt(1)))));
    assert!(matches!(v.get("b"), Some(JsonValue::Number(JsonNumber::NegInt(-2)))));
    assert!(matches!(v.get("c"), Some(JsonValue::Number(JsonNumber::Float(t))) if t == "1.5"));
    assert_eq!(v.get("d").and_then(|d| d.as_str()), Some("x"));
    assert!(matches!(v.get("e"), Some(JsonValue::Array(a)) if a.len() == 2));
    assert_eq!(v.get("f").and_then(|f| f.u64_at("g")), Some(2));
    assert!(v.get("zz").is_none());
    assert!(parse_json("{").is_none());
    assert!(parse_json("1 2").is_none());
    assert_eq!(parse_json("7").unwrap().as_u64(), Some(7));
}

#[test]
fn text_helpers() {
    assert_eq!(string_of(&trim_chars(&chars_of("\u{3000} a b\t\n"))), "a b");
    let ls = lines_of(&chars_of("a\r\nb\n\nc\r"));
    let ls: Vec<String> = ls.iter().map(|l| string_of(l)).collect();
    assert_eq!(ls, vec!["a", "b", "", "c\r"]);
    assert!(lines_of(&chars_of("")).is_empty());
    let parts: Vec<String> = split_chars(&chars_of("a..b"), '.').iter().map(|p| string_of(p)).collect();
    assert_eq!(parts, vec!["a", "", "b"]);
    assert_eq!(split_chars(&chars_of(""), '.').len(), 1);
    assert_eq!(string_of(&decimal_chars(0)), "0");
    assert_eq!(string_of(&decimal_chars(9070)), "9070");
}

#[test]
fn bearer_fetch_renews_token_once_on_401() {
    let mut f = Fetcher::new(FetchPolicy::Bearer);
    assert_eq!(f.next_action(), Action::Send { wait_ms: 0 });
    f.record(Reply::Failed);
    assert_eq!(f.next_action(), Action::Send { wait_ms: 500 });
    f.record(reply(401, Some("no")));
    assert!(f.token_rejected);
    assert_eq!(f.next_action(), Action::Renew);
    f.token_renewed(true);
    assert!(!f.token_rejected);
    assert_eq!(f.next_action(), Action::Send { wait_ms: 0 });
    f.record(reply(200, Some(r#"{"ok":true}"#)));
    assert_eq!(f.next_action(), Action::Stop { wait_ms: 0 });
    assert!(f.body_json().is_some());
    assert_eq!(f.status, Some(200));
}

#[test]
fn bearer_fetch_stops_on_second_401() {
    let mut f = Fetcher::new(FetchPolicy::Bearer);
    f.record(reply(401, None));
    assert_eq!(f.next_action(), Action::Renew);
    f.token_renewed(true);
    f.record(reply(401, None));
    assert!(f.token_rejected);
    assert_eq!(f.next_action(), Action::Stop { wait_ms: 0 });
    assert!(f.body_json().is_none());
    assert_eq!(f.status, Some(401));
    let mut g = Fetcher::new(FetchPolicy::Bearer);
    g.record(reply(401, None));
    g.token_renewed(false);
    assert_eq!(g.next_action(), Action::Stop { wait_ms: 0 });
    assert_eq!(g.status, Some(401));
}

#[test]
fn public_fetch_retries_then_gives_up() {
    let mut f = Fetcher::new(FetchPolicy::Public);
    f.record(reply(401, None));
    assert_eq!(f.next_action(), Action::Send { wait_ms: 500 });
    f.record(reply(200, None));
    assert_eq!(f.next_action(), Action::Send { wait_ms: 1000 });
    f.record(reply(503, Some("busy")));
    assert_eq!(f.next_action(), Action::Stop { wait_ms: 0 });
    assert_eq!(f.attempts, 3);
    // the last status received is kept
    assert_eq!(f.status, Some(503));
}

#[test]
fn status_is_kept_after_retries_and_missing_only_without_responses() {
    let mut f = Fetcher::new(FetchPolicy::RateLimited);
    for _ in 0..3 {
        f.record(reply(500, None));
    }
    assert_eq!(f.next_action(), Action::Stop { wait_ms: 0 });
    assert!(f.body_json().is_none());
    assert_eq!(f.status, Some(500));
    let mut g = Fetcher::new(FetchPolicy::RateLimited);
    g.record(reply(502, None));
    g.record(Reply::Failed);
    g.record(Reply::Failed);
    assert_eq!(g.status, Some(502));
    let mut h = Fetcher::new(FetchPolicy::RateLimited);
    for _ in 0..3 {
        h.record(Reply::Failed);
    }
    assert_eq!(h.next_action(), Action::Stop { wait_ms: 0 });
    assert_eq!(h.status, None);
}

#[test]
fn fetch_success_parses_body() {
    let mut f = Fetcher::new(FetchPolicy::Public);
    f.record(reply(200, Some(r#"{"data":[]}"#)));
    assert_eq!(f.next_action(), Action::Stop { wait_ms: 0 });
    assert!(matches!(f.body_json(), Some(JsonValue::Object(_))));
    let mut g = Fetcher::new(FetchPolicy::RateLimited);
    g.record(reply(200, Some("not json")));
    assert!(g.body_json().is_none());
    assert_eq!(g.status, Some(200));
}

#[test]
fn rate_limited_backoff_and_refusal() {
    let mut f = Fetcher::new(FetchPolicy::RateLimited);
    f.record(reply(429, None));
    assert_eq!(f.next_action(), Action::Send { wait_ms: 1000 });
    f.record(reply(429, None));
    assert_eq!(f.next_action(), Action::Send { wait_ms: 2000 });
    f.record(reply(429, None));
    assert_eq!(f.next_action(), Action::Stop { wait_ms: 2000 });
    assert_eq!(f.status, Some(429));
    let mut g = Fetcher::new(FetchPolicy::RateLimited);
    g.record(reply(403, None));
    assert_eq!(g.status, Some(403));
    assert!(!g.token_rejected);
    assert_eq!(g.next_action(), Action::Stop { wait_ms: 0 });
}

#[test]
fn watcher_token_search_order_and_pauses() {
    let mut s = TokenSearch::new(1, true);
    assert_eq!(s.next(), TokenAction::Try { source: TokenSource::Cache, wait_ms: 0 });
    s.step(TokenOutcome::NotFound);
    assert_eq!(s.next(), TokenAction::Try { source: TokenSource::Browser, wait_ms: 0 });
    s.step(TokenOutcome::NotFound);
    for k in 0..5u64 {
        assert_eq!(s.next(), TokenAction::Try { source: TokenSource::Http, wait_ms: 1000 * k });
        s.step(TokenOutcome::NotFound);
    }
    assert_eq!(s.next(), TokenAction::Try { source: TokenSource::Stale, wait_ms: 0 });
    s.step(TokenOutcome::Found("stale".to_string()));
    assert_eq!(s.next(), TokenAction::Finish);
    assert_eq!(s.token.as_deref(), Some("stale"));
}

#[test]
fn watcher_token_search_skips_http_when_client_is_missing() {
    let mut s = TokenSearch::new(1, true);
    s.step(TokenOutcome::NotFound);
    s.step(TokenOutcome::NotFound);
    s.step(TokenOutcome::Unavailable);
    assert_eq!(s.next(), TokenAction::Try { source: TokenSource::Stale, wait_ms: 0 });
    s.step(TokenOutcome::NotFound);
    assert_eq!(s.next(), TokenAction::Finish);
    assert!(s.token.is_none());
}

#[test]
fn library_token_search_runs_rounds_of_direct_fetches() {
    let mut s = TokenSearch::new(HTTP_ATTEMPTS, false);
    s.step(TokenOutcome::NotFound);
    s.step(TokenOutcome::NotFound);
    let mut tries = 0u64;
    for round in 0..5u64 {
        for k in 0..5u64 {
            let wait = if k > 0 { 1000 * k } else { 1000 * round };
            assert_eq!(s.next(), TokenAction::Try { source: TokenSource::Http, wait_ms: wait });
            s.step(TokenOutcome::NotFound);
            tries += 1;
        }
    }
    assert_eq!(tries, 25);
    assert_eq!(s.next(), TokenAction::Finish);
    assert!(s.token.is_none());
    let mut found = TokenSearch::new(HTTP_ATTEMPTS, false);
    found.step(TokenOutcome::Found("tok".to_string()));
    assert_eq!(found.next(), TokenAction::Finish);
    assert_eq!(found.token.as_deref(), Some("tok"));
}
