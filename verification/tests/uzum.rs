use std::sync::atomic::AtomicBool;
use uzwatch::json::{JsonNumber, JsonValue};
use uzwatch::uzum::{
    extract_id, is_token_expired, log_needs_rotation, normalize_token, rotated_log_name,
    shutdown_requested, token_from_browser_output, token_from_cache_contents,
    token_from_env_value, HealthReport,
};
use uzwatch::uzum_watch::{
    access_token_from_set_cookies, category_tree_of, extract_product_id, gql_result, graphql_body, progress_due,
    refresh_on_status, scope_decision, CategoryId, CategoryNode, GqlError, MakeSearchInner,
    ProductId, Progress, ScopeDecision, ScopeRun, ScopeState, ScopeWalk, Stage, StateFile,
    UzumError,
};

fn to_json(v: &serde_json::Value) -> JsonValue {
    match v {
        serde_json::Value::Null => JsonValue::Null,
        serde_json::Value::Bool(b) => JsonValue::Bool(*b),
        serde_json::Value::Number(n) => JsonValue::Number(match (n.as_u64(), n.as_i64()) {
            (Some(u), _) => JsonNumber::UInt(u),
            (None, Some(i)) => JsonNumber::NegInt(i),
            (None, None) => JsonNumber::Float(n.to_string()),
        }),
        serde_json::Value::String(s) => JsonValue::Str(s.clone()),
        serde_json::Value::Array(a) => JsonValue::Array(a.iter().map(to_json).collect()),
        serde_json::Value::Object(m) => {
            JsonValue::Object(m.iter().map(|(k, v)| (k.clone(), to_json(v))).collect())
        }
    }
}

/// A JSON text as the library's value (the tests build values this way).
fn parse_json(text: &str) -> Option<JsonValue> {
    serde_json::from_str::<serde_json::Value>(text).ok().map(|v| to_json(&v))
}


fn items(text: &str) -> Vec<JsonValue> {
    match parse_json(text) {
        Some(JsonValue::Array(v)) => v,
        other => panic!("not an array: {other:?}"),
    }
}

fn products(ids: &[u64]) -> Vec<JsonValue> {
    let body: Vec<String> = ids.iter().map(|i| format!("{{\"catalogCard\":{{\"productId\":{i}}}}}")).collect();
    items(&format!("[{}]", body.join(",")))
}

#[test]
fn token_statuses() {
    assert!(is_token_expired(401));
    assert!(is_token_expired(403));
    assert!(!is_token_expired(200));
    assert!(!is_token_expired(429));
}

#[test]
fn bearer_tokens() {
    assert_eq!(normalize_token("abc".to_string()), "Bearer abc");
    assert_eq!(normalize_token("Bearer abc".to_string()), "Bearer abc");
    assert_eq!(token_from_env_value("  eyJx \n"), Some("Bearer eyJx".to_string()));
    assert_eq!(token_from_env_value("   "), None);
    assert_eq!(token_from_cache_contents("Bearer t\n"), Some("Bearer t".to_string()));
    assert_eq!(token_from_cache_contents("t\n"), None);
    assert_eq!(token_from_cache_contents(""), None);
    assert_eq!(token_from_browser_output(b"eyJabc\n".to_vec()), Some(Some("Bearer eyJabc".to_string())));
    assert_eq!(token_from_browser_output(b"abc".to_vec()), Some(None));
    assert_eq!(token_from_browser_output(vec![0xff, 0xfe]), None);
}

#[test]
fn catalog_ids() {
    let item = parse_json(r#"{"catalogCard":{"id":5,"productId":9}}"#).unwrap();
    assert_eq!(extract_id(&item), Some(5));
    assert_eq!(extract_product_id(&item), Some(ProductId(9)));
    assert_eq!(extract_id(&parse_json("{}").unwrap()), None);
    assert_eq!(extract_product_id(&parse_json(r#"{"catalogCard":{}}"#).unwrap()), None);
}

#[test]
fn shutdown_flag() {
    let flag = AtomicBool::new(false);
    assert!(!shutdown_requested(&flag));
    flag.store(true, std::sync::atomic::Ordering::Relaxed);
    assert!(shutdown_requested(&flag));
}

#[test]
fn health_and_logs() {
    let h = HealthReport {
        timestamp: 1,
        status: "ok".to_string(),
        phase: "poll".to_string(),
        max_id: 2,
        total_products: 3,
        poll_count: 4,
        new_since_last_poll: 5,
    };
    assert_eq!(h.poll_count, 4);
    assert!(log_needs_rotation(11, 10));
    assert!(!log_needs_rotation(10, 10));
    assert_eq!(rotated_log_name(1784694169), "uzum-1784694169.log");
    assert_eq!(rotated_log_name(0), "uzum-0.log");
}

#[test]
fn refresh_cookies() {
    let headers = vec![
        Ok("theme=x; Path=/".to_string()),
        Ok("access_token=; Path=/".to_string()),
        Ok("Path=/;  access_token=NEW ; HttpOnly".to_string()),
    ];
    match access_token_from_set_cookies(&headers) {
        Ok(t) => assert_eq!(t, "NEW"),
        Err(e) => panic!("{e:?}"),
    }
    let bad = vec![Ok("a=b".to_string()), Err("failed to convert header to a str".to_string())];
    match access_token_from_set_cookies(&bad) {
        Err(UzumError::Auth(m)) => assert_eq!(m, "invalid set-cookie header: failed to convert header to a str"),
        other => panic!("{other:?}"),
    }
    match access_token_from_set_cookies(&vec![]) {
        Err(UzumError::Auth(m)) => assert_eq!(m, "access_token not found in refresh set-cookie"),
        other => panic!("{other:?}"),
    }
}

#[test]
fn graphql_outcomes() {
    let errs = vec![GqlError { message: "a".to_string() }, GqlError { message: "b".to_string() }];
    match gql_result(Some(errs), Some(1)) {
        Err(UzumError::GraphQl(m)) => assert_eq!(m, "a; b"),
        other => panic!("{other:?}"),
    }
    match gql_result::<u32>(Some(vec![]), None) {
        Err(UzumError::GraphQl(m)) => assert_eq!(m, ""),
        other => panic!("{other:?}"),
    }
    match gql_result::<u32>(None, None) {
        Err(UzumError::GraphQl(m)) => assert_eq!(m, "No data"),
        other => panic!("{other:?}"),
    }
    assert!(matches!(gql_result(None, Some(7)), Ok(7)));
    assert!(refresh_on_status(0, 401, true));
    assert!(!refresh_on_status(1, 401, true));
    assert!(!refresh_on_status(0, 401, false));
    assert!(!refresh_on_status(0, 403, true));
}

#[test]
fn state_file_default() {
    let s = StateFile::default();
    assert_eq!(s.version, 1);
    assert!(s.scopes.is_empty());
    assert_eq!(s.item_count, 0);
    assert!(s.updated_at.is_empty());
    assert_eq!(ProductId::default(), ProductId(0));
}

#[test]
fn scope_decisions_and_walk() {
    assert_eq!(scope_decision(None, true), ScopeDecision::Skip);
    assert_eq!(scope_decision(Some(0), true), ScopeDecision::Skip);
    assert_eq!(scope_decision(Some(9900), true), ScopeDecision::Take);
    assert_eq!(scope_decision(Some(9901), false), ScopeDecision::Take);
    assert_eq!(scope_decision(Some(9901), true), ScopeDecision::Drill);
    let leaf = |id: u64| CategoryNode { id: CategoryId(id), title: None, children: None };
    let tree = vec![
        CategoryNode { id: CategoryId(1), title: Some("big".to_string()), children: Some(vec![leaf(11), leaf(12)]) },
        leaf(2),
        leaf(3),
    ];
    let mut walk = ScopeWalk::new(tree);
    let mut asked = vec![];
    let totals = [(1, 20000), (11, 5), (12, 0), (2, 7)];
    while let Some(id) = walk.next_category() {
        asked.push(id.0);
        let total = totals.iter().find(|(c, _)| *c == id.0).map(|(_, t)| *t);
        walk.on_total(total);
    }
    assert_eq!(asked, vec![1, 11, 12, 2, 3]);
    let scopes = walk.into_scopes();
    assert_eq!(
        scopes,
        vec![
            ScopeState { category_id: CategoryId(11), total: 5, max_product_id: ProductId(0) },
            ScopeState { category_id: CategoryId(2), total: 7, max_product_id: ProductId(0) },
        ]
    );
}

#[test]
fn scope_run_fresh() {
    let mut scope = ScopeState { category_id: CategoryId(4), total: 0, max_product_id: ProductId(0) };
    let mut run = ScopeRun::start(&scope, false);
    assert_eq!(run.next_offset(), Some(0));
    let first = MakeSearchInner { total: 250, items: products(&[30, 20, 10]) };
    assert_eq!(run.on_first(Some(&first)), vec![0, 1, 2]);
    assert_eq!(run.next_offset(), Some(100));
    let second = MakeSearchInner { total: 250, items: products(&[9, 8]) };
    assert_eq!(run.on_page(Some(&second)), vec![0, 1]);
    assert_eq!(run.next_offset(), Some(200));
    let third = MakeSearchInner { total: 250, items: products(&[1]) };
    assert_eq!(run.on_page(Some(&third)), vec![0]);
    assert_eq!(run.stage, Stage::Done);
    assert_eq!(run.next_offset(), None);
    run.finish(&mut scope);
    assert_eq!(scope.max_product_id, ProductId(30));
    assert_eq!(scope.total, 250);
    assert_eq!(run.progress_after(50, 60), Progress::LogAndPersist);
    assert_eq!(run.progress_after(3, 60), Progress::Quiet);
    assert_eq!(run.progress_after(60, 60), Progress::LogAndPersist);
}

#[test]
fn scope_run_incremental_stops_at_known_products() {
    let mut scope = ScopeState { category_id: CategoryId(4), total: 250, max_product_id: ProductId(30) };
    let mut run = ScopeRun::start(&scope, true);
    let first = MakeSearchInner { total: 260, items: products(&[32, 31, 30, 29]) };
    assert_eq!(run.on_first(Some(&first)), vec![0, 1]);
    let second = MakeSearchInner { total: 260, items: products(&[28, 27]) };
    assert_eq!(run.on_page(Some(&second)), Vec::<usize>::new());
    assert_eq!(run.stage, Stage::Done);
    run.finish(&mut scope);
    assert_eq!(scope.max_product_id, ProductId(32));
    assert_eq!(scope.total, 260);
    // the same first page again finds nothing new and leaves the scope as it is
    let mut again = ScopeRun::start(&scope, true);
    assert!(again.on_first(Some(&first)).is_empty());
    assert_eq!(again.next_offset(), None);
    again.finish(&mut scope);
    assert_eq!(scope.max_product_id, ProductId(32));
    // the 50th scope persists the state even when it found nothing new
    assert_eq!(again.progress_after(50, 80), Progress::LogAndPersist);
}

#[test]
fn scope_run_failures_and_caps() {
    let mut scope = ScopeState { category_id: CategoryId(1), total: 9, max_product_id: ProductId(3) };
    let mut failed = ScopeRun::start(&scope, true);
    assert!(failed.on_first(None).is_empty());
    failed.finish(&mut scope);
    assert_eq!(scope.total, 9);
    assert_eq!(failed.progress_after(50, 70), Progress::LogAndPersist);
    assert_eq!(failed.progress_after(51, 70), Progress::Quiet);
    let mut empty = ScopeRun::start(&scope, false);
    empty.on_first(Some(&MakeSearchInner { total: 0, items: vec![] }));
    assert_eq!(empty.progress_after(50, 70), Progress::LogAndPersist);
    assert_eq!(empty.progress_after(49, 70), Progress::Quiet);
    empty.finish(&mut scope);
    assert_eq!(scope.max_product_id, ProductId(3));
    // a huge category stops below the offset cap
    let mut big = ScopeRun::start(&scope, false);
    big.on_first(Some(&MakeSearchInner { total: 50000, items: products(&[100000]) }));
    let mut last = 0;
    let mut n = 100001;
    while let Some(o) = big.next_offset() {
        assert!(o < 9900);
        last = o;
        big.on_page(Some(&MakeSearchInner { total: 50000, items: products(&[n]) }));
        n += 1;
    }
    assert_eq!(last, 9800);
    assert!(progress_due(100, 101));
    assert!(progress_due(7, 7));
    assert!(!progress_due(7, 8));
}

#[test]
fn graphql_body_holds_operation_variables_and_query() {
    let vars = JsonValue::Object(vec![("limit".to_string(), JsonValue::Number(JsonNumber::UInt(100)))]);
    let body = graphql_body("query Q { x }", vars);
    match &body {
        JsonValue::Object(m) => assert_eq!(m.len(), 3),
        _ => panic!("not an object"),
    }
    assert_eq!(body.get("operationName").and_then(|v| v.as_str()), Some("MakeSearch_ItemsAndFilters"));
    assert_eq!(body.get("query").and_then(|v| v.as_str()), Some("query Q { x }"));
    assert_eq!(body.get("variables").and_then(|v| v.u64_at("limit")), Some(100));
}

#[test]
fn category_tree_needs_status_200_and_reads_null_as_empty() {
    let node = |id: u64| CategoryNode { id: CategoryId(id), title: None, children: None };
    assert!(category_tree_of(404, Some(vec![node(1)])).is_none());
    assert!(category_tree_of(500, None).is_none());
    let tree = category_tree_of(200, Some(vec![node(1), node(2)])).unwrap();
    assert_eq!(tree.len(), 2);
    assert_eq!(tree[1].id, CategoryId(2));
    assert!(category_tree_of(200, None).unwrap().is_empty());
}
