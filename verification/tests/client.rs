use serde_json::Value;
use tfrm::client::{
    absorb_page, base_url, error_detail, page_query, page_url, request_url, retry_step, status_outcome, RetryStep,
    MAX_RATE_LIMIT_RETRIES,
};
use tfrm::error::Error;
use tfrm::json::Json;

fn to_json(v: &Value) -> Json {
    match v {
        Value::Null => Json::Null,
        Value::Bool(b) => Json::Bool(*b),
        Value::Number(n) => Json::Number(n.to_string()),
        Value::String(s) => Json::Str(s.clone()),
        Value::Array(a) => Json::Array(a.iter().map(to_json).collect()),
        Value::Object(m) => Json::Object(m.iter().map(|(k, v)| (k.clone(), to_json(v))).collect()),
    }
}

fn parse(text: &str) -> Json {
    to_json(&serde_json::from_str(text).unwrap())
}

fn ids(v: &[Json]) -> Vec<String> {
    v.iter()
        .map(|j| match j.get("id") {
            Some(Json::Str(s)) => s.clone(),
            _ => String::new(),
        })
        .collect()
}

#[test]
fn status_to_error_mapping() {
    assert!(status_outcome(200, None).is_ok());
    assert!(status_outcome(307, None).is_ok());
    let body = parse(r#"{"errors":[{"status":"404","title":"not found","detail":"run svc-x not found"}]}"#);
    let e = status_outcome(404, Some(&body)).unwrap_err();
    assert_eq!(e.exit_code(), 4);
    assert_eq!(e.message(), "HTTP 404: not found: run svc-x not found");
    assert_eq!(status_outcome(401, None).unwrap_err().exit_code(), 3);
    assert_eq!(status_outcome(403, None).unwrap_err().exit_code(), 3);
    assert_eq!(status_outcome(409, None).unwrap_err().exit_code(), 6);
    assert_eq!(status_outcome(500, None).unwrap_err().exit_code(), 1);
}

#[test]
fn error_detail_joins_titles_and_details() {
    let body = parse(r#"{"errors":[{"title":"a","detail":"b"},{"title":"c"},{"detail":"d"},{"status":"x"}]}"#);
    assert_eq!(error_detail(422, Some(&body)), "a: b; c; d");
    assert_eq!(error_detail(404, Some(&parse(r#"{"errors":[]}"#))), "Not Found");
    assert_eq!(error_detail(429, None), "Too Many Requests");
    assert_eq!(error_detail(599, None), "error");
}

#[test]
fn rate_limit_gives_up_after_three_retries() {
    assert_eq!(MAX_RATE_LIMIT_RETRIES, 3);
    for made in 0..3 {
        assert!(matches!(retry_step(429, made), RetryStep::Retry));
    }
    match retry_step(429, 3) {
        RetryStep::GiveUp(e) => {
            assert_eq!(e.exit_code(), 1);
            assert_eq!(e.message(), "HTTP 429: rate limited; giving up after 3 retries");
        },
        other => panic!("{other:?}"),
    }
    assert!(matches!(retry_step(200, 0), RetryStep::Done));
    assert!(matches!(retry_step(500, 5), RetryStep::Done));
}

#[test]
fn paginates_across_three_pages() {
    let mut data = Vec::new();
    let mut included = Vec::new();
    let p1 = parse(r#"{"data":[{"id":"r1"},{"id":"r2"}],"included":[{"id":"i1"}],"meta":{"pagination":{"next-page":2}}}"#);
    let p2 = parse(r#"{"data":[{"id":"r3"}],"meta":{"pagination":{"next-page":3}}}"#);
    let p3 = parse(r#"{"data":[{"id":"r4"}],"included":[{"id":"i2"}],"meta":{"pagination":{"next-page":null}}}"#);
    assert_eq!(absorb_page(&mut data, &mut included, &p1, None), Some(2));
    assert_eq!(absorb_page(&mut data, &mut included, &p2, None), Some(3));
    assert_eq!(absorb_page(&mut data, &mut included, &p3, None), None);
    assert_eq!(ids(&data), ["r1", "r2", "r3", "r4"]);
    assert_eq!(ids(&included), ["i1", "i2"]);
}

#[test]
fn max_items_stops_paging_and_truncates() {
    let mut data = Vec::new();
    let mut included = Vec::new();
    let p1 = parse(r#"{"data":[{"id":"r1"},{"id":"r2"},{"id":"r3"}],"meta":{"pagination":{"next-page":2}}}"#);
    assert_eq!(absorb_page(&mut data, &mut included, &p1, Some(2)), None);
    assert_eq!(ids(&data), ["r1", "r2"]);
}

#[test]
fn urls_are_built_from_the_host() {
    assert_eq!(base_url("app.terraform.io").unwrap(), "https://app.terraform.io/");
    assert_eq!(base_url("http://127.0.0.1:9999").unwrap(), "http://127.0.0.1:9999/");
    let e = base_url("not a host").unwrap_err();
    assert!(matches!(&e, Error::Usage(m) if m.starts_with("invalid host not a host: ")), "{e:?}");
    assert_eq!(
        request_url("https://app.terraform.io/", "/api/v2/runs/run-1?include=workspace").unwrap(),
        "https://app.terraform.io/api/v2/runs/run-1?include=workspace"
    );
    let q = page_query(&vec![("include".into(), "current_run".into())], 2, 20);
    assert_eq!(
        q,
        vec![
            ("include".to_string(), "current_run".to_string()),
            ("page[number]".to_string(), "2".to_string()),
            ("page[size]".to_string(), "20".to_string()),
        ]
    );
    assert_eq!(
        page_url("https://h/", "/api/v2/organizations/acme/workspaces", &vec![("include".into(), "current_run".into())], 1, 20)
            .unwrap(),
        "https://h/api/v2/organizations/acme/workspaces?include=current_run&page%5Bnumber%5D=1&page%5Bsize%5D=20"
    );
}
