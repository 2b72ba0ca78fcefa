use base64::Engine;
use serde_json::Value;
use sha2::{Digest, Sha256};
use tfrm::error::Error;
use tfrm::json::Json;
use tfrm::login::{
    self, authorize_url, callback_step, config_from_discovery, generate_pkce, logout_message, parse_pasted,
    pasted_code, redirect_uri, response_text, token_request_form, CallbackStep, OAuthConfig,
};

fn to_json(v: &Value) -> Json {
    match v {
        Value::Null => Json::Null,
        Value::Bool(b) => Json::Bool(*b),
        Value::Number(n) => Json::Number(n.to_string()),
        Value::String(s) => Json::Str(s.clone()),
        Value::Array(a) => Json::Array(a.iter().map(to_json).collect()),
        Value::Object(m) => Json::Object(m.iter().map(|(k, v)| (k.clone(), to_json(v))).collect()),
    }
}

fn parse(text: &str) -> Json {
    to_json(&serde_json::from_str(text).unwrap())
}

#[test]
fn pkce_challenge_is_s256_of_verifier() {
    let pkce = generate_pkce();
    let engine = base64::engine::general_purpose::URL_SAFE_NO_PAD;
    let expected = engine.encode(Sha256::digest(pkce.verifier.as_bytes()));
    assert_eq!(pkce.challenge, expected);
    assert_ne!(pkce.verifier, pkce.challenge);
    assert!(!pkce.state.is_empty());
    assert_eq!(pkce.verifier.len(), 43);
    assert_eq!(pkce.state.len(), 22);
}

#[test]
fn authorize_url_carries_pkce_and_state() {
    let config = OAuthConfig {
        client_id: "terraform-cli".into(),
        authz_url: "https://example.com/oauth/authorize".into(),
        token_url: "https://example.com/oauth/token".into(),
        min_port: 10000,
        max_port: 10010,
        scopes: vec![],
    };
    let pkce = generate_pkce();
    let url = authorize_url(&config, &pkce, "http://localhost:10000/login").unwrap();
    assert!(url.contains(&format!("code_challenge={}", pkce.challenge)));
    assert!(url.contains("code_challenge_method=S256"));
    assert!(url.contains(&format!("state={}", pkce.state)));
    assert!(url.contains("response_type=code"));
}

#[test]
fn authorize_url_exact_with_scopes() {
    let config = OAuthConfig {
        client_id: "cli".into(),
        authz_url: "https://example.com/auth".into(),
        token_url: "https://example.com/token".into(),
        min_port: 1,
        max_port: 2,
        scopes: vec!["a".into(), "b c".into()],
    };
    let pkce = login::Pkce { verifier: "v".into(), challenge: "ch".into(), state: "st".into() };
    assert_eq!(
        authorize_url(&config, &pkce, "http://localhost:1/login").unwrap(),
        "https://example.com/auth?client_id=cli&code_challenge=ch&code_challenge_method=S256&redirect_uri=http%3A%2F%2Flocalhost%3A1%2Flogin&response_type=code&state=st&scope=a+b+c"
    );
}

#[test]
fn discovery_document_resolves_urls_and_ports() {
    let doc = parse(
        r#"{"login.v1":{"client":"terraform-cli","authz":"/oauth/authorization","token":"https://tokens.example.com/oauth/token","ports":[10000,10010],"scopes":["app","x"]}}"#,
    );
    let c = config_from_discovery(&doc, "app.terraform.io", "https://app.terraform.io/.well-known/terraform.json").unwrap();
    assert_eq!(c.client_id, "terraform-cli");
    assert_eq!(c.authz_url, "https://app.terraform.io/oauth/authorization");
    assert_eq!(c.token_url, "https://tokens.example.com/oauth/token");
    assert_eq!((c.min_port, c.max_port), (10000, 10010));
    assert_eq!(c.scopes, vec!["app".to_string(), "x".to_string()]);

    let minimal = parse(r#"{"login.v1":{"authz":"/a","token":"/t","ports":[70000,5]}}"#);
    let c = config_from_discovery(&minimal, "h", "https://h/.well-known/terraform.json").unwrap();
    assert_eq!(c.client_id, "terraform-cli");
    assert_eq!((c.min_port, c.max_port), (10000, 10010));
    assert!(c.scopes.is_empty());
}

#[test]
fn host_without_login_v1_is_not_found() {
    let err = config_from_discovery(&parse(r#"{"tfe.v2":"/api/v2/"}"#), "tfe.example.com", "https://tfe.example.com/.well-known/terraform.json")
        .unwrap_err();
    assert_eq!(err.exit_code(), 4);
    assert_eq!(
        err.message(),
        "tfe.example.com does not advertise the login.v1 service; tfrm login is not supported for this host"
    );
    let err = config_from_discovery(&parse(r#"{"login.v1":{"token":"/t"}}"#), "h", "https://h/x").unwrap_err();
    assert_eq!(err.message(), "discovery login.v1 is missing \"authz\"");
}

#[test]
fn discovery_urls() {
    assert_eq!(login::discovery_url("app.terraform.io").unwrap(), "https://app.terraform.io/.well-known/terraform.json");
    assert_eq!(login::discovery_url("http://127.0.0.1:8080").unwrap(), "http://127.0.0.1:8080/.well-known/terraform.json");
    assert!(matches!(login::discovery_url("bad host"), Err(Error::Usage(_))));
    let e = login::discovery_refused("h.example", 404);
    assert_eq!(e.exit_code(), 4);
    assert_eq!(
        e.message(),
        "h.example does not answer service discovery (404 Not Found); is it a Terraform Enterprise / HCP Terraform host?"
    );
}

#[test]
fn pasted_url_with_wrong_state_is_refused() {
    let err = parse_pasted("http://localhost:10000/login?code=abc&state=evil", "good").unwrap_err();
    assert_eq!(err.exit_code(), 3);
    let (code, checked) = parse_pasted("http://localhost:10000/login?code=abc&state=good", "good").unwrap();
    assert_eq!(code, "abc");
    assert!(checked);
    let (code, checked) = pasted_code("  bare-code \n", "good").unwrap();
    assert_eq!(code, "bare-code");
    assert!(!checked);
    assert!(matches!(parse_pasted("", "s"), Err(Error::Other(_))));
    assert!(matches!(parse_pasted("http://x/?state=s", "s"), Err(Error::Usage(m)) if m == "the pasted URL carries no authorization code"));
}

#[test]
fn callback_requests_are_checked() {
    let ok = callback_step("GET /login?code=the-code&state=st HTTP/1.1\r\nHost: localhost\r\n\r\n", "st");
    assert!(matches!(ok, CallbackStep::Accept(c) if c == "the-code"));
    let bad = callback_step("GET /login HTTP/1.1\r\n", "st");
    assert!(matches!(bad, CallbackStep::Reply(400, b) if b == "Bad request"));
    let wrong = callback_step("GET /login?code=x&state=other HTTP/1.1\r\n", "st");
    assert!(matches!(wrong, CallbackStep::Reply(400, b) if b == "State mismatch; check the CLI"));
    let empty = callback_step("GET /login?code=&state=st HTTP/1.1\r\n", "st");
    assert!(matches!(empty, CallbackStep::Reply(400, b) if b == "Missing authorization code"));
    let garbage = callback_step("", "st");
    assert!(matches!(garbage, CallbackStep::Reply(400, _)));
}

#[test]
fn callback_response_counts_body_bytes() {
    let body = login::login_complete_body();
    let text = response_text(200, &body);
    assert!(text.starts_with("HTTP/1.1 200 OK\r\nContent-Type: text/html\r\nContent-Length: 42\r\n"), "{text}");
    assert!(text.ends_with("\r\n\r\nLogin complete — return to the terminal."));
    assert_eq!(response_text(400, "Bad request"), "HTTP/1.1 400 Bad Request\r\nContent-Type: text/html\r\nContent-Length: 11\r\nConnection: close\r\n\r\nBad request");
}

#[test]
fn token_exchange_and_verification_answers() {
    let cfg = OAuthConfig {
        client_id: "terraform-cli".into(),
        authz_url: "https://x/a".into(),
        token_url: "https://x/t".into(),
        min_port: 1,
        max_port: 2,
        scopes: vec![],
    };
    let form = token_request_form(&cfg, "c0de", "ver", "http://localhost:1/login");
    assert_eq!(form[0], ("grant_type".to_string(), "authorization_code".to_string()));
    assert_eq!(form[3], ("code_verifier".to_string(), "ver".to_string()));
    assert_eq!(login::exchange_outcome(200, r#"{"access_token":"tok"}"#).unwrap(), "tok");
    let e = login::exchange_outcome(400, "invalid_grant").unwrap_err();
    assert_eq!(e.message(), "token exchange was refused (HTTP 400): invalid_grant");
    assert_eq!(e.exit_code(), 3);
    assert_eq!(login::exchange_outcome(200, "{}").unwrap_err().message(), "token response carried no access_token");
    assert_eq!(login::verification_outcome(200, r#"{"data":{"attributes":{"username":"alice","name":"Al"}}}"#).unwrap(), "alice");
    assert_eq!(login::verification_outcome(200, r#"{"data":{"attributes":{"name":"Al"}}}"#).unwrap(), "Al");
    assert_eq!(login::verification_outcome(200, r#"{"data":{"attributes":{"username":7,"name":"Al"}}}"#).unwrap(), "(unknown account)");
    assert_eq!(login::verification_outcome(401, "").unwrap_err().exit_code(), 3);
    let e = login::exchange_outcome(200, "not json").unwrap_err();
    assert_eq!(e.exit_code(), 1);
    assert_eq!(e.message(), "invalid token response: error decoding response body");
    assert_eq!(
        login::verification_outcome(200, "[").unwrap_err().message(),
        "invalid account response: error decoding response body"
    );
    assert_eq!(login::account_url("app.terraform.io").unwrap(), "https://app.terraform.io/api/v2/account/details");
}

#[test]
fn redirect_and_logout_texts() {
    assert_eq!(redirect_uri(10003), "http://localhost:10003/login");
    assert_eq!(logout_message("h", "/p/c.json", true), "Logged out of h (token removed from /p/c.json)");
    assert_eq!(logout_message("h", "/p/c.json", false), "No stored token for h in /p/c.json; nothing to do");
}

#[test]
fn pkce_from_bytes_follows_rfc_7636() {
    let v: Vec<u8> = vec![
        116, 24, 223, 180, 151, 153, 224, 37, 79, 250, 96, 125, 216, 173, 187, 186, 22, 212, 37, 77, 105, 214, 191,
        240, 91, 88, 5, 88, 83, 132, 141, 121,
    ];
    let p = login::pkce_from_bytes(&v, &vec![0u8, 1, 2]);
    assert_eq!(p.verifier, "dBjftJeZ4CVP-mB92K27uhbUJU1p1r_wW1gFWFOEjXk");
    assert_eq!(p.challenge, "E9Melhoa2OwvFrEMTJguCHaoeK1t8URWbuGJSstw-cM");
    assert_eq!(p.state, "AAEC");
}
