use serde_json::Value;
use tfrm::credentials::{CredentialLookup, CredentialSource, FileCredentials};
use tfrm::credfile::{self, empty_credentials_doc};
use tfrm::error::Error;
use tfrm::json::Json;

fn to_json(v: &Value) -> Json {
    match v {
        Value::Null => Json::Null,
        Value::Bool(b) => Json::Bool(*b),
        Value::Number(n) => Json::Number(n.to_string()),
        Value::String(s) => Json::Str(s.clone()),
        Value::Array(a) => Json::Array(a.iter().map(to_json).collect()),
        Value::Object(m) => Json::Object(m.iter().map(|(k, v)| (k.clone(), to_json(v))).collect()),
    }
}

fn from_json(j: &Json) -> Value {
    match j {
        Json::Null => Value::Null,
        Json::Bool(b) => Value::Bool(*b),
        Json::Number(n) => serde_json::from_str(n).unwrap(),
        Json::Str(s) => Value::String(s.clone()),
        Json::Array(a) => Value::Array(a.iter().map(from_json).collect()),
        Json::Object(m) => Value::Object(m.iter().map(|(k, v)| (k.clone(), from_json(v))).collect()),
    }
}

/// The file round trip: what is written is the pretty JSON of the
/// document, and what is read back is its parse.
fn through_file(doc: Json) -> Json {
    let text = serde_json::to_string_pretty(&from_json(&doc)).unwrap();
    to_json(&serde_json::from_str(&text).unwrap())
}

fn store(doc: Json, host: &str, token: &str) -> Json {
    through_file(credfile::store(doc, host, token).unwrap())
}

fn remove(doc: Json, host: &str) -> (Json, bool) {
    let (d, removed) = credfile::remove(doc, host).unwrap();
    (through_file(d), removed)
}

#[test]
fn store_preserves_existing_foreign_host_entries() {
    let doc = to_json(
        &serde_json::from_str(r#"{"credentials": {"tfe.example.com": {"token": "foreign-token"}}}"#).unwrap(),
    );
    let doc = from_json(&store(doc, "app.terraform.io", "new-token"));
    assert_eq!(doc["credentials"]["tfe.example.com"]["token"], "foreign-token");
    assert_eq!(doc["credentials"]["app.terraform.io"]["token"], "new-token");
}

#[test]
fn remove_deletes_only_the_target_host() {
    let doc = store(empty_credentials_doc(), "app.terraform.io", "tok-a");
    let doc = store(doc, "tfe.example.com", "tok-b");
    let (doc, removed) = remove(doc, "app.terraform.io");
    assert!(removed);
    let doc = from_json(&doc);
    assert!(doc["credentials"].get("app.terraform.io").is_none());
    assert_eq!(doc["credentials"]["tfe.example.com"]["token"], "tok-b");
}

#[test]
fn remove_of_absent_host_is_a_reported_no_op() {
    // A missing file stands for the empty document.
    let (_, removed) = remove(empty_credentials_doc(), "app.terraform.io");
    assert!(!removed);
    // File exists but host absent.
    let doc = store(empty_credentials_doc(), "tfe.example.com", "tok");
    let (_, removed) = remove(doc, "app.terraform.io");
    assert!(!removed);
}

#[test]
fn written_file_parses_with_the_credential_reader() {
    let path = "/home/u/.terraform.d/credentials.tfrc.json";
    let doc = store(empty_credentials_doc(), "app.terraform.io", "self-interop-token");
    let mut files = FileCredentials::new();
    files.merge_json_doc(&doc, path);
    let lookup = CredentialLookup::with_sources(vec![], None, None, Some("/home/u/.terraform.d".into()))
        .with_file_credentials(files);
    let cred = lookup.resolve("app.terraform.io", None).unwrap();
    assert_eq!(cred.token, "self-interop-token");
    assert_eq!(cred.source, CredentialSource::File(path.into()));
}

#[test]
fn stored_hosts_are_normalized() {
    let doc = store(empty_credentials_doc(), "TFE.Example.COM", "tok");
    let v = from_json(&doc);
    assert_eq!(v["credentials"]["tfe.example.com"]["token"], "tok");
    let (_, removed) = remove(doc, "tfe.example.com");
    assert!(removed);
}

#[test]
fn store_into_null_and_non_object_credentials() {
    let doc = from_json(&store(Json::Null, "app.terraform.io", "t1"));
    assert_eq!(doc["credentials"]["app.terraform.io"]["token"], "t1");
    let other = to_json(&serde_json::from_str(r#"{"credentials": 5, "keep": true}"#).unwrap());
    let doc = from_json(&store(other, "app.terraform.io", "t2"));
    assert_eq!(doc["credentials"]["app.terraform.io"]["token"], "t2");
    assert_eq!(doc["keep"], true);
}

#[test]
fn store_replaces_a_previous_token() {
    let doc = store(empty_credentials_doc(), "app.terraform.io", "old");
    let doc = from_json(&store(doc, "app.terraform.io", "new"));
    assert_eq!(doc["credentials"]["app.terraform.io"]["token"], "new");
    assert_eq!(doc["credentials"].as_object().unwrap().len(), 1);
}

#[test]
fn invalid_hosts_are_usage_errors() {
    assert!(matches!(credfile::store(empty_credentials_doc(), "   ", "t"), Err(Error::Usage(m)) if m == "invalid hostname:    "));
    assert!(matches!(credfile::remove(empty_credentials_doc(), ""), Err(Error::Usage(_))));
}

#[test]
fn empty_document_shape() {
    assert_eq!(from_json(&empty_credentials_doc()).to_string(), r#"{"credentials":{}}"#);
}

#[test]
fn logout_of_absent_host_exits_0_with_note() {
    // No credentials file: the empty document stands for it.
    let (_, removed) = remove(empty_credentials_doc(), "app.terraform.io");
    assert!(!removed);
    let note = tfrm::login::logout_message(
        "app.terraform.io",
        "/home/u/.terraform.d/credentials.tfrc.json",
        removed,
    );
    assert!(note.contains("nothing to do"));
}

#[test]
fn logout_removes_only_the_target_host() {
    let doc = to_json(
        &serde_json::from_str(
            r#"{"credentials": {"app.terraform.io": {"token": "tok-a"}, "tfe.example.com": {"token": "tok-b"}}}"#,
        )
        .unwrap(),
    );
    let (doc, removed) = remove(doc, "app.terraform.io");
    assert!(removed);
    let note = tfrm::login::logout_message(
        "app.terraform.io",
        "/home/u/.terraform.d/credentials.tfrc.json",
        removed,
    );
    assert!(note.contains("Logged out of app.terraform.io"));
    let doc = from_json(&doc);
    assert!(doc["credentials"].get("app.terraform.io").is_none());
    assert_eq!(doc["credentials"]["tfe.example.com"]["token"], "tok-b");
}

#[test]
fn workspace_list_after_logout_exits_3_with_hint() {
    let path = "/home/u/.terraform.d/credentials.tfrc.json";
    let doc = store(empty_credentials_doc(), "app.terraform.io", "tok-a");
    let (doc, _) = remove(doc, "app.terraform.io");
    let mut files = FileCredentials::new();
    files.merge_json_doc(&doc, path);
    let lookup = CredentialLookup::with_sources(vec![], None, None, None).with_file_credentials(files);
    let err = lookup.resolve("app.terraform.io", None).unwrap_err();
    assert_eq!(err.exit_code(), 3);
    assert!(err.message().contains("tfrm login"));
}

#[test]
fn remove_from_a_document_that_is_not_an_object_finds_nothing() {
    let (doc, removed) = credfile::remove(Json::Array(vec![]), "app.terraform.io").unwrap();
    assert!(!removed);
    assert!(matches!(doc, Json::Array(ref a) if a.is_empty()));
    let doc = to_json(&serde_json::from_str(r#"{"credentials": ["app.terraform.io"]}"#).unwrap());
    let (_, removed) = credfile::remove(doc, "app.terraform.io").unwrap();
    assert!(!removed);
}

#[test]
fn load_doc_reads_absent_valid_and_invalid_files() {
    let path = "/home/u/.terraform.d/credentials.tfrc.json";
    let d = credfile::load_doc(None, path).unwrap();
    assert_eq!(from_json(&d), serde_json::from_str::<Value>(r#"{"credentials":{}}"#).unwrap());
    let d = credfile::load_doc(Some(r#"{"credentials":{"h":{"token":"t"}},"x":1}"#), path).unwrap();
    assert_eq!(from_json(&d)["credentials"]["h"]["token"], "t");
    assert_eq!(from_json(&d)["x"], 1);
    let e = credfile::load_doc(Some("{"), path).unwrap_err();
    assert_eq!(e.exit_code(), 1);
    assert!(e.message().starts_with("invalid JSON in /home/u/.terraform.d/credentials.tfrc.json: EOF"), "{}", e.message());
}

#[test]
fn store_with_invalid_host_is_a_usage_error_whatever_the_document() {
    assert!(matches!(credfile::store(Json::Array(vec![]), "", "t"), Err(Error::Usage(_))));
}
