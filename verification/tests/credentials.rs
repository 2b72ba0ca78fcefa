use tfrm::credentials::{
    mangle_env_host, normalize_host, unmangle_env_host, Credential, CredentialLookup,
    CredentialSource, FileCredentials,
};
use tfrm::error::Error;

fn env_lookup(vars: &[(&str, &str)]) -> CredentialLookup {
    CredentialLookup::with_sources(
        vars.iter()
            .map(|(k, v)| (k.to_string(), v.to_string()))
            .collect(),
        None,
        None,
        None,
    )
}

fn resolve_env(vars: &[(&str, &str)], host: &str) -> Result<Credential, Error> {
    env_lookup(vars).resolve(host, None)
}

#[test]
fn env_var_with_underscores_for_dots() {
    let cred = resolve_env(
        &[("TF_TOKEN_configured_example_com", "configured-by-env")],
        "configured.example.com",
    )
    .unwrap();
    assert_eq!(cred.token, "configured-by-env");
    assert_eq!(
        cred.source,
        CredentialSource::Env("TF_TOKEN_configured_example_com".into())
    );
}

#[test]
fn punycode_name_set_in_environment() {
    let cred = resolve_env(
        &[("TF_TOKEN_env_xn--eckwd4c7cu47r2wf_com", "configured-by-env")],
        "env.ドメイン名例.com",
    )
    .unwrap();
    assert_eq!(cred.token, "configured-by-env");
}

#[test]
fn hyphens_can_be_encoded_as_double_underscores() {
    let cred = resolve_env(
        &[("TF_TOKEN_env_xn____caf__dma_fr", "configured-by-fallback")],
        "env.café.fr",
    )
    .unwrap();
    assert_eq!(cred.token, "configured-by-fallback");
}

#[test]
fn periods_are_ok() {
    let cred = resolve_env(
        &[("TF_TOKEN_configured.example.com", "configured-by-env")],
        "configured.example.com",
    )
    .unwrap();
    assert_eq!(cred.token, "configured-by-env");
}

#[test]
fn casing_is_insensitive() {
    let cred = resolve_env(
        &[(
            "TF_TOKEN_CONFIGUREDUPPERCASE_EXAMPLE_COM",
            "configured-by-env",
        )],
        "configureduppercase.example.com",
    )
    .unwrap();
    assert_eq!(cred.token, "configured-by-env");
}

#[test]
fn unrelated_env_vars_do_not_match() {
    let err = resolve_env(
        &[("TF_TOKEN_other_example_com", "nope")],
        "configured.example.com",
    )
    .unwrap_err();
    assert_eq!(err.exit_code(), 3);
    assert!(err.message().contains("tfrm login"), "{}", err.message());
}

#[test]
fn no_sources_at_all_gives_login_hint_and_env_name() {
    let err = env_lookup(&[])
        .resolve("app.terraform.io", None)
        .unwrap_err();
    assert_eq!(err.exit_code(), 3);
    let msg = err.message();
    assert!(msg.contains("run `tfrm login app.terraform.io`") || msg.contains("tfrm login"));
    assert!(msg.contains("TF_TOKEN_app_terraform_io"), "{msg}");
}

const TERRAFORMRC: &str = "credentials \"app.terraform.io\" {\n  token = \"token-from-terraformrc\"\n}\n";
const HELPER_ONLY: &str = "credentials_helper \"osenv\" {\n  args = []\n}\n";

fn file_lookup(env: Vec<(String, String)>, files: &[(&str, &str)]) -> CredentialLookup {
    let mut creds = FileCredentials::new();
    for (path, text) in files {
        creds.merge_hcl(text, path);
    }
    CredentialLookup::with_sources(env, None, None, None).with_file_credentials(creds)
}

#[test]
fn terraformrc_credentials_block_resolves() {
    let lookup = file_lookup(vec![], &[("/home/u/.terraformrc", TERRAFORMRC)]);
    let cred = lookup.resolve("app.terraform.io", None).unwrap();
    assert_eq!(cred.token, "token-from-terraformrc");
    assert!(matches!(cred.source, CredentialSource::File(_)));
}

#[test]
fn env_beats_file() {
    let lookup = file_lookup(
        vec![("TF_TOKEN_app_terraform_io".into(), "token-from-env".into())],
        &[("/home/u/.terraformrc", TERRAFORMRC)],
    );
    let cred = lookup.resolve("app.terraform.io", None).unwrap();
    assert_eq!(cred.token, "token-from-env");
}

#[test]
fn flag_beats_env_and_file() {
    let lookup = file_lookup(
        vec![("TF_TOKEN_app_terraform_io".into(), "token-from-env".into())],
        &[("/home/u/.terraformrc", TERRAFORMRC)],
    );
    let cred = lookup
        .resolve("app.terraform.io", Some("token-from-flag"))
        .unwrap();
    assert_eq!(cred.token, "token-from-flag");
    assert_eq!(cred.source, CredentialSource::Flag);
}

#[test]
fn helper_only_config_names_the_helper_in_the_error() {
    let lookup = file_lookup(vec![], &[("/home/u/.terraformrc", HELPER_ONLY)]);
    let err = lookup.resolve("app.terraform.io", None).unwrap_err();
    assert_eq!(err.exit_code(), 3);
    let msg = err.message();
    assert!(msg.contains("credentials_helper \"osenv\""), "{msg}");
    assert!(msg.contains("does not execute credential helpers"), "{msg}");
    assert!(msg.contains("tfrm login"), "{msg}");
}

#[test]
fn config_dir_json_overrides_terraformrc_for_same_host() {
    let mut creds = FileCredentials::new();
    creds.merge_hcl(TERRAFORMRC, "/home/u/.terraformrc");
    creds.merge_json(
        r#"{"credentials": {"app.terraform.io": {"token": "token-from-credentials-json"}}}"#,
        "/home/u/.terraform.d/credentials.tfrc.json",
    );
    let lookup = CredentialLookup::with_sources(vec![], None, None, None).with_file_credentials(creds);
    let cred = lookup.resolve("app.terraform.io", None).unwrap();
    assert_eq!(cred.token, "token-from-credentials-json");
    assert_eq!(
        cred.source.describe(),
        "credentials file /home/u/.terraform.d/credentials.tfrc.json"
    );
}

#[test]
fn tf_cli_config_file_override_skips_config_dir() {
    let lookup = CredentialLookup::with_sources(
        vec![],
        Some("/etc/override.rc".into()),
        Some("/home/u/.terraformrc".into()),
        Some("/home/u/.terraform.d".into()),
    );
    let files = lookup.credential_files(
        true,
        &vec!["/home/u/.terraform.d/credentials.tfrc.json".to_string()],
    );
    assert_eq!(files, vec!["/etc/override.rc".to_string()]);
}

#[test]
fn config_dir_files_are_filtered_and_sorted() {
    let lookup = CredentialLookup::with_sources(
        vec![],
        None,
        Some("/h/.terraformrc".into()),
        Some("/h/.terraform.d".into()),
    );
    let files = lookup.credential_files(
        false,
        &vec![
            "/h/.terraform.d/z.tfrc".to_string(),
            "/h/.terraform.d/notes.txt".to_string(),
            "/h/.terraform.d/credentials.tfrc.json".to_string(),
            "/h/.terraform.d/a.tfrc".to_string(),
        ],
    );
    assert_eq!(
        files,
        vec![
            "/h/.terraform.d/a.tfrc".to_string(),
            "/h/.terraform.d/credentials.tfrc.json".to_string(),
            "/h/.terraform.d/z.tfrc".to_string(),
        ]
    );
}

#[test]
fn smallest_env_name_wins_when_several_match() {
    let cred = resolve_env(
        &[
            ("TF_TOKEN_app_terraform_io", "lower"),
            ("TF_TOKEN_APP_TERRAFORM_IO", "upper"),
        ],
        "app.terraform.io",
    )
    .unwrap();
    assert_eq!(cred.token, "upper");
}

#[test]
fn invalid_host_is_a_usage_error() {
    let err = env_lookup(&[]).resolve("   ", None).unwrap_err();
    assert_eq!(err.exit_code(), 2);
    assert_eq!(err.message(), "invalid hostname:    ");
}

#[test]
fn host_mangling_round_trips() {
    assert_eq!(mangle_env_host("tfe-1.example.com"), "tfe__1_example_com");
    assert_eq!(unmangle_env_host("tfe__1_example_com"), "tfe-1.example.com");
    assert_eq!(unmangle_env_host("a___b"), "a-.b");
}

#[test]
fn normalize_lowercases_and_trims() {
    assert_eq!(normalize_host("  TFE.Example.COM ").as_deref(), Some("tfe.example.com"));
    assert_eq!(normalize_host("café.fr").as_deref(), Some("xn--caf-dma.fr"));
    assert_eq!(normalize_host(""), None);
}

#[test]
fn unparsable_json_file_adds_nothing() {
    let mut creds = FileCredentials::new();
    creds.merge_json("{ not json", "/home/u/.terraform.d/credentials.tfrc.json");
    creds.merge_json(r#"{"credentials_helper": {"osenv": {}}}"#, "/home/u/.terraform.d/credentials.tfrc.json");
    let lookup = CredentialLookup::with_sources(vec![], None, None, None).with_file_credentials(creds);
    let msg = lookup.resolve("app.terraform.io", None).unwrap_err().message();
    assert!(msg.contains("osenv"), "{msg}");
}

#[test]
fn credentials_tfrc_json_resolves_via_config_dir() {
    let lookup = CredentialLookup::with_sources(vec![], None, None, Some("/home/u/.terraform.d".into()));
    let files = lookup.credential_files(false, &vec!["/home/u/.terraform.d/credentials.tfrc.json".to_string()]);
    assert_eq!(files, vec!["/home/u/.terraform.d/credentials.tfrc.json".to_string()]);
    let mut creds = FileCredentials::new();
    for path in &files {
        assert!(tfrm::credentials::is_json_path(path));
        creds.merge_json(
            r#"{"credentials": {"app.terraform.io": {"token": "token-from-credentials-json"}}}"#,
            path,
        );
    }
    let cred = lookup.with_file_credentials(creds).resolve("app.terraform.io", None).unwrap();
    assert_eq!(cred.token, "token-from-credentials-json");
}
