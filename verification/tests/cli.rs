use tfrm::cli::{
    auth_debug_line, current_message, not_implemented, selected_message, stubbed_command, Command, RunsCommand,
    WorkspaceCommand,
};
use tfrm::config::WorkspaceSource;
use tfrm::credentials::{Credential, CredentialLookup, CredentialSource, FileCredentials};

#[test]
fn stubbed_commands_exit_1_not_implemented() {
    for (cmd, name) in [
        (Command::Runs(RunsCommand::Apply { run_id: "r".into(), comment: None }), "runs apply"),
        (Command::Runs(RunsCommand::Discard { run_id: "r".into(), comment: None }), "runs discard"),
        (Command::Runs(RunsCommand::Cancel { run_id: "r".into(), comment: None }), "runs cancel"),
    ] {
        assert_eq!(stubbed_command(&cmd).as_deref(), Some(name));
        let e = not_implemented(name);
        assert_eq!(e.exit_code(), 1);
        assert!(e.message().contains("not implemented"));
    }
    assert!(stubbed_command(&Command::Workspace(WorkspaceCommand::List)).is_none());
}

#[test]
fn current_names_the_config_file_as_source() {
    assert_eq!(
        current_message("platform", &WorkspaceSource::Config("/p/.tfrm.toml".into())),
        "platform (from config (/p/.tfrm.toml))"
    );
    assert_eq!(current_message("x", &WorkspaceSource::Flag), "x (from -w/--workspace flag)");
    assert_eq!(selected_message("x", "/p/.tfrm/local.toml"), "selected workspace x (persisted to /p/.tfrm/local.toml)");
}

#[test]
fn auth_debug_reports_provenance_not_token() {
    let cred = Credential { token: "secret-token".into(), source: CredentialSource::Flag };
    let line = auth_debug_line("app.terraform.io", &cred);
    assert!(!line.contains("secret-token"));
    assert!(line.starts_with("token for app.terraform.io: "));
}

fn lookup_with_env(vars: &[(&str, &str)]) -> CredentialLookup {
    CredentialLookup::with_sources(
        vars.iter().map(|(k, v)| (k.to_string(), v.to_string())).collect(),
        None,
        None,
        None,
    )
}

#[test]
fn auth_debug_reports_env_source() {
    let lookup = lookup_with_env(&[("TF_TOKEN_app_terraform_io", "secret-env-token")]);
    let cred = lookup.resolve("app.terraform.io", None).unwrap();
    let out = auth_debug_line("app.terraform.io", &cred);
    assert!(out.contains("environment variable TF_TOKEN_app_terraform_io"));
    assert!(!out.contains("secret-env-token"));
}

#[test]
fn auth_debug_without_credentials_exits_3_with_login_hint() {
    let err = lookup_with_env(&[]).resolve("app.terraform.io", None).unwrap_err();
    assert_eq!(err.exit_code(), 3);
    assert!(err.message().contains("tfrm login"));
}

#[test]
fn auth_debug_reports_flag_source() {
    let cred = lookup_with_env(&[])
        .resolve("app.terraform.io", Some("secret-flag-token"))
        .unwrap();
    let out = auth_debug_line("app.terraform.io", &cred);
    assert!(out.contains("--token flag"));
    assert!(!out.contains("secret-flag-token"));
}

fn assert_stub(cmd: Command, name: &str) {
    assert_eq!(stubbed_command(&cmd).as_deref(), Some(name));
    let e = not_implemented(name);
    assert_eq!(e.exit_code(), 1);
    assert!(e.message().contains("not implemented"));
}

#[test]
fn login_and_logout_are_implemented() {
    assert!(stubbed_command(&Command::Login { host: "app.terraform.io".into() }).is_none());
    assert!(stubbed_command(&Command::Logout { host: "app.terraform.io".into() }).is_none());
}

#[test]
fn runs_apply_is_stubbed() {
    assert_stub(
        Command::Runs(RunsCommand::Apply { run_id: "run-abc123".into(), comment: None }),
        "runs apply",
    );
}

#[test]
fn runs_discard_is_stubbed() {
    assert_stub(
        Command::Runs(RunsCommand::Discard { run_id: "run-abc123".into(), comment: None }),
        "runs discard",
    );
}

#[test]
fn runs_cancel_is_stubbed() {
    assert_stub(
        Command::Runs(RunsCommand::Cancel { run_id: "run-abc123".into(), comment: None }),
        "runs cancel",
    );
}

#[test]
fn auth_debug_reports_file_source() {
    let mut files = FileCredentials::new();
    files.merge_hcl(
        "credentials \"app.terraform.io\" {\n  token = \"secret-file-token\"\n}\n",
        "/home/u/.terraformrc",
    );
    let cred = lookup_with_env(&[])
        .with_file_credentials(files)
        .resolve("app.terraform.io", None)
        .unwrap();
    let out = auth_debug_line("app.terraform.io", &cred);
    assert!(out.contains("credentials file"));
    assert!(out.contains(".terraformrc"));
    assert!(!out.contains("secret-file-token"));
}
