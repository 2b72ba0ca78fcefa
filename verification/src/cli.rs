//! The command tree and the shared command context: discovered project
//! configuration plus the global flags.

use vstd::prelude::*;
use crate::config::{Context, WorkspaceSource, workspace_source_text};
use crate::error::Error;
use crate::text::push_str;

verus! {

/// Output format of the read commands.
#[derive(Debug, Clone, Copy, PartialEq, Eq)]
pub enum Format {
    Table,
    Json,
}

/// Flags accepted by every command.
#[derive(Debug, Clone)]
pub struct GlobalArgs {
    /// Workspace to operate on (overrides selection and config).
    pub workspace: Option<String>,
    /// Organization name (overrides `.tfrm.toml`).
    pub org: Option<String>,
    /// Output format.
    pub format: Format,
    /// Disable colored output.
    pub no_color: bool,
    /// API token (overrides `TF_TOKEN_*` and credential files).
    pub token: Option<String>,
}

/// The parsed command line.
#[derive(Debug)]
pub struct Cli {
    pub command: Command,
    pub global: GlobalArgs,
}

/// Top-level commands.
#[derive(Debug)]
pub enum Command {
    /// Log in to a host via browser OAuth (PKCE) with paste fallback.
    Login { host: String },
    /// Remove the stored token for a host.
    Logout { host: String },
    /// List, select, and show workspaces.
    Workspace(WorkspaceCommand),
    /// List, inspect, diff, and act on runs.
    Runs(RunsCommand),
    /// Report which credential source resolves for a host.
    AuthDebug { host: String },
}

/// `tfrm workspace …`
#[derive(Debug)]
pub enum WorkspaceCommand {
    /// List the org's workspaces.
    List,
    /// Set the current workspace (persisted).
    Select { name: String },
    /// Show the selection and its source.
    Current,
}

/// `tfrm runs …`
#[derive(Debug)]
pub enum RunsCommand {
    /// List recent runs.
    List { limit: usize, status: Option<String> },
    /// Render one run's plan.
    Show { run_id: String },
    /// Diff two plans.
    Diff {
        a: String,
        b: Option<String>,
        against: Option<String>,
        all: bool,
        exit_code: bool,
        allow_cross_workspace: bool,
    },
    /// Confirm and apply a run awaiting confirmation.
    Apply { run_id: String, comment: Option<String> },
    /// Reject a run awaiting confirmation.
    Discard { run_id: String, comment: Option<String> },
    /// Stop a run that is actively planning or applying.
    Cancel { run_id: String, comment: Option<String> },
}

/// Shared command context.
#[derive(Debug)]
pub struct App {
    pub ctx: Context,
    pub global: GlobalArgs,
}

/// The flag's value as a string slice view.
pub open spec fn flag_view(o: Option<String>) -> Option<Seq<char>> {
    crate::text::sview(o)
}

impl App {
    /// The context for these flags in this project.
    pub fn new(ctx: Context, global: GlobalArgs) -> (r: App)
        ensures
            r.ctx == ctx,
            r.global == global,
    {
        App { ctx, global }
    }

    /// The organization: `--org` over `.tfrm.toml`.
    pub fn org(&self) -> (r: Result<String, crate::error::Error>)
        ensures
            self.global.org is Some ==> (r matches Ok(o) && o@ == self.global.org.unwrap()@),
            self.global.org is None && self.ctx.config is Some && self.ctx.config.unwrap().0.org is Some
                ==> (r matches Ok(o) && o@ == self.ctx.config.unwrap().0.org.unwrap()@),
            self.global.org is None && (self.ctx.config is None || self.ctx.config.unwrap().0.org is None)
                ==> (r matches Err(crate::error::Error::Usage(m)) && m@ == crate::config::no_org_message()),
    {
        let flag = match &self.global.org {
            Some(o) => Some(o.as_str()),
            None => None,
        };
        self.ctx.resolve_org(flag)
    }

    /// The workspace name currently in effect, if any (flag > selection
    /// > config).
    pub fn selected_workspace(&self) -> (r: Option<String>)
        ensures
            self.global.workspace is Some ==> crate::text::sview(r) == flag_view(self.global.workspace),
            self.global.workspace is None && self.ctx.selection is Some ==> (r matches Some(w)
                && w@ == self.ctx.selection.unwrap().0@),
            self.global.workspace is None && self.ctx.selection is None ==> crate::text::sview(r) == (
            match self.ctx.config {
                Some(c) => flag_view(c.0.workspace),
                None => None,
            }),
    {
        let flag = match &self.global.workspace {
            Some(w) => Some(w.as_str()),
            None => None,
        };
        match self.ctx.resolve_workspace(flag) {
            Ok((ws, _)) => Some(ws),
            Err(_) => None,
        }
    }

    /// Whether `--format json` is in effect.
    pub fn json_output(&self) -> (r: bool)
        ensures
            r == (self.global.format == Format::Json),
    {
        match self.global.format {
            Format::Json => true,
            Format::Table => false,
        }
    }
}


/// The name of a command that is not implemented yet.
pub open spec fn stub_name(c: Command) -> Option<Seq<char>> {
    match c {
        Command::Runs(RunsCommand::Apply { .. }) => Some("runs apply"@),
        Command::Runs(RunsCommand::Discard { .. }) => Some("runs discard"@),
        Command::Runs(RunsCommand::Cancel { .. }) => Some("runs cancel"@),
        _ => None,
    }
}

/// The name of the command when it is one that is not implemented yet.
pub fn stubbed_command(c: &Command) -> (r: Option<String>)
    ensures
        crate::text::sview(r) == stub_name(*c),
{
    match c {
        Command::Runs(RunsCommand::Apply { .. }) => Some("runs apply".to_owned()),
        Command::Runs(RunsCommand::Discard { .. }) => Some("runs discard".to_owned()),
        Command::Runs(RunsCommand::Cancel { .. }) => Some("runs cancel".to_owned()),
        _ => None,
    }
}

/// The error of a command that is not implemented yet (exit 1).
pub fn not_implemented(name: &str) -> (r: Error)
    ensures
        r matches Error::Other(m) && m@ == name@ + ": not implemented"@,
{
    let mut m = name.to_owned();
    push_str(&mut m, ": not implemented");
    Error::Other(m)
}

/// What `workspace current` prints: the workspace and where it came
/// from.
pub fn current_message(workspace: &str, source: &WorkspaceSource) -> (r: String)
    ensures
        r@ == workspace@ + " (from "@ + workspace_source_text(*source) + ")"@,
{
    let mut s = workspace.to_owned();
    push_str(&mut s, " (from ");
    let d = source.describe();
    push_str(&mut s, d.as_str());
    push_str(&mut s, ")");
    s
}

/// What `workspace select` prints once the selection is written.
pub fn selected_message(name: &str, path: &str) -> (r: String)
    ensures
        r@ == "selected workspace "@ + name@ + " (persisted to "@ + path@ + ")"@,
{
    let mut s = "selected workspace ".to_owned();
    push_str(&mut s, name);
    push_str(&mut s, " (persisted to ");
    push_str(&mut s, path);
    push_str(&mut s, ")");
    s
}

/// What `auth-debug` prints: the credential's provenance, never the
/// token.
pub fn auth_debug_line(host: &str, cred: &crate::credentials::Credential) -> (r: String)
    ensures
        r@ == "token for "@ + host@ + ": "@ + crate::credentials::source_text(cred.source),
{
    let mut s = "token for ".to_owned();
    push_str(&mut s, host);
    push_str(&mut s, ": ");
    let d = cred.source.describe();
    push_str(&mut s, d.as_str());
    s
}

} // verus!
