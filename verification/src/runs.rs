//! Runs listing and run metadata, read from JSON:API documents: each run
//! row carries its commit resolved through the `included` resources of
//! the same response.

use vstd::prelude::*;
use crate::json::{Json, JsonV, jget, jpath, opath, as_str_v, as_bool_v, opt_view, path_get, path_str, keys_view,
    items_view, lemma_items_view};
use crate::show::{RunMeta, RunMetaV, first_line, subject_line};
use crate::text::{push_str, sview, take_chars};
use crate::table::{render, table_text};

verus! {

/// One row of `runs list`.
#[derive(Debug, Clone)]
pub struct RunRow {
    pub id: String,
    pub status: String,
    pub created_at: Option<String>,
    /// Commit SHA of the VCS ingress that created the run, when present.
    pub commit_sha: Option<String>,
    pub message: Option<String>,
    /// The run's `source` attribute (e.g. `tfe-api`, `tfe-ui`).
    pub source: Option<String>,
    /// True when `actions.is-confirmable`.
    pub confirmable: bool,
}

/// The view of a [`RunRow`].
pub struct RunRowV {
    pub id: Seq<char>,
    pub status: Seq<char>,
    pub created_at: Option<Seq<char>>,
    pub commit_sha: Option<Seq<char>>,
    pub message: Option<Seq<char>>,
    pub source: Option<Seq<char>>,
    pub confirmable: bool,
}

impl View for RunRow {
    type V = RunRowV;

    open spec fn view(&self) -> RunRowV {
        RunRowV {
            id: self.id@,
            status: self.status@,
            created_at: sview(self.created_at),
            commit_sha: sview(self.commit_sha),
            message: sview(self.message),
            source: sview(self.source),
            confirmable: self.confirmable,
        }
    }
}

/// The resource has this JSON:API type and id.
pub open spec fn is_resource(inc: JsonV, ty: Seq<char>, id: Seq<char>) -> bool {
    as_str_v(jget(inc, "type"@)) == Some(ty) && as_str_v(jget(inc, "id"@)) == Some(id)
}

/// The first included resource with this type and id.
pub open spec fn find_included(included: Seq<JsonV>, ty: Seq<char>, id: Seq<char>) -> Option<JsonV>
    decreases included.len(),
{
    if included.len() == 0 {
        None
    } else if is_resource(included[0], ty, id) {
        Some(included[0])
    } else {
        find_included(included.drop_first(), ty, id)
    }
}

/// `find_included` behind an optional id.
pub open spec fn find_by(included: Seq<JsonV>, ty: Seq<char>, id: Option<Seq<char>>) -> Option<JsonV> {
    match id {
        Some(i) => find_included(included, ty, i),
        None => None,
    }
}

/// The string under `attributes.<name>`.
pub open spec fn attr_of(v: JsonV, name: Seq<char>) -> Option<Seq<char>> {
    as_str_v(jpath(v, seq!["attributes"@, name]))
}

/// The id a relationship points to: `relationships.<rel>.data.id`.
pub open spec fn rel_id(v: Option<JsonV>, rel: Seq<char>) -> Option<Seq<char>> {
    as_str_v(opath(v, seq!["relationships"@, rel, "data"@, "id"@]))
}

/// The commit of a run: run → configuration version → ingress
/// attributes → `commit-sha`, each step resolved among `included`.
pub open spec fn commit_of(run: JsonV, included: Seq<JsonV>) -> Option<Seq<char>> {
    let cv = find_by(included, "configuration-versions"@, rel_id(Some(run), "configuration-version"@));
    let ia = find_by(included, "ingress-attributes"@, rel_id(cv, "ingress-attributes"@));
    as_str_v(opath(ia, seq!["attributes"@, "commit-sha"@]))
}

/// A present string, or empty.
pub open spec fn or_empty(s: Option<Seq<char>>) -> Seq<char> {
    match s {
        Some(x) => x,
        None => Seq::empty(),
    }
}

/// The row of one run document.
pub open spec fn run_row(run: JsonV, included: Seq<JsonV>) -> RunRowV {
    RunRowV {
        id: or_empty(as_str_v(jget(run, "id"@))),
        status: or_empty(attr_of(run, "status"@)),
        created_at: attr_of(run, "created-at"@),
        commit_sha: commit_of(run, included),
        message: attr_of(run, "message"@),
        source: attr_of(run, "source"@),
        confirmable: as_bool_v(jpath(run, seq!["attributes"@, "actions"@, "is-confirmable"@])) == Some(true),
    }
}

/// The first included resource with this type and id.
pub fn find_resource<'a>(included: &'a Vec<Json>, ty: &str, id: &str) -> (r: Option<&'a Json>)
    ensures
        opt_view(r) == find_included(items_view(included@), ty@, id@),
{
    proof {
        lemma_items_view(included@);
    }
    let ghost iv = items_view(included@);
    let t = ty.to_owned();
    let d = id.to_owned();
    let mut i: usize = 0;
    assert(iv.skip(0) =~= iv);
    while i < included.len()
        invariant
            i <= included@.len(),
            iv == items_view(included@),
            iv.len() == included@.len(),
            forall|j: int| 0 <= j < included@.len() ==> #[trigger] iv[j] == included@[j]@,
            t@ == ty@,
            d@ == id@,
            find_included(iv, ty@, id@) == find_included(iv.skip(i as int), ty@, id@),
        decreases included@.len() - i,
    {
        let inc = &included[i];
        assert(iv.skip(i as int)[0] == inc@);
        assert(iv.skip(i as int).drop_first() =~= iv.skip(i + 1));
        let ty_ok = match inc.get("type") {
            Some(x) => match x.as_str() {
                Some(s) => *s == t,
                None => false,
            },
            None => false,
        };
        let id_ok = match inc.get("id") {
            Some(x) => match x.as_str() {
                Some(s) => *s == d,
                None => false,
            },
            None => false,
        };
        if ty_ok && id_ok {
            return Some(inc);
        }
        i = i + 1;
    }
    None
}

/// `find_resource` behind an optional id.
pub(crate) fn find_resource_by<'a>(included: &'a Vec<Json>, ty: &str, id: &Option<String>) -> (r: Option<&'a Json>)
    ensures
        opt_view(r) == find_by(items_view(included@), ty@, sview(*id)),
{
    match id {
        Some(i) => find_resource(included, ty, i.as_str()),
        None => None,
    }
}

/// The id a relationship of `v` points to.
pub(crate) fn relationship_id(v: Option<&Json>, rel: &str) -> (r: Option<String>)
    ensures
        sview(r) == rel_id(opt_view(v), rel@),
{
    match v {
        Some(x) => {
            let r = path_str(x, &["relationships", rel, "data", "id"]);
            assert(keys_view(["relationships", rel, "data", "id"]@) =~= seq!["relationships"@, rel@, "data"@, "id"@]);
            r
        },
        None => None,
    }
}

/// The string under `attributes.<name>` of `v`.
pub fn attribute(v: &Json, name: &str) -> (r: Option<String>)
    ensures
        sview(r) == attr_of(v@, name@),
{
    let r = path_str(v, &["attributes", name]);
    assert(keys_view(["attributes", name]@) =~= seq!["attributes"@, name@]);
    r
}

/// The commit SHA of a run, resolved through `included`.
pub fn commit_sha(run: &Json, included: &Vec<Json>) -> (r: Option<String>)
    ensures
        sview(r) == commit_of(run@, items_view(included@)),
{
    let cv_id = relationship_id(Some(run), "configuration-version");
    let cv = find_resource_by(included, "configuration-versions", &cv_id);
    let ia_id = relationship_id(cv, "ingress-attributes");
    let ia = find_resource_by(included, "ingress-attributes", &ia_id);
    match ia {
        Some(x) => {
            let r = path_str(x, &["attributes", "commit-sha"]);
            assert(keys_view(["attributes", "commit-sha"]@) =~= seq!["attributes"@, "commit-sha"@]);
            r
        },
        None => None,
    }
}

fn string_or_empty(s: Option<String>) -> (r: String)
    ensures
        r@ == or_empty(sview(s)),
{
    match s {
        Some(x) => x,
        None => String::new(),
    }
}

/// The row of one run document.
pub fn row(run: &Json, included: &Vec<Json>) -> (r: RunRow)
    ensures
        r@ == run_row(run@, items_view(included@)),
{
    let id = match run.get("id") {
        Some(x) => match x.as_str() {
            Some(s) => s.clone(),
            None => String::new(),
        },
        None => String::new(),
    };
    let confirmable = match path_get(run, &["attributes", "actions", "is-confirmable"]) {
        Some(x) => match x.as_bool() {
            Some(b) => b,
            None => false,
        },
        None => false,
    };
    assert(keys_view(["attributes", "actions", "is-confirmable"]@) =~= seq!["attributes"@, "actions"@, "is-confirmable"@]);
    RunRow {
        id,
        status: string_or_empty(attribute(run, "status")),
        created_at: attribute(run, "created-at"),
        commit_sha: commit_sha(run, included),
        message: attribute(run, "message"),
        source: attribute(run, "source"),
        confirmable,
    }
}

pub open spec fn run_rows_view(s: Seq<RunRow>) -> Seq<RunRowV> {
    s.map_values(|r: RunRow| r@)
}

/// The rows of a page of run documents, in order.
pub fn rows(data: &Vec<Json>, included: &Vec<Json>) -> (r: Vec<RunRow>)
    ensures
        r@.len() == data@.len(),
        forall|i: int| 0 <= i < data@.len() ==> #[trigger] r@[i]@ == run_row(data@[i]@, items_view(included@)),
{
    let mut out: Vec<RunRow> = Vec::new();
    let mut i: usize = 0;
    while i < data.len()
        invariant
            i <= data@.len(),
            out@.len() == i,
            forall|j: int| 0 <= j < i ==> #[trigger] out@[j]@ == run_row(data@[j]@, items_view(included@)),
        decreases data@.len() - i,
    {
        out.push(row(&data[i], included));
        i = i + 1;
    }
    out
}


/// A present value, or null.
pub open spec fn json_or_null(v: Option<JsonV>) -> JsonV {
    match v {
        Some(x) => x,
        None => JsonV::Null,
    }
}

/// The `included` resources of a document (empty when absent).
pub open spec fn included_of(doc: JsonV) -> Seq<JsonV> {
    match crate::json::as_array_v(jget(doc, "included"@)) {
        Some(a) => a,
        None => Seq::empty(),
    }
}

/// The header metadata of a run document: its id (or `run_id` when
/// absent), the workspace name resolved through `included`, status,
/// source, commit and message.
pub open spec fn run_meta_of(doc: JsonV, run_id: Seq<char>) -> RunMetaV {
    let run = json_or_null(jget(doc, "data"@));
    let included = included_of(doc);
    let ws = find_by(included, "workspaces"@, rel_id(Some(run), "workspace"@));
    RunMetaV {
        id: match as_str_v(jget(run, "id"@)) {
            Some(i) => i,
            None => run_id,
        },
        workspace: as_str_v(opath(ws, seq!["attributes"@, "name"@])),
        status: or_empty(attr_of(run, "status"@)),
        source: attr_of(run, "source"@),
        commit_sha: commit_of(run, included),
        message: attr_of(run, "message"@),
    }
}

/// The header metadata of a run document, and the run itself
/// (`data`, null when absent).
pub fn run_meta(doc: &Json, run_id: &str) -> (r: (RunMeta, Json))
    ensures
        r.0@ == run_meta_of(doc@, run_id@),
        r.1@ == json_or_null(jget(doc@, "data"@)),
{
    let run = match doc.get("data") {
        Some(d) => d.deep_clone(),
        None => Json::Null,
    };
    let empty: Vec<Json> = Vec::new();
    let included: &Vec<Json> = match doc.get("included") {
        Some(x) => match x.as_array() {
            Some(a) => a,
            None => &empty,
        },
        None => &empty,
    };
    assert(items_view(included@) == included_of(doc@)) by {
        if !(crate::json::as_array_v(jget(doc@, "included"@)) is Some) {
            assert(items_view(empty@) =~= Seq::<JsonV>::empty());
        }
    }
    let ws_id = relationship_id(Some(&run), "workspace");
    let ws = find_resource_by(included, "workspaces", &ws_id);
    let workspace = match ws {
        Some(w) => {
            let r = path_str(w, &["attributes", "name"]);
            assert(keys_view(["attributes", "name"]@) =~= seq!["attributes"@, "name"@]);
            r
        },
        None => None,
    };
    let id = match run.get("id") {
        Some(x) => match x.as_str() {
            Some(s) => s.clone(),
            None => run_id.to_owned(),
        },
        None => run_id.to_owned(),
    };
    let meta = RunMeta {
        id,
        workspace,
        status: string_or_empty(attribute(&run, "status")),
        source: attribute(&run, "source"),
        commit_sha: commit_sha(&run, included),
        message: attribute(&run, "message"),
    };
    (meta, run)
}

/// The request path of one run with the includes its header needs.
pub fn run_path(run_id: &str) -> (r: String)
    ensures
        r@ == "/api/v2/runs/"@ + run_id@ + "?include=workspace,configuration_version.ingress_attributes"@,
{
    let mut s = "/api/v2/runs/".to_owned();
    push_str(&mut s, run_id);
    push_str(&mut s, "?include=workspace,configuration_version.ingress_attributes");
    s
}

/// The collection path of a workspace's runs.
pub fn runs_path(workspace_id: &str) -> (r: String)
    ensures
        r@ == "/api/v2/workspaces/"@ + workspace_id@ + "/runs"@,
{
    let mut s = "/api/v2/workspaces/".to_owned();
    push_str(&mut s, workspace_id);
    push_str(&mut s, "/runs");
    s
}

pub open spec fn pairs_view(s: Seq<(String, String)>) -> Seq<(Seq<char>, Seq<char>)> {
    s.map_values(|p: (String, String)| (p.0@, p.1@))
}

/// The query of a runs listing: the commit include, and the status
/// filter when one is given. No `filter[plan_only]` is sent, so the
/// API's default exclusion of plan-only runs stands.
pub fn list_query(status: Option<&str>) -> (r: Vec<(String, String)>)
    ensures
        pairs_view(r@) == (match status {
            Some(st) => seq![("include"@, "configuration_version.ingress_attributes"@), ("filter[status]"@, st@)],
            None => seq![("include"@, "configuration_version.ingress_attributes"@)],
        }),
{
    let mut q: Vec<(String, String)> = Vec::new();
    q.push(("include".to_owned(), "configuration_version.ingress_attributes".to_owned()));
    match status {
        Some(st) => {
            q.push(("filter[status]".to_owned(), st.to_owned()));
        },
        None => {},
    }
    assert(pairs_view(q@) =~= (match status {
        Some(st) => seq![("include"@, "configuration_version.ingress_attributes"@), ("filter[status]"@, st@)],
        None => seq![("include"@, "configuration_version.ingress_attributes"@)],
    }));
    q
}

/// Statuses during which the plan is still producing output.
pub open spec fn planning_status(s: Seq<char>) -> bool {
    s == "pending"@ || s == "fetching"@ || s == "queuing"@ || s == "plan_queued"@ || s == "planning"@ || s
        == "cost_estimating"@ || s == "policy_checking"@
}

/// Whether a run in this status is still planning.
pub fn is_planning(status: &str) -> (r: bool)
    ensures
        r == planning_status(status@),
{
    let s = status.to_owned();
    s == "pending".to_owned() || s == "fetching".to_owned() || s == "queuing".to_owned() || s == "plan_queued".to_owned()
        || s == "planning".to_owned() || s == "cost_estimating".to_owned() || s == "policy_checking".to_owned()
}

/// The table cells of one run: the confirmable marker, id, status,
/// created, the commit's first eight characters, source and the
/// message's first line.
pub open spec fn run_cells(r: RunRowV) -> Seq<Seq<char>> {
    seq![
        if r.confirmable { ">"@ } else { Seq::empty() },
        r.id,
        r.status,
        or_empty(r.created_at),
        match r.commit_sha {
            Some(c) => if c.len() <= 8 { c } else { c.take(8) },
            None => Seq::empty(),
        },
        or_empty(r.source),
        first_line(or_empty(r.message)),
    ]
}

/// The headers of the runs table.
pub open spec fn run_headers() -> Seq<Seq<char>> {
    seq![""@, "RUN ID"@, "STATUS"@, "CREATED"@, "COMMIT"@, "SOURCE"@, "MESSAGE"@]
}

/// Some run awaits confirmation.
pub open spec fn any_confirmable(rows: Seq<RunRowV>) -> bool {
    exists|i: int| 0 <= i < rows.len() && #[trigger] rows[i].confirmable
}

/// The text of `runs list`: the table, then a note when some run awaits
/// confirmation.
pub open spec fn runs_list_text(rows: Seq<RunRowV>) -> Seq<char> {
    table_text(run_headers(), rows.map_values(|r: RunRowV| run_cells(r))) + if any_confirmable(rows) {
        "\n> = awaiting confirmation (tfrm runs apply <RUN_ID>)\n"@
    } else {
        Seq::empty()
    }
}

fn opt_or_empty(s: &Option<String>) -> (r: String)
    ensures
        r@ == or_empty(sview(*s)),
{
    match s {
        Some(x) => x.clone(),
        None => String::new(),
    }
}

fn run_table_row(r: &RunRow) -> (cells: Vec<String>)
    ensures
        cells@.map_values(|c: String| c@) == run_cells(r@),
{
    let mut cells: Vec<String> = Vec::new();
    cells.push(if r.confirmable { ">".to_owned() } else { String::new() });
    cells.push(r.id.clone());
    cells.push(r.status.clone());
    cells.push(opt_or_empty(&r.created_at));
    let commit = match &r.commit_sha {
        Some(c) => {
            let t = take_chars(c.as_str(), 8);
            assert(c@.len() == 8 ==> c@.take(8) =~= c@);
            t
        },
        None => String::new(),
    };
    cells.push(commit);
    cells.push(opt_or_empty(&r.source));
    let message = opt_or_empty(&r.message);
    cells.push(subject_line(message.as_str()));
    assert(cells@.map_values(|c: String| c@) =~= run_cells(r@));
    cells
}

/// Renders the runs table, with the confirmation note when needed.
pub fn render_runs(rows: &Vec<RunRow>) -> (r: String)
    ensures
        r@ == runs_list_text(run_rows_view(rows@)),
{
    let ghost rv = run_rows_view(rows@);
    let mut cells: Vec<Vec<String>> = Vec::new();
    let mut confirmable = false;
    let mut i: usize = 0;
    while i < rows.len()
        invariant
            i <= rows@.len(),
            rv == run_rows_view(rows@),
            rv.len() == rows@.len(),
            cells@.len() == i,
            forall|j: int| 0 <= j < i ==> (#[trigger] cells@[j])@.len() == 7,
            forall|j: int| 0 <= j < i ==> (#[trigger] cells@[j])@.map_values(|c: String| c@) == run_cells(rv[j]),
            confirmable == exists|j: int| 0 <= j < i && #[trigger] rv[j].confirmable,
        decreases rows@.len() - i,
    {
        let c = run_table_row(&rows[i]);
        assert(c@.len() == 7) by {
            assert(c@.map_values(|x: String| x@).len() == 7);
        }
        if rows[i].confirmable {
            confirmable = true;
        }
        cells.push(c);
        proof {
            assert(rv[i as int] == rows@[i as int]@);
            if confirmable {
                if !rows@[i as int].confirmable {
                    let j = choose|j: int| 0 <= j < i && #[trigger] rv[j].confirmable;
                    assert(0 <= j < i + 1 && rv[j].confirmable);
                } else {
                    assert(rv[i as int].confirmable);
                }
            }
        }
        i = i + 1;
    }
    let headers = ["", "RUN ID", "STATUS", "CREATED", "COMMIT", "SOURCE", "MESSAGE"];
    assert(headers@.len() == 7);
    let mut out = render(&headers, cells.as_slice());
    proof {
        assert(headers@.map_values(|h: &str| h@) =~= run_headers());
        assert(crate::table::rows_view(cells@) =~= rv.map_values(|r: RunRowV| run_cells(r)));
    }
    if confirmable {
        push_str(&mut out, "\n> = awaiting confirmation (tfrm runs apply <RUN_ID>)\n");
    }
    assert(out@ =~= runs_list_text(rv));
    out
}


/// The id of the workspace a run document belongs to.
pub fn run_workspace_id(run: &Json) -> (r: Option<String>)
    ensures
        sview(r) == rel_id(Some(run@), "workspace"@),
{
    relationship_id(Some(run), "workspace")
}


/// Law (confirmation note): the runs list is the table of the rows'
/// cells under the headers, followed by the awaiting-confirmation note
/// exactly when at least one run, at any position, is confirmable.
pub proof fn law_runs_note_when_any_confirmable(rows: Seq<RunRowV>)
    ensures
        (exists|i: int| 0 <= i < rows.len() && #[trigger] rows[i].confirmable) ==> runs_list_text(rows)
            == table_text(run_headers(), rows.map_values(|r: RunRowV| run_cells(r)))
            + "\n> = awaiting confirmation (tfrm runs apply <RUN_ID>)\n"@,
        (forall|i: int| 0 <= i < rows.len() ==> !(#[trigger] rows[i].confirmable)) ==> runs_list_text(rows)
            == table_text(run_headers(), rows.map_values(|r: RunRowV| run_cells(r))),
{
    if exists|i: int| 0 <= i < rows.len() && #[trigger] rows[i].confirmable {
        let i = choose|i: int| 0 <= i < rows.len() && #[trigger] rows[i].confirmable;
        assert(rows[i].confirmable);
    }
}

} // verus!
