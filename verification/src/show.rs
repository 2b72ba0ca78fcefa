//! Plan rendering for `runs show`.
//!
//! This module is the redaction boundary: `build_report` reads the plan
//! and produces a fully redacted `ShowReport`; everything downstream
//! (text rendering, `--format json`) only ever sees markers where
//! sensitive values were.

use vstd::prelude::*;
use crate::json::{Json, JsonV, jget, oget, opt_view, as_array_v, as_object_v, as_str_v, items_view,
    members_view, member_get, lemma_items_view, lemma_members_view, json_compact_text, json_to_text};
use crate::order::{str_lt, sorted_strs, strs_view, lemma_contains_push, lemma_take_next, lemma_sorted_append};
use crate::plan::{ActionKind, classify, kind_name, change_kind, truthy, truthy_mask, field, field_of, has_member,
    add_member_names, sensitive_marker, unknown_marker, plan_rcs, PlanRecordSummary};
use crate::text::{sview, push_str, push_char, push_dec_i64, dec_int, has_infix, lemma_infix_left, lemma_infix_right, lemma_infix_last};

verus! {

/// Marker printed in place of a sensitive value.
pub const SENSITIVE: &'static str = "(sensitive)";

/// Marker for values only known after apply.
pub const UNKNOWN: &'static str = "(known after apply)";

/// Run metadata rendered in the header.
#[derive(Debug, Clone, Default)]
pub struct RunMeta {
    pub id: String,
    pub workspace: Option<String>,
    pub status: String,
    pub source: Option<String>,
    pub commit_sha: Option<String>,
    pub message: Option<String>,
}

/// Planned change counts.
#[derive(Debug, Clone, Copy, Default)]
pub struct Summary {
    pub add: i64,
    pub change: i64,
    pub destroy: i64,
}

/// One attribute with already-redacted values: either real JSON or the
/// `(sensitive)` / `(known after apply)` marker strings.
#[derive(Debug)]
pub struct AttributeChange {
    pub name: String,
    pub before: Json,
    pub after: Json,
    pub forces_replacement: bool,
}

/// The view of an [`AttributeChange`].
pub struct AttributeChangeV {
    pub name: Seq<char>,
    pub before: JsonV,
    pub after: JsonV,
    pub forces_replacement: bool,
}

impl View for AttributeChange {
    type V = AttributeChangeV;

    open spec fn view(&self) -> AttributeChangeV {
        AttributeChangeV {
            name: self.name@,
            before: self.before@,
            after: self.after@,
            forces_replacement: self.forces_replacement,
        }
    }
}

/// One changed output, its values already redacted.
#[derive(Debug)]
pub struct OutputChangeReport {
    pub name: String,
    pub action: String,
    pub before: Json,
    pub after: Json,
}

/// The view of an [`OutputChangeReport`].
pub struct OutputChangeV {
    pub name: Seq<char>,
    pub action: Seq<char>,
    pub before: JsonV,
    pub after: JsonV,
}

impl View for OutputChangeReport {
    type V = OutputChangeV;

    open spec fn view(&self) -> OutputChangeV {
        OutputChangeV { name: self.name@, action: self.action@, before: self.before@, after: self.after@ }
    }
}

pub open spec fn outputs_view(s: Seq<OutputChangeReport>) -> Seq<OutputChangeV> {
    s.map_values(|o: OutputChangeReport| o@)
}

pub open spec fn output_names(s: Seq<OutputChangeV>) -> Seq<Seq<char>> {
    s.map_values(|o: OutputChangeV| o.name)
}

/// One side of a value as the report shows it: the unknown marker when
/// unknown, null when the side is absent, the sensitive marker when
/// sensitive, else the value itself.
pub open spec fn redacted(value: Option<JsonV>, sensitive: bool, unknown: bool) -> JsonV {
    if unknown {
        JsonV::Str(unknown_marker())
    } else {
        match value {
            None => JsonV::Null,
            Some(v) => if sensitive {
                JsonV::Str(sensitive_marker())
            } else {
                v
            },
        }
    }
}

/// Redacts one side of a value.
pub fn redacted_value(value: Option<&Json>, sensitive: bool, unknown: bool) -> (r: Json)
    ensures
        r@ == redacted(opt_view(value), sensitive, unknown),
{
    if unknown {
        return Json::Str(UNKNOWN.to_owned());
    }
    match value {
        None => Json::Null,
        Some(v) => if sensitive {
            Json::Str(SENSITIVE.to_owned())
        } else {
            v.deep_clone()
        },
    }
}

/// The report entry of a changed output named `name`.
pub open spec fn output_report(name: Seq<char>, oc: JsonV) -> OutputChangeV {
    let sensitive = truthy(jget(oc, "before_sensitive"@)) || truthy(jget(oc, "after_sensitive"@));
    let unknown = truthy(jget(oc, "after_unknown"@));
    OutputChangeV {
        name,
        action: kind_name(classify(oc)),
        before: redacted(jget(oc, "before"@), sensitive, false),
        after: redacted(jget(oc, "after"@), sensitive, unknown),
    }
}

/// The report entry of an output change, or `None` for a no-op.
pub fn build_output(name: &str, oc: &Json) -> (r: Option<OutputChangeReport>)
    ensures
        match r {
            Some(o) => classify(oc@) != ActionKind::NoOp && o@ == output_report(name@, oc@),
            None => classify(oc@) == ActionKind::NoOp,
        },
{
    let kind = change_kind(oc);
    if kind == ActionKind::NoOp {
        return None;
    }
    let sensitive = truthy_mask(oc.get("before_sensitive")) || truthy_mask(oc.get("after_sensitive"));
    let unknown = truthy_mask(oc.get("after_unknown"));
    Some(
        OutputChangeReport {
            name: name.to_owned(),
            action: kind.name(),
            before: redacted_value(oc.get("before"), sensitive, false),
            after: redacted_value(oc.get("after"), sensitive, unknown),
        },
    )
}

/// The output change recorded under `name`, when the plan has one.
pub open spec fn output_change_at(plan: JsonV, name: Seq<char>) -> Option<JsonV> {
    oget(jget(plan, "output_changes"@), name)
}

/// `names` holds exactly the keys of `keys` naming a changed output.
pub open spec fn outputs_cover(names: Seq<Seq<char>>, keys: Seq<Seq<char>>, plan: JsonV) -> bool {
    forall|k: Seq<char>|
        #[trigger] names.contains(k) <==> (keys.contains(k) && match output_change_at(plan, k) {
            Some(oc) => classify(oc) != ActionKind::NoOp,
            None => false,
        })
}

/// `s` lists the plan's changed outputs in name order, each redacted as
/// [`output_report`] gives it.
pub open spec fn is_output_list(plan: JsonV, s: Seq<OutputChangeV>) -> bool {
    &&& sorted_strs(output_names(s))
    &&& forall|k: Seq<char>|
        #[trigger] output_names(s).contains(k) <==> match output_change_at(plan, k) {
            Some(oc) => classify(oc) != ActionKind::NoOp,
            None => false,
        }
    &&& forall|i: int|
        0 <= i < s.len() ==> match output_change_at(plan, #[trigger] s[i].name) {
            Some(oc) => s[i] == output_report(s[i].name, oc),
            None => false,
        }
}

/// The plan's changed outputs, in name order, redacted.
pub fn build_outputs(plan: &Json) -> (r: Vec<OutputChangeReport>)
    ensures
        is_output_list(plan@, outputs_view(r@)),
{
    let ghost p = plan@;
    let mut names: Vec<String> = Vec::new();
    add_member_names(&mut names, plan, "output_changes");
    let ghost nv = strs_view(names@);
    let mut out: Vec<OutputChangeReport> = Vec::new();
    let outputs = plan.get("output_changes");
    let mut i: usize = 0;
    while i < names.len()
        invariant
            i <= names@.len(),
            nv == strs_view(names@),
            nv.len() == names@.len(),
            sorted_strs(nv),
            p == plan@,
            opt_view(outputs) == jget(p, "output_changes"@),
            forall|k: Seq<char>| #[trigger] nv.contains(k) <==> has_member(p, "output_changes"@, k),
            sorted_strs(output_names(outputs_view(out@))),
            forall|m: int, j: int|
                0 <= m < out@.len() && i <= j < nv.len() ==> str_lt(
                    #[trigger] output_names(outputs_view(out@))[m],
                    #[trigger] nv[j],
                ),
            outputs_cover(output_names(outputs_view(out@)), nv.take(i as int), p),
            forall|m: int|
                0 <= m < out@.len() ==> match output_change_at(p, #[trigger] outputs_view(out@)[m].name) {
                    Some(oc) => outputs_view(out@)[m] == output_report(outputs_view(out@)[m].name, oc),
                    None => false,
                },
        decreases names@.len() - i,
    {
        let name = &names[i];
        let ghost before = outputs_view(out@);
        proof {
            lemma_take_next(nv, i as int);
            assert(name@ == nv[i as int]);
            assert(outputs_cover(output_names(before), nv.take(i as int), p));
        }
        let oc = match outputs {
            Some(o) => o.get(name.as_str()),
            None => None,
        };
        assert(opt_view(oc) == output_change_at(p, name@));
        let built = match oc {
            Some(c) => build_output(name.as_str(), c),
            None => None,
        };
        match built {
            Some(o) => {
                out.push(o);
                proof {
                    let now = outputs_view(out@);
                    assert(now =~= before.push(o@));
                    assert(output_names(now) =~= output_names(before).push(nv[i as int]));
                    lemma_sorted_append(output_names(before), nv, i as int);
                    assert forall|k: Seq<char>| #[trigger] output_names(now).contains(k) <==> (nv.take(i + 1).contains(k)
                        && match output_change_at(p, k) {
                        Some(oc) => classify(oc) != ActionKind::NoOp,
                        None => false,
                    }) by {
                        lemma_contains_push(nv.take(i as int), nv[i as int], k);
                        lemma_contains_push(output_names(before), nv[i as int], k);
                    }
                    assert forall|m: int| 0 <= m < now.len() implies match output_change_at(p, #[trigger] now[m].name) {
                        Some(oc) => now[m] == output_report(now[m].name, oc),
                        None => false,
                    } by {
                        if m < before.len() {
                            assert(now[m] == before[m]);
                        }
                    }
                }
            },
            None => {
                proof {
                    assert forall|k: Seq<char>| #[trigger] output_names(before).contains(k) <==> (nv.take(i + 1).contains(k)
                        && match output_change_at(p, k) {
                        Some(oc) => classify(oc) != ActionKind::NoOp,
                        None => false,
                    }) by {
                        lemma_contains_push(nv.take(i as int), nv[i as int], k);
                    }
                }
            },
        }
        i = i + 1;
    }
    proof {
        assert(nv.take(nv.len() as int) =~= nv);
        assert forall|k: Seq<char>|
            #[trigger] output_names(outputs_view(out@)).contains(k) <==> match output_change_at(p, k) {
                Some(oc) => classify(oc) != ActionKind::NoOp,
                None => false,
            } by {
            assert(outputs_cover(output_names(outputs_view(out@)), nv, p));
            assert(has_member(p, "output_changes"@, k) <==> output_change_at(p, k) is Some);
        }
    }
    out
}


/// `key` is an attribute of the change: a member of `before`, `after`
/// or `after_unknown`.
pub open spec fn attr_in_change(change: JsonV, key: Seq<char>) -> bool {
    has_member(change, "before"@, key) || has_member(change, "after"@, key) || has_member(change, "after_unknown"@, key)
}

/// The attribute is listed: update and replace list only attributes
/// that are unknown or whose before and after differ; the other actions
/// list every attribute.
pub open spec fn attr_listed(change: JsonV, kind: ActionKind, key: Seq<char>) -> bool {
    attr_in_change(change, key) && !((kind == ActionKind::Update || kind == ActionKind::Replace) && !truthy(
        field(change, "after_unknown"@, key),
    ) && field(change, "before"@, key) == field(change, "after"@, key))
}

/// The report entry of attribute `key`: both sides redacted when either
/// sensitivity mask marks it, the after side unknown when marked so.
pub open spec fn attr_change_of(change: JsonV, forced: Seq<Seq<char>>, key: Seq<char>) -> AttributeChangeV {
    let sensitive = truthy(field(change, "before_sensitive"@, key)) || truthy(field(change, "after_sensitive"@, key));
    let unknown = truthy(field(change, "after_unknown"@, key));
    AttributeChangeV {
        name: key,
        before: redacted(field(change, "before"@, key), sensitive, false),
        after: redacted(field(change, "after"@, key), sensitive, unknown),
        forces_replacement: forced.contains(key),
    }
}

pub open spec fn attr_changes_view(s: Seq<AttributeChange>) -> Seq<AttributeChangeV> {
    s.map_values(|a: AttributeChange| a@)
}

pub open spec fn attr_change_names(s: Seq<AttributeChangeV>) -> Seq<Seq<char>> {
    s.map_values(|a: AttributeChangeV| a.name)
}

/// `s` is the attribute list of a change: the listed attributes in name
/// order, each as [`attr_change_of`] gives it.
pub open spec fn is_attr_changes(change: JsonV, kind: ActionKind, forced: Seq<Seq<char>>, s: Seq<AttributeChangeV>) -> bool {
    &&& sorted_strs(attr_change_names(s))
    &&& forall|k: Seq<char>| #[trigger] attr_change_names(s).contains(k) <==> attr_listed(change, kind, k)
    &&& forall|i: int| 0 <= i < s.len() ==> #[trigger] s[i] == attr_change_of(change, forced, s[i].name)
}

/// `names` holds exactly the keys of `keys` that are listed.
pub open spec fn listed_cover(names: Seq<Seq<char>>, keys: Seq<Seq<char>>, change: JsonV, kind: ActionKind) -> bool {
    forall|k: Seq<char>| #[trigger] names.contains(k) <==> (keys.contains(k) && attr_listed(change, kind, k))
}

fn opt_ref_equal(a: Option<&Json>, b: Option<&Json>) -> (r: bool)
    ensures
        r == (opt_view(a) == opt_view(b)),
{
    match (a, b) {
        (Some(x), Some(y)) => x.equals(y),
        (None, None) => true,
        _ => false,
    }
}

/// Whether `v` holds `s`.
pub fn contains_string(v: &Vec<String>, s: &String) -> (r: bool)
    ensures
        r == strs_view(v@).contains(s@),
{
    let mut i: usize = 0;
    while i < v.len()
        invariant
            i <= v@.len(),
            forall|j: int| 0 <= j < i ==> v@[j]@ != s@,
        decreases v@.len() - i,
    {
        if v[i] == *s {
            assert(strs_view(v@)[i as int] == s@);
            return true;
        }
        i = i + 1;
    }
    proof {
        if strs_view(v@).contains(s@) {
            let j = choose|j: int| 0 <= j < strs_view(v@).len() && strs_view(v@)[j] == s@;
            assert(v@[j]@ == s@);
        }
    }
    false
}

/// The attributes of a change as the report lists them, in name order.
pub fn build_attributes(change: &Json, kind: ActionKind, replace_forced_by: &Vec<String>) -> (r: Vec<AttributeChange>)
    ensures
        is_attr_changes(change@, kind, strs_view(replace_forced_by@), attr_changes_view(r@)),
{
    let ghost c = change@;
    let ghost forced = strs_view(replace_forced_by@);
    let mut keys: Vec<String> = Vec::new();
    add_member_names(&mut keys, change, "before");
    add_member_names(&mut keys, change, "after");
    add_member_names(&mut keys, change, "after_unknown");
    let ghost kv = strs_view(keys@);
    assert forall|k: Seq<char>| kv.contains(k) <==> attr_in_change(c, k) by {
        assert(!Seq::<Seq<char>>::empty().contains(k));
    }
    let mut out: Vec<AttributeChange> = Vec::new();
    let mut i: usize = 0;
    while i < keys.len()
        invariant
            i <= keys@.len(),
            kv == strs_view(keys@),
            kv.len() == keys@.len(),
            sorted_strs(kv),
            c == change@,
            forced == strs_view(replace_forced_by@),
            forall|k: Seq<char>| kv.contains(k) <==> attr_in_change(c, k),
            sorted_strs(attr_change_names(attr_changes_view(out@))),
            forall|m: int, j: int|
                0 <= m < out@.len() && i <= j < kv.len() ==> str_lt(
                    #[trigger] attr_change_names(attr_changes_view(out@))[m],
                    #[trigger] kv[j],
                ),
            listed_cover(attr_change_names(attr_changes_view(out@)), kv.take(i as int), c, kind),
            forall|m: int|
                0 <= m < out@.len() ==> #[trigger] attr_changes_view(out@)[m] == attr_change_of(
                    c,
                    forced,
                    attr_changes_view(out@)[m].name,
                ),
        decreases keys@.len() - i,
    {
        let key = &keys[i];
        let ghost before_out = attr_changes_view(out@);
        proof {
            lemma_take_next(kv, i as int);
            assert(key@ == kv[i as int]);
            assert(listed_cover(attr_change_names(before_out), kv.take(i as int), c, kind));
        }
        let b = field_of(change, "before", key.as_str());
        let a = field_of(change, "after", key.as_str());
        let unknown = truthy_mask(field_of(change, "after_unknown", key.as_str()));
        let sensitive = truthy_mask(field_of(change, "before_sensitive", key.as_str())) || truthy_mask(
            field_of(change, "after_sensitive", key.as_str()),
        );
        let update_like = kind == ActionKind::Update || kind == ActionKind::Replace;
        if update_like && !unknown && opt_ref_equal(b, a) {
            proof {
                assert(!attr_listed(c, kind, kv[i as int]));
                assert forall|k: Seq<char>| #[trigger] attr_change_names(before_out).contains(k) <==> (kv.take(i + 1).contains(k)
                    && attr_listed(c, kind, k)) by {
                    lemma_contains_push(kv.take(i as int), kv[i as int], k);
                }
            }
        } else {
            let forces = contains_string(replace_forced_by, key);
            let entry = AttributeChange {
                name: key.clone(),
                before: redacted_value(b, sensitive, false),
                after: redacted_value(a, sensitive, unknown),
                forces_replacement: forces,
            };
            assert(entry@ == attr_change_of(c, forced, key@));
            out.push(entry);
            proof {
                let now = attr_changes_view(out@);
                assert(attr_listed(c, kind, kv[i as int]));
                assert(now =~= before_out.push(entry@));
                assert(attr_change_names(now) =~= attr_change_names(before_out).push(kv[i as int]));
                lemma_sorted_append(attr_change_names(before_out), kv, i as int);
                assert forall|k: Seq<char>| #[trigger] attr_change_names(now).contains(k) <==> (kv.take(i + 1).contains(k)
                    && attr_listed(c, kind, k)) by {
                    lemma_contains_push(kv.take(i as int), kv[i as int], k);
                    lemma_contains_push(attr_change_names(before_out), kv[i as int], k);
                }
                assert forall|m: int| 0 <= m < now.len() implies #[trigger] now[m] == attr_change_of(c, forced, now[m].name) by {
                    if m < before_out.len() {
                        assert(now[m] == before_out[m]);
                    }
                }
            }
        }
        i = i + 1;
    }
    proof {
        assert(kv.take(kv.len() as int) =~= kv);
        assert forall|k: Seq<char>| #[trigger] attr_change_names(attr_changes_view(out@)).contains(k) <==> attr_listed(c, kind, k) by {
            assert(listed_cover(attr_change_names(attr_changes_view(out@)), kv, c, kind));
        }
    }
    out
}


/// A present value, or null.
pub open spec fn or_null(v: Option<JsonV>) -> JsonV {
    match v {
        Some(x) => x,
        None => JsonV::Null,
    }
}

/// The change of a resource-change entry (null when absent).
pub open spec fn change_of(rc: JsonV) -> JsonV {
    or_null(jget(rc, "change"@))
}

/// The action kind of a resource-change entry.
pub open spec fn rc_kind(rc: JsonV) -> ActionKind {
    classify(change_of(rc))
}

/// The address of a resource-change entry (empty when absent).
pub open spec fn address_of(rc: JsonV) -> Seq<char> {
    match as_str_v(jget(rc, "address"@)) {
        Some(a) => a,
        None => Seq::empty(),
    }
}

/// A path step as text: a string as itself, anything else as JSON.
pub open spec fn step_text(v: JsonV) -> Seq<char> {
    match v {
        JsonV::Str(s) => s,
        _ => json_compact_text(v),
    }
}

/// The first step of each non-empty path, in order.
pub open spec fn first_steps(paths: Seq<JsonV>) -> Seq<Seq<char>>
    decreases paths.len(),
{
    if paths.len() == 0 {
        Seq::empty()
    } else {
        match paths.last() {
            JsonV::Array(a) => if a.len() > 0 {
                first_steps(paths.drop_last()).push(step_text(a[0]))
            } else {
                first_steps(paths.drop_last())
            },
            _ => first_steps(paths.drop_last()),
        }
    }
}

/// The attributes whose change forces a replacement: the first step of
/// each of the change's `replace_paths`.
pub open spec fn forced_of(change: JsonV) -> Seq<Seq<char>> {
    match as_array_v(jget(change, "replace_paths"@)) {
        Some(p) => first_steps(p),
        None => Seq::empty(),
    }
}

/// A path step as text.
pub fn path_step_to_string(step: &Json) -> (r: String)
    ensures
        r@ == step_text(step@),
{
    match step {
        Json::Str(s) => s.clone(),
        _ => {
            json_to_text(step)
        },
    }
}

/// The attributes whose change forces a replacement.
pub fn replace_forced_by(change: &Json) -> (r: Vec<String>)
    ensures
        strs_view(r@) == forced_of(change@),
{
    let mut out: Vec<String> = Vec::new();
    match change.get("replace_paths") {
        Some(p) => match p.as_array() {
            Some(paths) => {
                proof {
                    lemma_items_view(paths@);
                }
                let ghost pv = items_view(paths@);
                let mut i: usize = 0;
                assert(strs_view(out@) =~= first_steps(pv.take(0)));
                while i < paths.len()
                    invariant
                        i <= paths@.len(),
                        pv == items_view(paths@),
                        pv.len() == paths@.len(),
                        forall|j: int| 0 <= j < paths@.len() ==> #[trigger] pv[j] == paths@[j]@,
                        strs_view(out@) == first_steps(pv.take(i as int)),
                    decreases paths@.len() - i,
                {
                    proof {
                        assert(pv.take(i + 1).drop_last() =~= pv.take(i as int));
                        assert(pv.take(i + 1).last() == paths@[i as int]@);
                    }
                    match paths[i].as_array() {
                        Some(steps) => {
                            proof {
                                lemma_items_view(steps@);
                            }
                            if steps.len() > 0 {
                                let t = path_step_to_string(&steps[0]);
                                out.push(t);
                                assert(strs_view(out@) =~= first_steps(pv.take(i as int)).push(t@));
                            }
                        },
                        None => {},
                    }
                    i = i + 1;
                }
                assert(pv.take(pv.len() as int) =~= pv);
            },
            None => {},
        },
        None => {},
    }
    assert(strs_view(out@) =~= forced_of(change@)) by {
        if !(as_array_v(jget(change@, "replace_paths"@)) is Some) {
            assert(strs_view(out@) =~= Seq::<Seq<char>>::empty());
        }
    }
    out
}

/// One changed resource with its redacted attributes.
#[derive(Debug)]
pub struct ResourceChangeReport {
    pub address: String,
    /// create | update | replace | delete | read
    pub action: String,
    /// Attribute names whose change forces the replacement.
    pub replace_forced_by: Vec<String>,
    pub attributes: Vec<AttributeChange>,
}

/// The view of a [`ResourceChangeReport`].
pub struct ResourceChangeV {
    pub address: Seq<char>,
    pub action: Seq<char>,
    pub replace_forced_by: Seq<Seq<char>>,
    pub attributes: Seq<AttributeChangeV>,
}

impl View for ResourceChangeReport {
    type V = ResourceChangeV;

    open spec fn view(&self) -> ResourceChangeV {
        ResourceChangeV {
            address: self.address@,
            action: self.action@,
            replace_forced_by: strs_view(self.replace_forced_by@),
            attributes: attr_changes_view(self.attributes@),
        }
    }
}

pub open spec fn rcs_view(s: Seq<ResourceChangeReport>) -> Seq<ResourceChangeV> {
    s.map_values(|r: ResourceChangeReport| r@)
}

/// `r` is the report entry of resource-change entry `rc`.
pub open spec fn rc_report_ok(rc: JsonV, r: ResourceChangeV) -> bool {
    &&& r.address == address_of(rc)
    &&& r.action == kind_name(rc_kind(rc))
    &&& r.replace_forced_by == forced_of(change_of(rc))
    &&& is_attr_changes(change_of(rc), rc_kind(rc), r.replace_forced_by, r.attributes)
}

/// The entries of kind `k`, in document order.
pub open spec fn of_kind(rcs: Seq<JsonV>, k: ActionKind) -> Seq<JsonV>
    decreases rcs.len(),
{
    if rcs.len() == 0 {
        Seq::empty()
    } else if rc_kind(rcs.last()) == k {
        of_kind(rcs.drop_last(), k).push(rcs.last())
    } else {
        of_kind(rcs.drop_last(), k)
    }
}

/// The changed entries grouped by action: creates, updates, replaces,
/// deletes, reads, each group in document order.
pub open spec fn grouped(rcs: Seq<JsonV>) -> Seq<JsonV> {
    of_kind(rcs, ActionKind::Create) + of_kind(rcs, ActionKind::Update) + of_kind(rcs, ActionKind::Replace)
        + of_kind(rcs, ActionKind::Delete) + of_kind(rcs, ActionKind::Read)
}

/// `s` reports, entry for entry, the grouped changes.
pub open spec fn is_rc_list(rcs: Seq<JsonV>, s: Seq<ResourceChangeV>) -> bool {
    &&& s.len() == grouped(rcs).len()
    &&& forall|i: int| 0 <= i < s.len() ==> rc_report_ok(#[trigger] grouped(rcs)[i], s[i])
}

/// The report entry of a resource-change entry.
fn build_rc_report(rc: &Json) -> (r: ResourceChangeReport)
    ensures
        rc_report_ok(rc@, r@),
{
    let null = Json::Null;
    let change: &Json = match rc.get("change") {
        Some(c) => c,
        None => &null,
    };
    assert(change@ == change_of(rc@));
    let kind = change_kind(change);
    let forced = replace_forced_by(change);
    let address = match rc.get("address") {
        Some(a) => match a.as_str() {
            Some(s) => s.clone(),
            None => String::new(),
        },
        None => String::new(),
    };
    let attributes = build_attributes(change, kind, &forced);
    let r = ResourceChangeReport { address, action: kind.name(), replace_forced_by: forced, attributes };
    assert(r@.address =~= address_of(rc@));
    r
}

/// Appends the reports of the entries of kind `k`, in document order.
fn push_kind(out: &mut Vec<ResourceChangeReport>, items: &Vec<Json>, k: ActionKind)
    ensures
        final(out)@.len() == old(out)@.len() + of_kind(items_view(items@), k).len(),
        forall|j: int| 0 <= j < old(out)@.len() ==> #[trigger] final(out)@[j] == old(out)@[j],
        forall|j: int|
            0 <= j < of_kind(items_view(items@), k).len() ==> rc_report_ok(
                #[trigger] of_kind(items_view(items@), k)[j],
                final(out)@[old(out)@.len() + j]@,
            ),
{
    proof {
        lemma_items_view(items@);
    }
    let ghost iv = items_view(items@);
    let ghost start = out@;
    let mut i: usize = 0;
    assert(iv.take(0) =~= Seq::<JsonV>::empty());
    while i < items.len()
        invariant
            i <= items@.len(),
            iv == items_view(items@),
            iv.len() == items@.len(),
            forall|j: int| 0 <= j < items@.len() ==> #[trigger] iv[j] == items@[j]@,
            out@.len() == start.len() + of_kind(iv.take(i as int), k).len(),
            forall|j: int| 0 <= j < start.len() ==> #[trigger] out@[j] == start[j],
            forall|j: int|
                0 <= j < of_kind(iv.take(i as int), k).len() ==> rc_report_ok(
                    #[trigger] of_kind(iv.take(i as int), k)[j],
                    out@[start.len() + j]@,
                ),
        decreases items@.len() - i,
    {
        let ghost before = out@;
        let ghost done = of_kind(iv.take(i as int), k);
        proof {
            assert(iv.take(i + 1).drop_last() =~= iv.take(i as int));
            assert(iv.take(i + 1).last() == items@[i as int]@);
        }
        let rc = &items[i];
        let null = Json::Null;
        let change: &Json = match rc.get("change") {
            Some(c) => c,
            None => &null,
        };
        assert(change@ == change_of(rc@));
        if change_kind(change) == k {
            let r = build_rc_report(rc);
            out.push(r);
            proof {
                let now = of_kind(iv.take(i + 1), k);
                assert(now == done.push(rc@));
                assert forall|j: int| 0 <= j < now.len() implies rc_report_ok(#[trigger] now[j], out@[start.len() + j]@) by {
                    if j < done.len() {
                        assert(now[j] == done[j]);
                        assert(out@[start.len() + j] == before[start.len() + j]);
                    }
                }
            }
        }
        i = i + 1;
    }
    assert(iv.take(iv.len() as int) =~= iv);
}

/// The changed resources of a plan's entries, grouped by action.
pub fn build_resource_changes(items: &Vec<Json>) -> (r: Vec<ResourceChangeReport>)
    ensures
        is_rc_list(items_view(items@), rcs_view(r@)),
{
    let ghost iv = items_view(items@);
    let mut out: Vec<ResourceChangeReport> = Vec::new();
    push_kind(&mut out, items, ActionKind::Create);
    let ghost o1 = out@;
    push_kind(&mut out, items, ActionKind::Update);
    let ghost o2 = out@;
    push_kind(&mut out, items, ActionKind::Replace);
    let ghost o3 = out@;
    push_kind(&mut out, items, ActionKind::Delete);
    let ghost o4 = out@;
    push_kind(&mut out, items, ActionKind::Read);
    proof {
        let g = grouped(iv);
        let c = of_kind(iv, ActionKind::Create);
        let u = of_kind(iv, ActionKind::Update);
        let p = of_kind(iv, ActionKind::Replace);
        let d = of_kind(iv, ActionKind::Delete);
        let e = of_kind(iv, ActionKind::Read);
        assert forall|i: int| 0 <= i < out@.len() implies rc_report_ok(#[trigger] g[i], rcs_view(out@)[i]) by {
            if i < c.len() {
                assert(g[i] == c[i]);
                assert(out@[i] == o4[i]);
                assert(o4[i] == o3[i]);
                assert(o3[i] == o2[i]);
                assert(o2[i] == o1[i]);
            } else if i < c.len() + u.len() {
                assert(g[i] == u[i - c.len()]);
                assert(out@[i] == o4[i]);
                assert(o4[i] == o3[i]);
                assert(o3[i] == o2[i]);
            } else if i < c.len() + u.len() + p.len() {
                assert(g[i] == p[i - c.len() - u.len()]);
                assert(out@[i] == o4[i]);
                assert(o4[i] == o3[i]);
            } else if i < c.len() + u.len() + p.len() + d.len() {
                assert(g[i] == d[i - c.len() - u.len() - p.len()]);
                assert(out@[i] == o4[i]);
            } else {
                assert(g[i] == e[i - c.len() - u.len() - p.len() - d.len()]);
            }
        }
    }
    out
}


/// The view of a [`RunMeta`].
pub struct RunMetaV {
    pub id: Seq<char>,
    pub workspace: Option<Seq<char>>,
    pub status: Seq<char>,
    pub source: Option<Seq<char>>,
    pub commit_sha: Option<Seq<char>>,
    pub message: Option<Seq<char>>,
}

impl View for RunMeta {
    type V = RunMetaV;

    open spec fn view(&self) -> RunMetaV {
        RunMetaV {
            id: self.id@,
            workspace: sview(self.workspace),
            status: self.status@,
            source: sview(self.source),
            commit_sha: sview(self.commit_sha),
            message: sview(self.message),
        }
    }
}

/// The summary counts of a plan's entries: a replace counts as one add
/// and one destroy.
pub open spec fn summary_ok(rcs: Seq<JsonV>, s: Summary) -> bool {
    &&& s.add == of_kind(rcs, ActionKind::Create).len() + of_kind(rcs, ActionKind::Replace).len()
    &&& s.change == of_kind(rcs, ActionKind::Update).len()
    &&& s.destroy == of_kind(rcs, ActionKind::Delete).len() + of_kind(rcs, ActionKind::Replace).len()
}

/// The plan summary of resource-change entries.
pub fn count_changes(items: &Vec<Json>) -> (r: Summary)
    requires
        items@.len() <= i64::MAX,
    ensures
        summary_ok(items_view(items@), r),
{
    proof {
        lemma_items_view(items@);
    }
    let ghost iv = items_view(items@);
    let mut add: i64 = 0;
    let mut change: i64 = 0;
    let mut destroy: i64 = 0;
    let ghost mut all: int = 0;
    let mut i: usize = 0;
    assert(iv.take(0) =~= Seq::<JsonV>::empty());
    while i < items.len()
        invariant
            i <= items@.len(),
            items@.len() <= i64::MAX,
            iv == items_view(items@),
            iv.len() == items@.len(),
            forall|j: int| 0 <= j < items@.len() ==> #[trigger] iv[j] == items@[j]@,
            add == of_kind(iv.take(i as int), ActionKind::Create).len() + of_kind(iv.take(i as int), ActionKind::Replace).len(),
            change == of_kind(iv.take(i as int), ActionKind::Update).len(),
            destroy == of_kind(iv.take(i as int), ActionKind::Delete).len() + of_kind(iv.take(i as int), ActionKind::Replace).len(),
            all == of_kind(iv.take(i as int), ActionKind::Create).len() + of_kind(iv.take(i as int), ActionKind::Replace).len()
                + of_kind(iv.take(i as int), ActionKind::Update).len() + of_kind(iv.take(i as int), ActionKind::Delete).len(),
            all <= i,
        decreases items@.len() - i,
    {
        proof {
            assert(iv.take(i + 1).drop_last() =~= iv.take(i as int));
            assert(iv.take(i + 1).last() == items@[i as int]@);
        }
        let rc = &items[i];
        let null = Json::Null;
        let ch: &Json = match rc.get("change") {
            Some(c) => c,
            None => &null,
        };
        assert(ch@ == change_of(rc@));
        let kind = change_kind(ch);
        match kind {
            ActionKind::Create => {
                add = add + 1;
                proof { all = all + 1; }
            },
            ActionKind::Update => {
                change = change + 1;
                proof { all = all + 1; }
            },
            ActionKind::Delete => {
                destroy = destroy + 1;
                proof { all = all + 1; }
            },
            ActionKind::Replace => {
                add = add + 1;
                destroy = destroy + 1;
                proof { all = all + 1; }
            },
            _ => {},
        }
        i = i + 1;
    }
    assert(iv.take(iv.len() as int) =~= iv);
    Summary { add, change, destroy }
}

/// The redacted report `runs show` renders.
#[derive(Debug)]
pub struct ShowReport {
    pub run: RunMeta,
    pub summary: Summary,
    /// True when only the plan-record summary was available.
    pub degraded: bool,
    pub resource_changes: Vec<ResourceChangeReport>,
    pub output_changes: Vec<OutputChangeReport>,
}

/// The view of a [`ShowReport`].
pub struct ShowReportV {
    pub run: RunMetaV,
    pub summary: Summary,
    pub degraded: bool,
    pub resource_changes: Seq<ResourceChangeV>,
    pub output_changes: Seq<OutputChangeV>,
}

impl View for ShowReport {
    type V = ShowReportV;

    open spec fn view(&self) -> ShowReportV {
        ShowReportV {
            run: self.run@,
            summary: self.summary,
            degraded: self.degraded,
            resource_changes: rcs_view(self.resource_changes@),
            output_changes: outputs_view(self.output_changes@),
        }
    }
}

/// `r` is the full report of `plan` for run `run`.
pub open spec fn is_show_report(r: ShowReportV, run: RunMetaV, plan: JsonV) -> bool {
    &&& r.run == run
    &&& summary_ok(plan_rcs(plan), r.summary)
    &&& !r.degraded
    &&& is_rc_list(plan_rcs(plan), r.resource_changes)
    &&& is_output_list(plan, r.output_changes)
}

/// Builds the redacted report from the full plan.
pub fn build_report(run: RunMeta, plan: &Json) -> (r: ShowReport)
    requires
        plan_rcs(plan@).len() <= i64::MAX,
    ensures
        is_show_report(r@, run@, plan@),
{
    let ghost rv = run@;
    let (summary, resource_changes) = match plan.get("resource_changes") {
        Some(rcs) => match rcs.as_array() {
            Some(items) => {
                proof {
                    lemma_items_view(items@);
                }
                (count_changes(items), build_resource_changes(items))
            },
            None => {
                let empty: Vec<Json> = Vec::new();
                assert(items_view(empty@) =~= plan_rcs(plan@));
                (count_changes(&empty), build_resource_changes(&empty))
            },
        },
        None => {
            let empty: Vec<Json> = Vec::new();
            assert(items_view(empty@) =~= plan_rcs(plan@));
            (count_changes(&empty), build_resource_changes(&empty))
        },
    };
    let output_changes = build_outputs(plan);
    ShowReport { run, summary, degraded: false, resource_changes, output_changes }
}

/// Builds the degraded report from the plan-record summary.
pub fn build_degraded(run: RunMeta, summary: &PlanRecordSummary) -> (r: ShowReport)
    ensures
        r@.run == run@,
        r.summary.add == summary.additions,
        r.summary.change == summary.changes,
        r.summary.destroy == summary.destructions,
        r.degraded,
        r.resource_changes@.len() == 0,
        r.output_changes@.len() == 0,
{
    ShowReport {
        run,
        summary: Summary { add: summary.additions, change: summary.changes, destroy: summary.destructions },
        degraded: true,
        resource_changes: Vec::new(),
        output_changes: Vec::new(),
    }
}


/// The one-line rendering of an already-redacted value: the marker
/// strings bare, anything else as compact JSON.
pub open spec fn show_compact(v: JsonV) -> Seq<char> {
    if v == JsonV::Str(sensitive_marker()) {
        sensitive_marker()
    } else if v == JsonV::Str(unknown_marker()) {
        unknown_marker()
    } else {
        json_compact_text(v)
    }
}

/// Renders an already-redacted value on one line.
pub fn compact(value: &Json) -> (r: String)
    ensures
        r@ == show_compact(value@),
{
    match value {
        Json::Str(s) => {
            let sens = SENSITIVE.to_owned();
            let unk = UNKNOWN.to_owned();
            proof {
                reveal_strlit("(sensitive)");
                reveal_strlit("(known after apply)");
            }
            if *s == sens || *s == unk {
                return s.clone();
            }
        },
        _ => {},
    }
    json_to_text(value)
}

/// The text before the first line feed.
pub open spec fn before_newline(s: Seq<char>) -> Seq<char>
    decreases s.len(),
{
    if s.len() == 0 || s[0] == '\n' {
        Seq::empty()
    } else {
        seq![s[0]] + before_newline(s.drop_first())
    }
}

/// The first line of a text as `str::lines` yields it: up to the first
/// line feed, less a carriage return ending that line; empty for an
/// empty text.
pub open spec fn first_line(s: Seq<char>) -> Seq<char> {
    let p = before_newline(s);
    if s.contains('\n') && p.len() > 0 && p.last() == '\r' {
        p.drop_last()
    } else {
        p
    }
}

/// The first line of a text.
pub fn subject_line(s: &str) -> (r: String)
    ensures
        r@ == first_line(s@),
{
    let v = crate::text::chars_of(s);
    let mut k: usize = 0;
    while k < v.len() && v[k] != '\n'
        invariant
            v@ == s@,
            k <= v@.len(),
            forall|j: int| 0 <= j < k ==> v@[j] != '\n',
        decreases v@.len() - k,
    {
        k = k + 1;
    }
    let found = k < v.len();
    proof {
        lemma_before_newline(s@, k as int);
        if found {
            assert(s@[k as int] == '\n');
            assert(s@.contains('\n'));
        } else {
            assert forall|j: int| 0 <= j < s@.len() implies s@[j] != '\n' by {}
            assert(!s@.contains('\n'));
        }
    }
    if found && k > 0 && v[k - 1] == '\r' {
        let r = crate::text::take_chars(s, k - 1);
        assert(r@ =~= s@.take(k as int).drop_last());
        return r;
    }
    crate::text::take_chars(s, k)
}

/// `before_newline` is the prefix up to the first line feed.
pub proof fn lemma_before_newline(s: Seq<char>, k: int)
    requires
        0 <= k <= s.len(),
        k < s.len() ==> s[k] == '\n',
        forall|j: int| 0 <= j < k ==> s[j] != '\n',
    ensures
        before_newline(s) == s.take(k),
    decreases k,
{
    if k == 0 {
        assert(s.take(0) =~= Seq::<char>::empty());
    } else {
        lemma_before_newline(s.drop_first(), k - 1);
        assert(s.take(k) =~= seq![s[0]] + s.drop_first().take(k - 1));
    }
}


/// A header line for an optional field.
pub open spec fn opt_line(label: Seq<char>, v: Option<Seq<char>>) -> Seq<char> {
    match v {
        Some(x) => label + x + "\n"@,
        None => Seq::empty(),
    }
}

/// The run header: id, workspace, status, source, commit and the
/// subject line of the message, then a blank line.
pub open spec fn header_text(run: RunMetaV) -> Seq<char> {
    "Run "@ + run.id + "\n"@ + opt_line("  Workspace: "@, run.workspace) + "  Status:    "@ + run.status + "\n"@
        + opt_line("  Source:    "@, run.source) + opt_line("  Commit:    "@, run.commit_sha) + match run.message {
        Some(m) => "  Message:   "@ + first_line(m) + "\n"@,
        None => Seq::empty(),
    } + "\n"@
}

/// The summary line.
pub open spec fn plan_line(s: Summary, degraded: bool) -> Seq<char> {
    "Plan: "@ + dec_int(s.add as int) + " to add, "@ + dec_int(s.change as int) + " to change, "@ + dec_int(
        s.destroy as int,
    ) + " to destroy."@ + (if degraded {
        " (summary only)"@
    } else {
        Seq::empty()
    }) + "\n"@
}

/// The symbol shown before an action.
pub open spec fn action_symbol(action: Seq<char>) -> Seq<char> {
    if action == "create"@ {
        "+"@
    } else if action == "update"@ {
        "~"@
    } else if action == "replace"@ {
        "±"@
    } else if action == "delete"@ {
        "-"@
    } else {
        " "@
    }
}

/// Strings joined with `, `.
pub open spec fn joined(s: Seq<Seq<char>>) -> Seq<char>
    decreases s.len(),
{
    if s.len() == 0 {
        Seq::empty()
    } else if s.len() == 1 {
        s[0]
    } else {
        joined(s.drop_last()) + ", "@ + s.last()
    }
}

/// The line of one attribute: creates show the after-value, deletes the
/// before-value, the others both.
pub open spec fn attribute_line(action: Seq<char>, a: AttributeChangeV) -> Seq<char> {
    let force = if a.forces_replacement {
        "  # forces replacement"@
    } else {
        Seq::empty()
    };
    if action == "create"@ {
        "      "@ + a.name + " = "@ + show_compact(a.after) + force + "\n"@
    } else if action == "delete"@ {
        "      "@ + a.name + " = "@ + show_compact(a.before) + force + "\n"@
    } else {
        "      "@ + a.name + ": "@ + show_compact(a.before) + " -> "@ + show_compact(a.after) + force + "\n"@
    }
}

pub open spec fn attribute_lines(action: Seq<char>, s: Seq<AttributeChangeV>) -> Seq<char>
    decreases s.len(),
{
    if s.len() == 0 {
        Seq::empty()
    } else {
        attribute_lines(action, s.drop_last()) + attribute_line(action, s.last())
    }
}

/// The block of one changed resource.
pub open spec fn rc_block(rc: ResourceChangeV) -> Seq<char> {
    "\n  "@ + action_symbol(rc.action) + " "@ + rc.action + " "@ + rc.address + (if rc.replace_forced_by.len() > 0 {
        "  (forced by: "@ + joined(rc.replace_forced_by) + ")"@
    } else {
        Seq::empty()
    }) + "\n"@ + attribute_lines(rc.action, rc.attributes)
}

pub open spec fn rc_blocks(s: Seq<ResourceChangeV>) -> Seq<char>
    decreases s.len(),
{
    if s.len() == 0 {
        Seq::empty()
    } else {
        rc_blocks(s.drop_last()) + rc_block(s.last())
    }
}

/// The line of one changed output.
pub open spec fn output_line(o: OutputChangeV) -> Seq<char> {
    if o.action == "create"@ {
        "  + "@ + o.name + " = "@ + show_compact(o.after) + "\n"@
    } else if o.action == "delete"@ {
        "  - "@ + o.name + " = "@ + show_compact(o.before) + "\n"@
    } else {
        "  ~ "@ + o.name + ": "@ + show_compact(o.before) + " -> "@ + show_compact(o.after) + "\n"@
    }
}

pub open spec fn output_lines(s: Seq<OutputChangeV>) -> Seq<char>
    decreases s.len(),
{
    if s.len() == 0 {
        Seq::empty()
    } else {
        output_lines(s.drop_last()) + output_line(s.last())
    }
}

/// The text rendering of a show report.
pub open spec fn show_text(r: ShowReportV) -> Seq<char> {
    header_text(r.run) + plan_line(r.summary, r.degraded) + (if r.resource_changes.len() > 0 {
        "\nResource changes:\n"@ + rc_blocks(r.resource_changes)
    } else {
        Seq::empty()
    }) + (if r.output_changes.len() > 0 {
        "\nOutput changes:\n"@ + output_lines(r.output_changes)
    } else {
        Seq::empty()
    })
}

fn same_text(a: &String, b: &str) -> (r: bool)
    ensures
        r == (a@ == b@),
{
    *a == b.to_owned()
}

fn push_opt_line(out: &mut String, label: &str, v: &Option<String>)
    ensures
        final(out)@ == old(out)@ + opt_line(label@, sview(*v)),
{
    match v {
        Some(x) => {
            push_str(out, label);
            push_str(out, x.as_str());
            push_str(out, "\n");
            assert(final(out)@ =~= old(out)@ + opt_line(label@, sview(*v)));
        },
        None => {
            assert(final(out)@ =~= old(out)@ + opt_line(label@, sview(*v)));
        },
    }
}

fn push_header(out: &mut String, run: &RunMeta)
    ensures
        final(out)@ == old(out)@ + header_text(run@),
{
    let ghost s0 = out@;
    push_str(out, "Run ");
    push_str(out, run.id.as_str());
    push_str(out, "\n");
    push_opt_line(out, "  Workspace: ", &run.workspace);
    push_str(out, "  Status:    ");
    push_str(out, run.status.as_str());
    push_str(out, "\n");
    push_opt_line(out, "  Source:    ", &run.source);
    push_opt_line(out, "  Commit:    ", &run.commit_sha);
    let ghost s1 = out@;
    match &run.message {
        Some(m) => {
            let subject = subject_line(m.as_str());
            push_str(out, "  Message:   ");
            push_str(out, subject.as_str());
            push_str(out, "\n");
        },
        None => {},
    }
    let ghost s2 = out@;
    assert(s2 =~= s1 + match run@.message {
        Some(m) => "  Message:   "@ + first_line(m) + "\n"@,
        None => Seq::empty(),
    });
    push_str(out, "\n");
    assert(out@ =~= s0 + header_text(run@));
}

fn push_attribute_line(out: &mut String, action: &String, is_create: bool, is_delete: bool, a: &AttributeChange)
    requires
        is_create == (action@ == "create"@),
        is_delete == (action@ == "delete"@),
    ensures
        final(out)@ == old(out)@ + attribute_line(action@, a@),
{
    push_str(out, "      ");
    push_str(out, a.name.as_str());
    if is_create {
        push_str(out, " = ");
        let t = compact(&a.after);
        push_str(out, t.as_str());
    } else if is_delete {
        push_str(out, " = ");
        let t = compact(&a.before);
        push_str(out, t.as_str());
    } else {
        push_str(out, ": ");
        let tb = compact(&a.before);
        push_str(out, tb.as_str());
        push_str(out, " -> ");
        let ta = compact(&a.after);
        push_str(out, ta.as_str());
    }
    if a.forces_replacement {
        push_str(out, "  # forces replacement");
    }
    push_str(out, "\n");
    assert(final(out)@ =~= old(out)@ + attribute_line(action@, a@));
}

fn push_attribute_lines(out: &mut String, action: &String, attrs: &Vec<AttributeChange>)
    ensures
        final(out)@ == old(out)@ + attribute_lines(action@, attr_changes_view(attrs@)),
{
    let ghost start = out@;
    let ghost av = attr_changes_view(attrs@);
    let is_create = same_text(action, "create");
    let is_delete = same_text(action, "delete");
    let mut i: usize = 0;
    assert(av.take(0) =~= Seq::<AttributeChangeV>::empty());
    while i < attrs.len()
        invariant
            i <= attrs@.len(),
            av == attr_changes_view(attrs@),
            av.len() == attrs@.len(),
            is_create == (action@ == "create"@),
            is_delete == (action@ == "delete"@),
            out@ == start + attribute_lines(action@, av.take(i as int)),
        decreases attrs@.len() - i,
    {
        let ghost mid = out@;
        let a = &attrs[i];
        push_attribute_line(out, action, is_create, is_delete, a);
        proof {
            assert(av.take(i + 1).drop_last() =~= av.take(i as int));
            assert(av.take(i + 1).last() == a@);
            assert(out@ =~= start + attribute_lines(action@, av.take(i + 1)));
        }
        i = i + 1;
    }
    assert(av.take(av.len() as int) =~= av);
}

fn push_joined(out: &mut String, items: &Vec<String>)
    ensures
        final(out)@ == old(out)@ + joined(strs_view(items@)),
{
    let ghost start = out@;
    let ghost v = strs_view(items@);
    let mut i: usize = 0;
    assert(v.take(0) =~= Seq::<Seq<char>>::empty());
    while i < items.len()
        invariant
            i <= items@.len(),
            v == strs_view(items@),
            v.len() == items@.len(),
            out@ == start + joined(v.take(i as int)),
        decreases items@.len() - i,
    {
        if i > 0 {
            push_str(out, ", ");
        }
        push_str(out, items[i].as_str());
        proof {
            assert(v.take(i + 1).drop_last() =~= v.take(i as int));
            if i == 0 {
                assert(v.take(1) =~= seq![v[0]]);
            }
            assert(out@ =~= start + joined(v.take(i + 1)));
        }
        i = i + 1;
    }
    assert(v.take(v.len() as int) =~= v);
}

fn symbol_of(action: &String) -> (r: &'static str)
    ensures
        r@ == action_symbol(action@),
{
    if same_text(action, "create") {
        "+"
    } else if same_text(action, "update") {
        "~"
    } else if same_text(action, "replace") {
        "±"
    } else if same_text(action, "delete") {
        "-"
    } else {
        " "
    }
}

fn push_rc_block(out: &mut String, rc: &ResourceChangeReport)
    ensures
        final(out)@ == old(out)@ + rc_block(rc@),
{
    push_str(out, "\n  ");
    let symbol = symbol_of(&rc.action);
    push_str(out, symbol);
    push_str(out, " ");
    push_str(out, rc.action.as_str());
    push_str(out, " ");
    push_str(out, rc.address.as_str());
    if rc.replace_forced_by.len() > 0 {
        push_str(out, "  (forced by: ");
        push_joined(out, &rc.replace_forced_by);
        push_str(out, ")");
    }
    push_str(out, "\n");
    push_attribute_lines(out, &rc.action, &rc.attributes);
    assert(final(out)@ =~= old(out)@ + rc_block(rc@));
}

fn push_rc_blocks(out: &mut String, rcs: &Vec<ResourceChangeReport>)
    ensures
        final(out)@ == old(out)@ + rc_blocks(rcs_view(rcs@)),
{
    let ghost start = out@;
    let ghost rv = rcs_view(rcs@);
    let mut i: usize = 0;
    assert(rv.take(0) =~= Seq::<ResourceChangeV>::empty());
    while i < rcs.len()
        invariant
            i <= rcs@.len(),
            rv == rcs_view(rcs@),
            rv.len() == rcs@.len(),
            out@ == start + rc_blocks(rv.take(i as int)),
        decreases rcs@.len() - i,
    {
        let rc = &rcs[i];
        push_rc_block(out, rc);
        proof {
            assert(rv.take(i + 1).drop_last() =~= rv.take(i as int));
            assert(rv.take(i + 1).last() == rc@);
            assert(out@ =~= start + rc_blocks(rv.take(i + 1)));
        }
        i = i + 1;
    }
    assert(rv.take(rv.len() as int) =~= rv);
}

fn push_output_lines(out: &mut String, outputs: &Vec<OutputChangeReport>)
    ensures
        final(out)@ == old(out)@ + output_lines(outputs_view(outputs@)),
{
    let ghost start = out@;
    let ghost ov = outputs_view(outputs@);
    let mut i: usize = 0;
    assert(ov.take(0) =~= Seq::<OutputChangeV>::empty());
    while i < outputs.len()
        invariant
            i <= outputs@.len(),
            ov == outputs_view(outputs@),
            ov.len() == outputs@.len(),
            out@ == start + output_lines(ov.take(i as int)),
        decreases outputs@.len() - i,
    {
        let ghost mid = out@;
        let o = &outputs[i];
        if same_text(&o.action, "create") {
            push_str(out, "  + ");
            push_str(out, o.name.as_str());
            push_str(out, " = ");
            let t = compact(&o.after);
            push_str(out, t.as_str());
        } else if same_text(&o.action, "delete") {
            push_str(out, "  - ");
            push_str(out, o.name.as_str());
            push_str(out, " = ");
            let t = compact(&o.before);
            push_str(out, t.as_str());
        } else {
            push_str(out, "  ~ ");
            push_str(out, o.name.as_str());
            push_str(out, ": ");
            let tb = compact(&o.before);
            push_str(out, tb.as_str());
            push_str(out, " -> ");
            let ta = compact(&o.after);
            push_str(out, ta.as_str());
        }
        push_str(out, "\n");
        proof {
            assert(ov.take(i + 1).drop_last() =~= ov.take(i as int));
            assert(ov.take(i + 1).last() == o@);
            assert(out@ =~= mid + output_line(o@));
            assert(out@ =~= start + output_lines(ov.take(i + 1)));
        }
        i = i + 1;
    }
    assert(ov.take(ov.len() as int) =~= ov);
}

/// Renders the report as text. It only ever holds redacted values.
#[verifier::spinoff_prover]
#[verifier::rlimit(40)]
pub fn render_text(report: &ShowReport) -> (r: String)
    ensures
        r@ == show_text(report@),
{
    let ghost rv = report@;
    let mut out = String::new();
    push_header(&mut out, &report.run);
    let ghost s0 = out@;
    push_str(&mut out, "Plan: ");
    push_dec_i64(&mut out, report.summary.add);
    push_str(&mut out, " to add, ");
    push_dec_i64(&mut out, report.summary.change);
    push_str(&mut out, " to change, ");
    push_dec_i64(&mut out, report.summary.destroy);
    push_str(&mut out, " to destroy.");
    if report.degraded {
        push_str(&mut out, " (summary only)");
    }
    push_str(&mut out, "\n");
    let ghost s1 = out@;
    assert(s1 =~= s0 + plan_line(rv.summary, rv.degraded));
    if report.resource_changes.len() > 0 {
        push_str(&mut out, "\nResource changes:\n");
        push_rc_blocks(&mut out, &report.resource_changes);
    }
    let ghost s2 = out@;
    assert(s2 =~= s1 + (if rv.resource_changes.len() > 0 {
        "\nResource changes:\n"@ + rc_blocks(rv.resource_changes)
    } else {
        Seq::empty()
    }));
    if report.output_changes.len() > 0 {
        push_str(&mut out, "\nOutput changes:\n");
        push_output_lines(&mut out, &report.output_changes);
    }
    assert(out@ =~= show_text(rv));
    out
}


/// A value that is null or one of the two markers: nothing from the
/// plan's own values.
pub open spec fn is_marker_or_null(v: JsonV) -> bool {
    v == JsonV::Null || v == JsonV::Str(sensitive_marker()) || v == JsonV::Str(unknown_marker())
}

/// Every entry of `of_kind(rcs, k)` has kind `k`.
pub proof fn lemma_of_kind_kind(rcs: Seq<JsonV>, k: ActionKind)
    ensures
        forall|i: int| 0 <= i < of_kind(rcs, k).len() ==> rc_kind(#[trigger] of_kind(rcs, k)[i]) == k,
    decreases rcs.len(),
{
    if rcs.len() > 0 {
        lemma_of_kind_kind(rcs.drop_last(), k);
    }
}

/// Law (redaction): an attribute either mask marks sensitive shows only
/// null or a marker on both sides, and an attribute marked unknown after
/// apply shows the unknown marker as its after-value.
pub proof fn law_show_redacts_attributes(change: JsonV, kind: ActionKind, forced: Seq<Seq<char>>, s: Seq<AttributeChangeV>, j: int)
    requires
        is_attr_changes(change, kind, forced, s),
        0 <= j < s.len(),
    ensures
        (truthy(field(change, "before_sensitive"@, s[j].name)) || truthy(field(change, "after_sensitive"@, s[j].name)))
            ==> is_marker_or_null(s[j].before) && is_marker_or_null(s[j].after),
        truthy(field(change, "after_unknown"@, s[j].name)) ==> s[j].after == JsonV::Str(unknown_marker()),
{
    assert(s[j] == attr_change_of(change, forced, s[j].name));
}

/// Law (redaction): a sensitive output shows only null or a marker on
/// both sides.
pub proof fn law_show_redacts_outputs(plan: JsonV, s: Seq<OutputChangeV>, j: int)
    requires
        is_output_list(plan, s),
        0 <= j < s.len(),
    ensures
        match output_change_at(plan, s[j].name) {
            Some(oc) => (truthy(jget(oc, "before_sensitive"@)) || truthy(jget(oc, "after_sensitive"@)))
                ==> is_marker_or_null(s[j].before) && is_marker_or_null(s[j].after),
            None => false,
        },
{
    assert(match output_change_at(plan, s[j].name) {
        Some(oc) => s[j] == output_report(s[j].name, oc),
        None => false,
    });
}

/// The position of an action in the report's grouping order.
pub open spec fn action_rank(a: Seq<char>) -> int {
    if a == "create"@ {
        0
    } else if a == "update"@ {
        1
    } else if a == "replace"@ {
        2
    } else if a == "delete"@ {
        3
    } else {
        4
    }
}

/// The group an entry of `grouped(rcs)` falls in.
pub open spec fn group_rank(rcs: Seq<JsonV>, x: int) -> int {
    let c = of_kind(rcs, ActionKind::Create).len();
    let u = of_kind(rcs, ActionKind::Update).len();
    let p = of_kind(rcs, ActionKind::Replace).len();
    let d = of_kind(rcs, ActionKind::Delete).len();
    if x < c {
        0
    } else if x < c + u {
        1
    } else if x < c + u + p {
        2
    } else if x < c + u + p + d {
        3
    } else {
        4
    }
}

/// An entry of `grouped(rcs)` has the kind of its group.
pub proof fn lemma_grouped_kind(rcs: Seq<JsonV>, x: int)
    requires
        0 <= x < grouped(rcs).len(),
    ensures
        rc_kind(grouped(rcs)[x]) == (if group_rank(rcs, x) == 0 {
            ActionKind::Create
        } else if group_rank(rcs, x) == 1 {
            ActionKind::Update
        } else if group_rank(rcs, x) == 2 {
            ActionKind::Replace
        } else if group_rank(rcs, x) == 3 {
            ActionKind::Delete
        } else {
            ActionKind::Read
        }),
{
    let c = of_kind(rcs, ActionKind::Create);
    let u = of_kind(rcs, ActionKind::Update);
    let p = of_kind(rcs, ActionKind::Replace);
    let d = of_kind(rcs, ActionKind::Delete);
    let e = of_kind(rcs, ActionKind::Read);
    lemma_of_kind_kind(rcs, ActionKind::Create);
    lemma_of_kind_kind(rcs, ActionKind::Update);
    lemma_of_kind_kind(rcs, ActionKind::Replace);
    lemma_of_kind_kind(rcs, ActionKind::Delete);
    lemma_of_kind_kind(rcs, ActionKind::Read);
    let g1 = c + u;
    let g2 = g1 + p;
    let g3 = g2 + d;
    let g = g3 + e;
    assert(grouped(rcs) == g);
    if x < c.len() {
        assert(g[x] == g3[x]);
        assert(g3[x] == g2[x]);
        assert(g2[x] == g1[x]);
        assert(g1[x] == c[x]);
    } else if x < c.len() + u.len() {
        assert(g[x] == g3[x]);
        assert(g3[x] == g2[x]);
        assert(g2[x] == g1[x]);
        assert(g1[x] == u[x - c.len()]);
    } else if x < c.len() + u.len() + p.len() {
        assert(g[x] == g3[x]);
        assert(g3[x] == g2[x]);
        assert(g2[x] == p[x - c.len() - u.len()]);
    } else if x < c.len() + u.len() + p.len() + d.len() {
        assert(g[x] == g3[x]);
        assert(g3[x] == d[x - c.len() - u.len() - p.len()]);
    } else {
        assert(g[x] == e[x - c.len() - u.len() - p.len() - d.len()]);
    }
}

/// The rank of each kind's name, and that a changed kind is not named
/// `no-op`.
pub proof fn lemma_action_rank(k: ActionKind)
    ensures
        action_rank(kind_name(k)) == match k {
            ActionKind::Create => 0int,
            ActionKind::Update => 1int,
            ActionKind::Replace => 2int,
            ActionKind::Delete => 3int,
            _ => 4int,
        },
        k != ActionKind::NoOp ==> kind_name(k) != kind_name(ActionKind::NoOp),
{
    reveal_strlit("create");
    reveal_strlit("update");
    reveal_strlit("replace");
    reveal_strlit("delete");
    reveal_strlit("read");
    reveal_strlit("no-op");
    assert("create"@[0] == 'c');
    assert("update"@[0] == 'u');
    assert("replace"@[0] == 'r');
    assert("replace"@[2] == 'p');
    assert("delete"@[0] == 'd');
    assert("read"@[0] == 'r');
    assert("read"@[2] == 'a');
    assert("no-op"@[0] == 'n');
}

/// Law: a full report lists changed resources grouped by action
/// (creates, updates, replaces, deletes, reads) and never a no-op.
pub proof fn law_show_groups_by_action(r: ShowReportV, run: RunMetaV, plan: JsonV, i: int, j: int)
    requires
        is_show_report(r, run, plan),
        0 <= i < j < r.resource_changes.len(),
    ensures
        action_rank(r.resource_changes[i].action) <= action_rank(r.resource_changes[j].action),
        r.resource_changes[i].action != kind_name(ActionKind::NoOp),
{
    let rcs = plan_rcs(plan);
    let g = grouped(rcs);
    lemma_grouped_kind(rcs, i);
    lemma_grouped_kind(rcs, j);
    lemma_action_rank(rc_kind(g[i]));
    lemma_action_rank(rc_kind(g[j]));
    assert(rc_report_ok(g[i], r.resource_changes[i]));
    assert(rc_report_ok(g[j], r.resource_changes[j]));
    assert(action_rank(r.resource_changes[i].action) == group_rank(rcs, i));
    assert(action_rank(r.resource_changes[j].action) == group_rank(rcs, j));
}

/// Law (show text): the text starts with the `Run <id>` line, followed by
/// the workspace line exactly when the run names a workspace (else the
/// status line); the plan line follows the header, and it ends with
/// ` (summary only)` exactly when the report is degraded.
#[verifier::spinoff_prover]
#[verifier::rlimit(40)]
pub proof fn law_show_text_layout(r: ShowReportV)
    ensures
        ("Run "@ + r.run.id + "\n"@).is_prefix_of(show_text(r)),
        match r.run.workspace {
            Some(w) => ("Run "@ + r.run.id + "\n"@ + "  Workspace: "@ + w + "\n"@).is_prefix_of(show_text(r)),
            None => ("Run "@ + r.run.id + "\n"@ + "  Status:    "@ + r.run.status + "\n"@).is_prefix_of(show_text(r)),
        },
        show_text(r).subrange(
            header_text(r.run).len() as int,
            (header_text(r.run).len() + plan_line(r.summary, r.degraded).len()) as int,
        ) == plan_line(r.summary, r.degraded),
        (" (summary only)\n"@).is_suffix_of(plan_line(r.summary, r.degraded)) <==> r.degraded,
{
    reveal_strlit(" (summary only)\n");
    reveal_strlit(" (summary only)");
    reveal_strlit(" to destroy.");
    reveal_strlit("\n");
    let h = header_text(r.run);
    let p = plan_line(r.summary, r.degraded);
    let t = show_text(r);
    let first = "Run "@ + r.run.id + "\n"@;
    assert(t.subrange(0, first.len() as int) =~= first);
    match r.run.workspace {
        Some(w) => {
            let pre = first + "  Workspace: "@ + w + "\n"@;
            assert(t.subrange(0, pre.len() as int) =~= pre);
        },
        None => {
            let pre = first + "  Status:    "@ + r.run.status + "\n"@;
            assert(t.subrange(0, pre.len() as int) =~= pre);
        },
    }
    assert(t.subrange(h.len() as int, (h.len() + p.len()) as int) =~= p);
    let suf = " (summary only)\n"@;
    if r.degraded {
        assert(p.subrange(p.len() - suf.len(), p.len() as int) =~= suf);
    } else {
        assert(p[p.len() - 2] == '.');
        assert(suf[suf.len() - 2] == ')');
        if suf.is_suffix_of(p) {
            assert(p[p.len() - 2] == suf[suf.len() - 2]);
        }
    }
}


/// Lines joined, each ended by a line feed.
pub open spec fn joined_lines(ls: Seq<Seq<char>>) -> Seq<char>
    decreases ls.len(),
{
    if ls.len() == 0 {
        Seq::empty()
    } else {
        joined_lines(ls.drop_last()) + ls.last() + "\n"@
    }
}

/// An optional header line.
pub open spec fn opt_header(label: Seq<char>, v: Option<Seq<char>>) -> Seq<Seq<char>> {
    match v {
        Some(x) => seq![label + x],
        None => Seq::empty(),
    }
}

/// The lines of the run header, in order, the last one blank.
pub open spec fn header_lines(run: RunMetaV) -> Seq<Seq<char>> {
    seq!["Run "@ + run.id] + opt_header("  Workspace: "@, run.workspace) + seq!["  Status:    "@ + run.status]
        + opt_header("  Source:    "@, run.source) + opt_header("  Commit:    "@, run.commit_sha) + match run.message {
        Some(m) => seq!["  Message:   "@ + first_line(m)],
        None => Seq::<Seq<char>>::empty(),
    } + seq![Seq::<char>::empty()]
}

proof fn lemma_joined_add(a: Seq<Seq<char>>, b: Seq<Seq<char>>)
    ensures
        joined_lines(a + b) == joined_lines(a) + joined_lines(b),
    decreases b.len(),
{
    if b.len() == 0 {
        assert(a + b =~= a);
        assert(joined_lines(a) + joined_lines(b) =~= joined_lines(a));
    } else {
        assert((a + b).drop_last() =~= a + b.drop_last());
        lemma_joined_add(a, b.drop_last());
        assert(joined_lines(a + b) =~= joined_lines(a) + joined_lines(b));
    }
}

proof fn lemma_joined_one(x: Seq<char>)
    ensures
        joined_lines(seq![x]) == x + "\n"@,
{
    assert(seq![x].drop_last() =~= Seq::<Seq<char>>::empty());
    assert(seq![x].last() == x);
    assert(joined_lines(seq![x].drop_last()) == Seq::<char>::empty());
    assert(joined_lines(seq![x]) == joined_lines(seq![x].drop_last()) + x + "\n"@);
    assert(joined_lines(seq![x]) =~= x + "\n"@);
}

proof fn lemma_joined_opt(label: Seq<char>, v: Option<Seq<char>>)
    ensures
        joined_lines(opt_header(label, v)) == opt_line(label, v),
{
    match v {
        Some(x) => {
            lemma_joined_one(label + x);
            assert(opt_line(label, v) =~= label + x + "\n"@);
        },
        None => {},
    }
}

proof fn lemma_before_newline_single(s: Seq<char>)
    ensures
        !before_newline(s).contains('\n'),
        before_newline(s).len() <= s.len(),
    decreases s.len(),
{
    if s.len() > 0 && s[0] != '\n' {
        lemma_before_newline_single(s.drop_first());
        let b = before_newline(s);
        assert(b == seq![s[0]] + before_newline(s.drop_first()));
        if b.contains('\n') {
            let k = choose|k: int| 0 <= k < b.len() && b[k] == '\n';
            if k > 0 {
                assert(b[k] == before_newline(s.drop_first())[k - 1]);
            }
        }
    }
}

proof fn lemma_no_newline_concat(a: Seq<char>, b: Seq<char>)
    requires
        !a.contains('\n'),
        !b.contains('\n'),
    ensures
        !(a + b).contains('\n'),
{
    if (a + b).contains('\n') {
        let k = choose|k: int| 0 <= k < (a + b).len() && (a + b)[k] == '\n';
        if k < a.len() {
            assert(a[k] == '\n');
        } else {
            assert(b[k - a.len()] == '\n');
        }
    }
}

/// No field of the run holds a line feed (the message may: only its
/// first line is shown).
pub open spec fn run_single_line(run: RunMetaV) -> bool {
    &&& !run.id.contains('\n')
    &&& !run.status.contains('\n')
    &&& (run.workspace matches Some(w) ==> !w.contains('\n'))
    &&& (run.source matches Some(x) ==> !x.contains('\n'))
    &&& (run.commit_sha matches Some(c) ==> !c.contains('\n'))
}

/// Law (show header): the show text begins with the header lines and then
/// the plan line. The header lines are, in order: `Run <id>`, the
/// workspace line, the status line, the source line, the commit line, the
/// message's first line, and a blank line; a line starting with
/// `  Workspace: ` is among them exactly when the run names a workspace,
/// and one starting with `  Commit:    ` exactly when it carries a commit.
/// With no line feed in the run's fields, no header line holds one, so
/// these are the text's first lines.
#[verifier::rlimit(40)]
pub proof fn law_show_header_lines(r: ShowReportV)
    ensures
        (joined_lines(header_lines(r.run)) + plan_line(r.summary, r.degraded)).is_prefix_of(show_text(r)),
        (exists|i: int| 0 <= i < header_lines(r.run).len() && ("  Workspace: "@).is_prefix_of(
            #[trigger] header_lines(r.run)[i],
        )) <==> r.run.workspace is Some,
        (exists|i: int| 0 <= i < header_lines(r.run).len() && ("  Commit:    "@).is_prefix_of(
            #[trigger] header_lines(r.run)[i],
        )) <==> r.run.commit_sha is Some,
        run_single_line(r.run) ==> forall|i: int| 0 <= i < header_lines(r.run).len() ==> !(#[trigger] header_lines(r.run)[i]).contains('\n'),
{
    reveal_strlit("Run ");
    reveal_strlit("  Workspace: ");
    reveal_strlit("  Status:    ");
    reveal_strlit("  Source:    ");
    reveal_strlit("  Commit:    ");
    reveal_strlit("  Message:   ");
    reveal_strlit("\n");
    let run = r.run;
    let l0: Seq<Seq<char>> = seq!["Run "@ + run.id];
    let l1 = opt_header("  Workspace: "@, run.workspace);
    let l2: Seq<Seq<char>> = seq!["  Status:    "@ + run.status];
    let l3 = opt_header("  Source:    "@, run.source);
    let l4 = opt_header("  Commit:    "@, run.commit_sha);
    let l5: Seq<Seq<char>> = match run.message {
        Some(m) => seq!["  Message:   "@ + first_line(m)],
        None => Seq::<Seq<char>>::empty(),
    };
    let l6: Seq<Seq<char>> = seq![Seq::<char>::empty()];
    let hl = header_lines(run);
    assert(hl == l0 + l1 + l2 + l3 + l4 + l5 + l6);
    lemma_joined_add(l0 + l1 + l2 + l3 + l4 + l5, l6);
    lemma_joined_add(l0 + l1 + l2 + l3 + l4, l5);
    lemma_joined_add(l0 + l1 + l2 + l3, l4);
    lemma_joined_add(l0 + l1 + l2, l3);
    lemma_joined_add(l0 + l1, l2);
    lemma_joined_add(l0, l1);
    lemma_joined_one("Run "@ + run.id);
    lemma_joined_opt("  Workspace: "@, run.workspace);
    lemma_joined_one("  Status:    "@ + run.status);
    lemma_joined_opt("  Source:    "@, run.source);
    lemma_joined_opt("  Commit:    "@, run.commit_sha);
    lemma_joined_one(Seq::<char>::empty());
    match run.message {
        Some(m) => lemma_joined_one("  Message:   "@ + first_line(m)),
        None => {},
    }
    assert(joined_lines(hl) =~= header_text(run));
    let pre = header_text(run) + plan_line(r.summary, r.degraded);
    assert(show_text(r).subrange(0, pre.len() as int) =~= pre);
    // Each header line is one of the seven kinds.
    assert forall|i: int| 0 <= i < hl.len() implies
        hl[i] == "Run "@ + run.id
        || (run.workspace matches Some(w) && hl[i] == "  Workspace: "@ + w)
        || hl[i] == "  Status:    "@ + run.status
        || (run.source matches Some(x) && hl[i] == "  Source:    "@ + x)
        || (run.commit_sha matches Some(c) && hl[i] == "  Commit:    "@ + c)
        || (run.message matches Some(m) && hl[i] == "  Message:   "@ + first_line(m))
        || hl[i] == Seq::<char>::empty() by {
    }
    let wp = "  Workspace: "@;
    let cp = "  Commit:    "@;
    if run.workspace is Some {
        let k = l0.len() as int;
        assert(hl[k] == "  Workspace: "@ + run.workspace.unwrap());
        assert(wp.is_prefix_of(hl[k])) by {
            assert(hl[k].subrange(0, wp.len() as int) =~= wp);
        }
    } else {
        assert forall|i: int| 0 <= i < hl.len() implies !wp.is_prefix_of(#[trigger] hl[i]) by {
            if wp.is_prefix_of(hl[i]) {
                assert(hl[i][2] == wp[2]);
                if hl[i] == "Run "@ + run.id {
                    assert(hl[i][0] == 'R');
                    assert(wp[0] == ' ');
                }
            }
        }
    }
    if run.commit_sha is Some {
        let k = (l0 + l1 + l2 + l3).len() as int;
        assert(hl[k] == "  Commit:    "@ + run.commit_sha.unwrap());
        assert(cp.is_prefix_of(hl[k])) by {
            assert(hl[k].subrange(0, cp.len() as int) =~= cp);
        }
    } else {
        assert forall|i: int| 0 <= i < hl.len() implies !cp.is_prefix_of(#[trigger] hl[i]) by {
            if cp.is_prefix_of(hl[i]) {
                assert(hl[i][2] == cp[2]);
                if hl[i] == "Run "@ + run.id {
                    assert(hl[i][0] == 'R');
                    assert(cp[0] == ' ');
                }
            }
        }
    }
    if run_single_line(run) {
        assert forall|i: int| 0 <= i < hl.len() implies !(#[trigger] hl[i]).contains('\n') by {
            assert(!("Run "@).contains('\n'));
            assert(!("  Workspace: "@).contains('\n'));
            assert(!("  Status:    "@).contains('\n'));
            assert(!("  Source:    "@).contains('\n'));
            assert(!("  Commit:    "@).contains('\n'));
            assert(!("  Message:   "@).contains('\n'));
            lemma_no_newline_concat("Run "@, run.id);
            lemma_no_newline_concat("  Status:    "@, run.status);
            match run.workspace {
                Some(w) => lemma_no_newline_concat("  Workspace: "@, w),
                None => {},
            }
            match run.source {
                Some(x) => lemma_no_newline_concat("  Source:    "@, x),
                None => {},
            }
            match run.commit_sha {
                Some(c) => lemma_no_newline_concat("  Commit:    "@, c),
                None => {},
            }
            match run.message {
                Some(m) => {
                    lemma_before_newline_single(m);
                    let b = before_newline(m);
                    let f = first_line(m);
                    assert(!f.contains('\n')) by {
                        if f.contains('\n') {
                            let k = choose|k: int| 0 <= k < f.len() && f[k] == '\n';
                            assert(f[k] == b[k]);
                        }
                    }
                    lemma_no_newline_concat("  Message:   "@, f);
                },
                None => {},
            }
        }
    }
}


proof fn lemma_output_lines_infix(s: Seq<OutputChangeV>, k: int)
    requires
        0 <= k < s.len(),
    ensures
        has_infix(output_lines(s), output_line(s[k])),
    decreases s.len(),
{
    if k == s.len() - 1 {
        lemma_infix_last(output_lines(s.drop_last()), output_line(s.last()));
    } else {
        lemma_output_lines_infix(s.drop_last(), k);
        assert(s.drop_last()[k] == s[k]);
        lemma_infix_left(output_lines(s.drop_last()), output_line(s.last()), output_line(s[k]));
    }
}

/// Law (output lines): every changed output has its line in the show
/// text: a created output shows its after-value as `  + <name> = <after>`,
/// a deleted one its before-value as `  - <name> = <before>`, and any
/// other change both, before on the left of the arrow and after on the
/// right: `  ~ <name>: <before> -> <after>`.
pub proof fn law_show_output_lines(r: ShowReportV, k: int)
    requires
        0 <= k < r.output_changes.len(),
    ensures
        ({
            let o = r.output_changes[k];
            &&& o.action == "create"@ ==> has_infix(show_text(r), "  + "@ + o.name + " = "@ + show_compact(o.after) + "\n"@)
            &&& o.action == "delete"@ ==> has_infix(show_text(r), "  - "@ + o.name + " = "@ + show_compact(o.before) + "\n"@)
            &&& (o.action != "create"@ && o.action != "delete"@) ==> has_infix(
                show_text(r),
                "  ~ "@ + o.name + ": "@ + show_compact(o.before) + " -> "@ + show_compact(o.after) + "\n"@,
            )
        }),
{
    reveal_strlit("create");
    reveal_strlit("delete");
    let o = r.output_changes[k];
    let line = output_line(o);
    assert("create"@ != "delete"@) by {
        assert("create"@[0] != "delete"@[0]);
    }
    lemma_output_lines_infix(r.output_changes, k);
    lemma_infix_right("\nOutput changes:\n"@, output_lines(r.output_changes), line);
    let pre = header_text(r.run) + plan_line(r.summary, r.degraded) + (if r.resource_changes.len() > 0 {
        "\nResource changes:\n"@ + rc_blocks(r.resource_changes)
    } else {
        Seq::empty()
    });
    lemma_infix_right(pre, "\nOutput changes:\n"@ + output_lines(r.output_changes), line);
    assert(show_text(r) == pre + ("\nOutput changes:\n"@ + output_lines(r.output_changes)));
    if o.action == "create"@ {
        assert(line =~= "  + "@ + o.name + " = "@ + show_compact(o.after) + "\n"@);
    } else if o.action == "delete"@ {
        assert(line =~= "  - "@ + o.name + " = "@ + show_compact(o.before) + "\n"@);
    } else {
        assert(line =~= "  ~ "@ + o.name + ": "@ + show_compact(o.before) + " -> "@ + show_compact(o.after) + "\n"@);
    }
}

/// Law (output values): an output change of the report carries the
/// plan's action for it, and, when neither sensitivity mask marks it,
/// the plan's own before-value, and its own after-value unless that is
/// unknown (null standing for an absent value).
pub proof fn law_show_output_values(r: ShowReportV, run: RunMetaV, plan: JsonV, k: int)
    requires
        is_show_report(r, run, plan),
        0 <= k < r.output_changes.len(),
    ensures
        ({
            let o = r.output_changes[k];
            let oc = output_change_at(plan, o.name).unwrap();
            let plain = !truthy(jget(oc, "before_sensitive"@)) && !truthy(jget(oc, "after_sensitive"@));
            &&& output_change_at(plan, o.name) is Some
            &&& o.action == kind_name(classify(oc))
            &&& plain ==> o.before == match jget(oc, "before"@) {
                Some(v) => v,
                None => JsonV::Null,
            }
            &&& plain && !truthy(jget(oc, "after_unknown"@)) ==> o.after == match jget(oc, "after"@) {
                Some(v) => v,
                None => JsonV::Null,
            }
        }),
{
    let o = r.output_changes[k];
    assert(is_output_list(plan, r.output_changes));
    assert(match output_change_at(plan, o.name) {
        Some(oc) => o == output_report(o.name, oc),
        None => false,
    });
}

/// Law (listed attributes): an attribute of a changed resource is listed
/// exactly when it occurs in the change's before, after or after-unknown
/// object and, for an update or a replace, it is unknown after apply or
/// its before and after values differ. An unchanged attribute of an
/// update or a replace is never listed.
pub proof fn law_show_lists_changed_attributes(r: ShowReportV, run: RunMetaV, plan: JsonV, i: int, key: Seq<char>)
    requires
        is_show_report(r, run, plan),
        0 <= i < r.resource_changes.len(),
    ensures
        ({
            let rc = grouped(plan_rcs(plan))[i];
            let ch = change_of(rc);
            let kind = rc_kind(rc);
            let present = has_member(ch, "before"@, key) || has_member(ch, "after"@, key) || has_member(
                ch,
                "after_unknown"@,
                key,
            );
            let changed = truthy(field(ch, "after_unknown"@, key)) || field(ch, "before"@, key) != field(ch, "after"@, key);
            &&& r.resource_changes[i].action == kind_name(kind)
            &&& (kind == ActionKind::Update || kind == ActionKind::Replace) ==> (attr_change_names(
                r.resource_changes[i].attributes,
            ).contains(key) <==> (present && changed))
            &&& !(kind == ActionKind::Update || kind == ActionKind::Replace) ==> (attr_change_names(
                r.resource_changes[i].attributes,
            ).contains(key) <==> present)
        }),
{
    assert(is_rc_list(plan_rcs(plan), r.resource_changes));
    assert(rc_report_ok(grouped(plan_rcs(plan))[i], r.resource_changes[i]));
}


proof fn lemma_attribute_lines_infix(action: Seq<char>, s: Seq<AttributeChangeV>, j: int)
    requires
        0 <= j < s.len(),
    ensures
        has_infix(attribute_lines(action, s), attribute_line(action, s[j])),
    decreases s.len(),
{
    if j == s.len() - 1 {
        lemma_infix_last(attribute_lines(action, s.drop_last()), attribute_line(action, s.last()));
    } else {
        lemma_attribute_lines_infix(action, s.drop_last(), j);
        assert(s.drop_last()[j] == s[j]);
        lemma_infix_left(attribute_lines(action, s.drop_last()), attribute_line(action, s.last()), attribute_line(action, s[j]));
    }
}

proof fn lemma_rc_blocks_infix(s: Seq<ResourceChangeV>, i: int, j: int)
    requires
        0 <= i < s.len(),
        0 <= j < s[i].attributes.len(),
    ensures
        has_infix(rc_blocks(s), attribute_line(s[i].action, s[i].attributes[j])),
    decreases s.len(),
{
    let t = attribute_line(s[i].action, s[i].attributes[j]);
    if i == s.len() - 1 {
        let rc = s.last();
        lemma_attribute_lines_infix(rc.action, rc.attributes, j);
        let head = "\n  "@ + action_symbol(rc.action) + " "@ + rc.action + " "@ + rc.address + (if rc.replace_forced_by.len() > 0 {
            "  (forced by: "@ + joined(rc.replace_forced_by) + ")"@
        } else {
            Seq::empty()
        }) + "\n"@;
        assert(rc_block(rc) == head + attribute_lines(rc.action, rc.attributes));
        lemma_infix_right(head, attribute_lines(rc.action, rc.attributes), t);
        lemma_infix_right(rc_blocks(s.drop_last()), rc_block(rc), t);
    } else {
        assert(s.drop_last()[i] == s[i]);
        lemma_rc_blocks_infix(s.drop_last(), i, j);
        lemma_infix_left(rc_blocks(s.drop_last()), rc_block(s.last()), t);
    }
}

/// Law (attribute lines): every listed attribute of a changed resource has
/// its line in the show text: for a create its after-value, for a delete
/// its before-value, otherwise `<before> -> <after>`, each followed by
/// `  # forces replacement` exactly when the attribute forces one.
pub proof fn law_show_attribute_lines(r: ShowReportV, i: int, j: int)
    requires
        0 <= i < r.resource_changes.len(),
        0 <= j < r.resource_changes[i].attributes.len(),
    ensures
        ({
            let rc = r.resource_changes[i];
            let a = rc.attributes[j];
            let force = if a.forces_replacement { "  # forces replacement"@ } else { Seq::<char>::empty() };
            &&& rc.action == "create"@ ==> has_infix(show_text(r), "      "@ + a.name + " = "@ + show_compact(a.after) + force + "\n"@)
            &&& rc.action == "delete"@ ==> has_infix(show_text(r), "      "@ + a.name + " = "@ + show_compact(a.before) + force + "\n"@)
            &&& (rc.action != "create"@ && rc.action != "delete"@) ==> has_infix(
                show_text(r),
                "      "@ + a.name + ": "@ + show_compact(a.before) + " -> "@ + show_compact(a.after) + force + "\n"@,
            )
        }),
{
    reveal_strlit("create");
    reveal_strlit("delete");
    assert("create"@ != "delete"@) by {
        assert("create"@[0] != "delete"@[0]);
    }
    let rc = r.resource_changes[i];
    let a = rc.attributes[j];
    let line = attribute_line(rc.action, a);
    lemma_rc_blocks_infix(r.resource_changes, i, j);
    lemma_infix_right("\nResource changes:\n"@, rc_blocks(r.resource_changes), line);
    let pre = header_text(r.run) + plan_line(r.summary, r.degraded);
    let mid = "\nResource changes:\n"@ + rc_blocks(r.resource_changes);
    let post = if r.output_changes.len() > 0 {
        "\nOutput changes:\n"@ + output_lines(r.output_changes)
    } else {
        Seq::empty()
    };
    lemma_infix_right(pre, mid, line);
    lemma_infix_left(pre + mid, post, line);
    assert(show_text(r) == pre + mid + post);
    let force = if a.forces_replacement { "  # forces replacement"@ } else { Seq::<char>::empty() };
    if rc.action == "create"@ {
        assert(line =~= "      "@ + a.name + " = "@ + show_compact(a.after) + force + "\n"@);
    } else if rc.action == "delete"@ {
        assert(line =~= "      "@ + a.name + " = "@ + show_compact(a.before) + force + "\n"@);
    } else {
        assert(line =~= "      "@ + a.name + ": "@ + show_compact(a.before) + " -> "@ + show_compact(a.after) + force + "\n"@);
    }
}

/// Law (plan line): right after the run header the show text holds
/// `Plan: <add> to add, <change> to change, <destroy> to destroy.`, then
/// ` (summary only)` when the report is degraded, and a line feed.
pub proof fn law_show_plan_line(r: ShowReportV)
    ensures
        (header_text(r.run) + "Plan: "@ + dec_int(r.summary.add as int) + " to add, "@ + dec_int(r.summary.change as int)
            + " to change, "@ + dec_int(r.summary.destroy as int) + " to destroy."@ + (if r.degraded {
            " (summary only)"@
        } else {
            Seq::empty()
        }) + "\n"@).is_prefix_of(show_text(r)),
{
    let pre = header_text(r.run) + plan_line(r.summary, r.degraded);
    assert(show_text(r).subrange(0, pre.len() as int) =~= pre);
    assert(pre =~= header_text(r.run) + "Plan: "@ + dec_int(r.summary.add as int) + " to add, "@ + dec_int(r.summary.change as int)
            + " to change, "@ + dec_int(r.summary.destroy as int) + " to destroy."@ + (if r.degraded {
            " (summary only)"@
        } else {
            Seq::empty()
        }) + "\n"@);
}

} // verus!
