//! The plan model shared by `runs show` and `runs diff`: how a change's
//! `actions` classify, the sensitivity and unknown masks, the changed
//! resources of a plan keyed by address, and the plan-record summary
//! used when the plan JSON itself is forbidden.

use vstd::prelude::*;
use crate::json::{Json, JsonV, jget, oget, jpath, as_str_v, as_array_v, as_i64_v, opt_view, member_get, members_view, items_view,
    lemma_members_view, lemma_items_view, path_get, path_str, keys_view};
use crate::error::Error;
use crate::text::{push_str, sview};
use crate::order::{str_lt, str_less, sorted_strs, strs_view, insert_sorted_str, lemma_str_lt_irreflexive,
    lemma_str_lt_asymmetric, lemma_str_lt_total, lemma_str_lt_transitive};

verus! {

/// What a resource or output change does.
#[derive(Debug, Clone, Copy, PartialEq, Eq, Structural)]
pub enum ActionKind {
    Create,
    Update,
    Delete,
    Read,
    Replace,
    NoOp,
}

/// The kind a change's action list denotes: a single `create`,
/// `update`, `delete` or `read`; `delete`+`create` in either order is a
/// replace; anything else is no-op.
pub open spec fn kind_of(a: Seq<Seq<char>>) -> ActionKind {
    if a.len() == 1 && a[0] == "create"@ {
        ActionKind::Create
    } else if a.len() == 1 && a[0] == "update"@ {
        ActionKind::Update
    } else if a.len() == 1 && a[0] == "delete"@ {
        ActionKind::Delete
    } else if a.len() == 1 && a[0] == "read"@ {
        ActionKind::Read
    } else if a.len() == 2 && ((a[0] == "delete"@ && a[1] == "create"@) || (a[0] == "create"@ && a[1]
        == "delete"@)) {
        ActionKind::Replace
    } else {
        ActionKind::NoOp
    }
}

/// The name of an action kind as it appears in reports.
pub open spec fn kind_name(k: ActionKind) -> Seq<char> {
    match k {
        ActionKind::Create => "create"@,
        ActionKind::Update => "update"@,
        ActionKind::Delete => "delete"@,
        ActionKind::Read => "read"@,
        ActionKind::Replace => "replace"@,
        ActionKind::NoOp => "no-op"@,
    }
}

/// The string elements of an array, in order (other elements skipped).
pub open spec fn str_items(items: Seq<JsonV>) -> Seq<Seq<char>>
    decreases items.len(),
{
    if items.len() == 0 {
        Seq::empty()
    } else {
        match items.last() {
            JsonV::Str(s) => str_items(items.drop_last()).push(s),
            _ => str_items(items.drop_last()),
        }
    }
}

/// The action strings of a change (`change.actions`), empty when absent.
pub open spec fn actions_of(change: JsonV) -> Seq<Seq<char>> {
    match as_array_v(jget(change, "actions"@)) {
        Some(items) => str_items(items),
        None => Seq::empty(),
    }
}

/// The action kind of a change.
pub open spec fn classify(change: JsonV) -> ActionKind {
    kind_of(actions_of(change))
}

impl ActionKind {
    /// The report name of this kind.
    pub fn name(&self) -> (r: String)
        ensures
            r@ == kind_name(*self),
    {
        match self {
            ActionKind::Create => "create".to_owned(),
            ActionKind::Update => "update".to_owned(),
            ActionKind::Delete => "delete".to_owned(),
            ActionKind::Read => "read".to_owned(),
            ActionKind::Replace => "replace".to_owned(),
            ActionKind::NoOp => "no-op".to_owned(),
        }
    }
}

/// Classify an action list: `create`, `update`, `delete`, `read`,
/// `replace` (`delete`+`create` either way) or no-op.
pub fn classify_actions(actions: &Vec<String>) -> (k: ActionKind)
    ensures
        k == kind_of(strs_view(actions@)),
{
    let create = "create".to_owned();
    let update = "update".to_owned();
    let delete = "delete".to_owned();
    let read = "read".to_owned();
    let ghost v = strs_view(actions@);
    if actions.len() == 1 {
        assert(v[0] == actions@[0]@);
        if actions[0] == create {
            return ActionKind::Create;
        } else if actions[0] == update {
            return ActionKind::Update;
        } else if actions[0] == delete {
            return ActionKind::Delete;
        } else if actions[0] == read {
            return ActionKind::Read;
        }
    } else if actions.len() == 2 {
        assert(v[0] == actions@[0]@);
        assert(v[1] == actions@[1]@);
        if (actions[0] == delete && actions[1] == create) || (actions[0] == create && actions[1]
            == delete) {
            return ActionKind::Replace;
        }
    }
    ActionKind::NoOp
}

/// The action strings of a change.
pub fn action_strings(change: &Json) -> (r: Vec<String>)
    ensures
        strs_view(r@) == actions_of(change@),
{
    let mut out: Vec<String> = Vec::new();
    match change.get("actions") {
        Some(a) => match a.as_array() {
            Some(items) => {
                proof {
                    lemma_items_view(items@);
                }
                let mut i: usize = 0;
                while i < items.len()
                    invariant
                        i <= items@.len(),
                        items_view(items@).len() == items@.len(),
                        forall|k: int| 0 <= k < items@.len() ==> #[trigger] items_view(items@)[k] == items@[k]@,
                        strs_view(out@) == str_items(items_view(items@).take(i as int)),
                    decreases items@.len() - i,
                {
                    let ghost iv = items_view(items@);
                    assert(iv.take(i + 1).drop_last() =~= iv.take(i as int));
                    assert(iv.take(i + 1).last() == items@[i as int]@);
                    match items[i].as_str() {
                        Some(s) => {
                            out.push(s.clone());
                            assert(strs_view(out@) =~= str_items(iv.take(i as int)).push(s@));
                        },
                        None => {},
                    }
                    i = i + 1;
                }
                assert(items_view(items@).take(items@.len() as int) =~= items_view(items@));
            },
            None => {},
        },
        None => {},
    }
    assert(actions_of(change@) == str_items(Seq::empty()) ==> strs_view(out@) =~= Seq::<Seq<char>>::empty());
    out
}

/// The action kind of a change.
pub fn change_kind(change: &Json) -> (k: ActionKind)
    ensures
        k == classify(change@),
{
    let a = action_strings(change);
    classify_actions(&a)
}

/// A sensitivity or unknown mask is truthy: `true`, or a non-empty
/// object or array (any nested mark covers the whole attribute).
pub open spec fn truthy(mask: Option<JsonV>) -> bool {
    match mask {
        Some(JsonV::Bool(b)) => b,
        Some(JsonV::Object(m)) => m.len() > 0,
        Some(JsonV::Array(a)) => a.len() > 0,
        _ => false,
    }
}

/// Whether a mask is truthy.
pub fn truthy_mask(mask: Option<&Json>) -> (r: bool)
    ensures
        r == truthy(opt_view(mask)),
{
    match mask {
        Some(Json::Bool(b)) => *b,
        Some(Json::Object(m)) => {
            proof { lemma_members_view(m@); }
            m.len() > 0
        },
        Some(Json::Array(a)) => {
            proof { lemma_items_view(a@); }
            a.len() > 0
        },
        _ => false,
    }
}

/// `obj[name][key]`.
pub open spec fn field(change: JsonV, name: Seq<char>, key: Seq<char>) -> Option<JsonV> {
    oget(jget(change, name), key)
}

/// `obj[name][key]` (absent unless both steps exist).
pub fn field_of<'a>(change: &'a Json, name: &str, key: &str) -> (r: Option<&'a Json>)
    ensures
        opt_view(r) == field(change@, name@, key@),
{
    match change.get(name) {
        Some(m) => m.get(key),
        None => None,
    }
}

/// Marker for values only known after apply.
pub open spec fn unknown_marker() -> Seq<char> {
    "(known after apply)"@
}

/// Marker for a sensitive value.
pub open spec fn sensitive_marker() -> Seq<char> {
    "(sensitive)"@
}

/// An attribute's after-value as compared across plans: the unknown
/// marker when `after_unknown` marks it, else the raw `after` value.
pub open spec fn comparable_after(change: JsonV, key: Seq<char>) -> Option<JsonV> {
    if truthy(field(change, "after_unknown"@, key)) {
        Some(JsonV::Str(unknown_marker()))
    } else {
        field(change, "after"@, key)
    }
}

/// An attribute is sensitive on a change when either mask marks it.
pub open spec fn attr_sensitive(change: JsonV, key: Seq<char>) -> bool {
    truthy(field(change, "after_sensitive"@, key)) || truthy(field(change, "before_sensitive"@, key))
}

/// The comparable after-value of an attribute.
pub fn comparable_after_of(change: &Json, key: &str) -> (r: Option<Json>)
    ensures
        match r {
            Some(v) => comparable_after(change@, key@) == Some(v@),
            None => comparable_after(change@, key@) is None,
        },
{
    if truthy_mask(field_of(change, "after_unknown", key)) {
        return Some(Json::Str("(known after apply)".to_owned()));
    }
    match field_of(change, "after", key) {
        Some(v) => Some(v.deep_clone()),
        None => None,
    }
}

/// Whether an attribute is sensitive on a change.
pub fn attr_is_sensitive(change: &Json, key: &str) -> (r: bool)
    ensures
        r == attr_sensitive(change@, key@),
{
    truthy_mask(field_of(change, "after_sensitive", key)) || truthy_mask(field_of(change, "before_sensitive", key))
}

/// `key` names a member of the object `change[name]`.
pub open spec fn has_member(change: JsonV, name: Seq<char>, key: Seq<char>) -> bool {
    match jget(change, name) {
        Some(JsonV::Object(m)) => member_get(m, key) is Some,
        _ => false,
    }
}

/// Adds the member names of `change[name]` (when it is an object) to a
/// sorted name set.
pub fn add_member_names(keys: &mut Vec<String>, change: &Json, name: &str)
    requires
        sorted_strs(strs_view(old(keys)@)),
    ensures
        sorted_strs(strs_view(final(keys)@)),
        forall|k: Seq<char>| strs_view(final(keys)@).contains(k) <==> (strs_view(old(keys)@).contains(k)
            || has_member(change@, name@, k)),
{
    let ghost start = strs_view(keys@);
    match change.get(name) {
        Some(obj) => match obj.as_object() {
            Some(members) => {
                proof {
                    lemma_members_view(members@);
                }
                assert(members_view(members@).take(0) =~= Seq::<(Seq<char>, JsonV)>::empty());
                let mut i: usize = 0;
                while i < members.len()
                    invariant
                        i <= members@.len(),
                        members_view(members@).len() == members@.len(),
                        forall|j: int| 0 <= j < members@.len() ==> #[trigger] members_view(members@)[j] == (members@[j].0@, members@[j].1@),
                        sorted_strs(strs_view(keys@)),
                        start == strs_view(old(keys)@),
                        jget(change@, name@) == Some(JsonV::Object(members_view(members@))),
                        forall|k: Seq<char>| strs_view(keys@).contains(k) <==> (start.contains(k)
                            || member_get(members_view(members@).take(i as int), k) is Some),
                    decreases members@.len() - i,
                {
                    let ghost mv = members_view(members@);
                    let ghost before = strs_view(keys@);
                    assert(forall|k: Seq<char>| before.contains(k) <==> (start.contains(k) || member_get(mv.take(i as int), k) is Some));
                    insert_sorted_str(keys, &members[i].0);
                    let ghost old_i = i as int;
                    i = i + 1;
                    proof {
                        assert(mv.take(i as int).drop_last() =~= mv.take(old_i));
                        assert(mv.take(i as int).last() == mv[old_i]);
                        assert(mv[old_i].0 == members@[old_i].0@);
                        assert forall|k: Seq<char>| strs_view(keys@).contains(k) <==> (start.contains(k)
                            || member_get(mv.take(i as int), k) is Some) by {
                            assert(strs_view(keys@).contains(k) <==> (before.contains(k) || k == members@[old_i].0@));
                            assert(before.contains(k) <==> (start.contains(k) || member_get(mv.take(old_i), k) is Some));
                        }
                    }
                }
                assert(members_view(members@).take(members@.len() as int) =~= members_view(members@));
                assert forall|k: Seq<char>| strs_view(keys@).contains(k) <==> (start.contains(k)
                    || has_member(change@, name@, k)) by {
                    assert(members_view(members@).take(i as int) =~= members_view(members@));
                    assert(strs_view(keys@).contains(k) <==> (start.contains(k)
                        || member_get(members_view(members@).take(i as int), k) is Some));
                    assert(has_member(change@, name@, k) == (member_get(members_view(members@), k) is Some));
                }
            },
            None => {
                assert forall|k: Seq<char>| !has_member(change@, name@, k) by {}
            },
        },
        None => {
            assert forall|k: Seq<char>| !has_member(change@, name@, k) by {}
        },
    }
}

/// The keys of an address-keyed change list.
pub open spec fn entry_keys(s: Seq<(String, &Json)>) -> Seq<Seq<char>> {
    s.map_values(|e: (String, &Json)| e.0@)
}

/// The value stored under `key` (the last such entry).
pub open spec fn entry_lookup(s: Seq<(String, &Json)>, key: Seq<char>) -> Option<JsonV>
    decreases s.len(),
{
    if s.len() == 0 {
        None
    } else if s.last().0@ == key {
        Some(s.last().1@)
    } else {
        entry_lookup(s.drop_last(), key)
    }
}

/// The `(address, change)` a resource-change entry contributes: its
/// change when that change is not a no-op and it has a string address.
pub open spec fn rc_entry(rc: JsonV) -> Option<(Seq<char>, JsonV)> {
    match jget(rc, "change"@) {
        Some(change) => if classify(change) == ActionKind::NoOp {
            None
        } else {
            match as_str_v(jget(rc, "address"@)) {
                Some(a) => Some((a, change)),
                None => None,
            }
        },
        None => None,
    }
}

/// The change recorded last for `addr` among resource-change entries.
pub open spec fn last_change(rcs: Seq<JsonV>, addr: Seq<char>) -> Option<JsonV>
    decreases rcs.len(),
{
    if rcs.len() == 0 {
        None
    } else {
        match rc_entry(rcs.last()) {
            Some(e) => if e.0 == addr {
                Some(e.1)
            } else {
                last_change(rcs.drop_last(), addr)
            },
            None => last_change(rcs.drop_last(), addr),
        }
    }
}

/// The resource-change entries of a plan.
pub open spec fn plan_rcs(plan: JsonV) -> Seq<JsonV> {
    match as_array_v(jget(plan, "resource_changes"@)) {
        Some(a) => a,
        None => Seq::empty(),
    }
}

/// The change a plan makes to the resource at `addr` (no-op changes
/// excluded; the last entry wins).
pub open spec fn change_at(plan: JsonV, addr: Seq<char>) -> Option<JsonV> {
    last_change(plan_rcs(plan), addr)
}

/// In a sorted key list, the entry at `i` is what a lookup of its key
/// finds.
pub proof fn lemma_entry_lookup_sorted(s: Seq<(String, &Json)>, i: int)
    requires
        sorted_strs(entry_keys(s)),
        0 <= i < s.len(),
    ensures
        entry_lookup(s, s[i].0@) == Some(s[i].1@),
    decreases s.len(),
{
    if i < s.len() - 1 {
        let t = s.drop_last();
        assert(entry_keys(t) =~= entry_keys(s).drop_last());
        assert(entry_keys(s)[i] == s[i].0@);
        assert(entry_keys(s)[s.len() - 1] == s.last().0@);
        lemma_str_lt_irreflexive(s[i].0@);
        assert(s.last().0@ != s[i].0@);
        lemma_entry_lookup_sorted(t, i);
    }
}

/// A key is in the list exactly when a lookup finds it.
pub proof fn lemma_entry_lookup_some(s: Seq<(String, &Json)>, key: Seq<char>)
    ensures
        entry_lookup(s, key) is Some <==> entry_keys(s).contains(key),
    decreases s.len(),
{
    if s.len() > 0 {
        let t = s.drop_last();
        lemma_entry_lookup_some(t, key);
        assert(entry_keys(s) =~= entry_keys(t).push(s.last().0@));
        assert(entry_keys(s)[s.len() - 1] == s.last().0@);
        if entry_keys(t).contains(key) {
            let k = choose|k: int| 0 <= k < entry_keys(t).len() && entry_keys(t)[k] == key;
            assert(entry_keys(s)[k] == key);
        }
        if entry_keys(s).contains(key) {
            let k = choose|k: int| 0 <= k < entry_keys(s).len() && entry_keys(s)[k] == key;
            if k < t.len() {
                assert(entry_keys(t)[k] == key);
            }
        }
    }
}

/// Finds the value stored under `key`.
pub fn entry_find<'a>(s: &Vec<(String, &'a Json)>, key: &String) -> (r: Option<&'a Json>)
    ensures
        opt_view(r) == entry_lookup(s@, key@),
{
    let mut i = s.len();
    assert(s@.take(i as int) =~= s@);
    while i > 0
        invariant
            i <= s@.len(),
            entry_lookup(s@, key@) == entry_lookup(s@.take(i as int), key@),
        decreases i,
    {
        assert(s@.take(i as int).drop_last() =~= s@.take(i - 1));
        if s[i - 1].0 == *key {
            return Some(s[i - 1].1);
        }
        i = i - 1;
    }
    None
}

/// Stores `value` under `key` in a sorted list, replacing any entry for
/// the key and keeping the list sorted.
pub fn entry_upsert<'a>(s: &mut Vec<(String, &'a Json)>, key: String, value: &'a Json)
    requires
        sorted_strs(entry_keys(old(s)@)),
    ensures
        sorted_strs(entry_keys(final(s)@)),
        forall|k: Seq<char>| entry_lookup(final(s)@, k) == (if k == key@ {
            Some(value@)
        } else {
            entry_lookup(old(s)@, k)
        }),
{
    let ghost old_s = s@;
    let ghost ok = entry_keys(old_s);
    let mut p: usize = 0;
    while p < s.len() && str_less(s[p].0.as_str(), key.as_str())
        invariant
            p <= s@.len(),
            s@ == old_s,
            ok == entry_keys(old_s),
            forall|k: int| 0 <= k < p ==> str_lt(#[trigger] ok[k], key@),
        decreases s@.len() - p,
    {
        assert(ok[p as int] == s@[p as int].0@);
        p = p + 1;
    }
    if p < s.len() && s[p].0 == key {
        let ghost pos = p as int;
        s.set(p, (key, value));
        proof {
            let ns = s@;
            assert(entry_keys(ns) =~= ok);
            assert forall|k: Seq<char>| entry_lookup(ns, k) == (if k == ok[pos] {
                Some(value@)
            } else {
                entry_lookup(old_s, k)
            }) by {
                lemma_entry_lookup_some(ns, k);
                lemma_entry_lookup_some(old_s, k);
                if k == ok[pos] {
                    lemma_entry_lookup_sorted(ns, pos);
                } else if entry_keys(old_s).contains(k) {
                    let j = choose|j: int| 0 <= j < ok.len() && ok[j] == k;
                    lemma_entry_lookup_sorted(ns, j);
                    lemma_entry_lookup_sorted(old_s, j);
                    assert(ns[j] == old_s[j]);
                }
            }
        }
        return;
    }
    let ghost pos = p as int;
    proof {
        if pos < ok.len() {
            assert(ok[pos] == old_s[pos].0@);
            lemma_str_lt_total(key@, ok[pos]);
        }
    }
    s.insert(p, (key, value));
    proof {
        let ns = s@;
        let nk = entry_keys(ns);
        assert(nk =~= ok.insert(pos, key@));
        assert forall|i: int, j: int| 0 <= i < j < nk.len() implies str_lt(#[trigger] nk[i], #[trigger] nk[j]) by {
            if j < pos {
            } else if j == pos {
            } else if i < pos {
                if j - 1 > pos {
                    lemma_str_lt_transitive(nk[i], ok[pos], ok[j - 1]);
                }
                lemma_str_lt_transitive(nk[i], key@, ok[pos]);
                if j - 1 == pos {
                } else {
                    lemma_str_lt_transitive(nk[i], ok[pos], nk[j]);
                }
            } else if i == pos {
                if j - 1 > pos {
                    lemma_str_lt_transitive(key@, ok[pos], ok[j - 1]);
                }
            } else {
            }
        }
        assert forall|k: Seq<char>| entry_lookup(ns, k) == (if k == key@ {
            Some(value@)
        } else {
            entry_lookup(old_s, k)
        }) by {
            lemma_entry_lookup_some(ns, k);
            lemma_entry_lookup_some(old_s, k);
            if k == key@ {
                lemma_entry_lookup_sorted(ns, pos);
            } else if ok.contains(k) {
                let j = choose|j: int| 0 <= j < ok.len() && ok[j] == k;
                lemma_entry_lookup_sorted(old_s, j);
                if j < pos {
                    assert(ns[j] == old_s[j]);
                    lemma_entry_lookup_sorted(ns, j);
                } else {
                    assert(ns[j + 1] == old_s[j]);
                    lemma_entry_lookup_sorted(ns, j + 1);
                }
            } else {
                if nk.contains(k) {
                    let j = choose|j: int| 0 <= j < nk.len() && nk[j] == k;
                    if j < pos {
                        assert(ok[j] == k);
                    } else if j > pos {
                        assert(ok[j - 1] == k);
                    }
                }
            }
        }
    }
}


/// Change counts from the plan record, used when the plan JSON itself is
/// forbidden.
#[derive(Debug, Clone)]
pub struct PlanRecordSummary {
    pub additions: i64,
    pub changes: i64,
    pub destructions: i64,
    /// Raw plan log text, when the log could be fetched.
    pub log: Option<String>,
}


/// An integer attribute of the plan record (`data.attributes.<name>`),
/// zero when absent or not an integer.
pub open spec fn record_count(doc: JsonV, name: Seq<char>) -> int {
    match as_i64_v(jpath(doc, seq!["data"@, "attributes"@, name])) {
        Some(n) => n,
        None => 0,
    }
}

fn count_of(doc: &Json, name: &str) -> (r: i64)
    ensures
        r == record_count(doc@, name@),
{
    let r = match path_get(doc, &["data", "attributes", name]) {
        Some(v) => match v.as_i64() {
            Some(n) => n,
            None => 0,
        },
        None => 0,
    };
    assert(keys_view(["data", "attributes", name]@) =~= seq!["data"@, "attributes"@, name@]);
    r
}

/// The summary a plan record gives: its addition, change and
/// destruction counts, with the log text when it could be fetched.
pub fn record_summary(doc: &Json, log: Option<String>) -> (r: PlanRecordSummary)
    ensures
        r.additions == record_count(doc@, "resource-additions"@),
        r.changes == record_count(doc@, "resource-changes"@),
        r.destructions == record_count(doc@, "resource-destructions"@),
        r.log == log,
{
    PlanRecordSummary {
        additions: count_of(doc, "resource-additions"),
        changes: count_of(doc, "resource-changes"),
        destructions: count_of(doc, "resource-destructions"),
        log,
    }
}

/// Where the plan record's log can be read (a pre-signed URL).
pub fn log_read_url(doc: &Json) -> (r: Option<String>)
    ensures
        sview(r) == as_str_v(jpath(doc@, seq!["data"@, "attributes"@, "log-read-url"@])),
{
    let r = path_str(doc, &["data", "attributes", "log-read-url"]);
    assert(keys_view(["data", "attributes", "log-read-url"]@) =~= seq!["data"@, "attributes"@, "log-read-url"@]);
    r
}

/// The path of a run's plan JSON.
pub fn plan_json_path(run_id: &str) -> (r: String)
    ensures
        r@ == "/api/v2/runs/"@ + run_id@ + "/plan/json-output"@,
{
    let mut s = "/api/v2/runs/".to_owned();
    push_str(&mut s, run_id);
    push_str(&mut s, "/plan/json-output");
    s
}

/// The path of a run's plan record.
pub fn plan_record_path(run_id: &str) -> (r: String)
    ensures
        r@ == "/api/v2/runs/"@ + run_id@ + "/plan"@,
{
    let mut s = "/api/v2/runs/".to_owned();
    push_str(&mut s, run_id);
    push_str(&mut s, "/plan");
    s
}

/// What to do with the answer to a plan-JSON request.
#[derive(Debug)]
pub enum PlanFetchStep {
    /// Follow the pre-signed URL at once, sending no Authorization header
    /// (the URL is itself the credential).
    FollowPresigned(String),
    /// The body is the plan JSON.
    ReadBody,
    /// Forbidden (write but not admin): fall back to the plan record.
    FetchSummary,
    /// Anything else: the generic status check decides the error.
    CheckStatus,
}

/// The message for a run without plan JSON.
pub open spec fn no_plan_message(run_id: Seq<char>) -> Seq<char> {
    "run "@ + run_id + " has no plan JSON (run or plan not found)"@
}

/// Decides a plan-JSON answer: 307 follows its `Location` (an error
/// without one), 200 carries the plan, 403 falls back to the summary,
/// 404 is not-found, anything else goes to the status check.
pub fn plan_fetch_step(status: u16, location: Option<String>, run_id: &str) -> (r: Result<PlanFetchStep, Error>)
    ensures
        status == 307 ==> match location {
            Some(l) => r matches Ok(PlanFetchStep::FollowPresigned(u)) && u@ == l@,
            None => r matches Err(Error::Other(m)) && m@ == "plan json-output 307 carried no Location header"@,
        },
        status == 200 ==> r matches Ok(PlanFetchStep::ReadBody),
        status == 403 ==> r matches Ok(PlanFetchStep::FetchSummary),
        status == 404 ==> (r matches Err(Error::NotFound(m)) && m@ == no_plan_message(run_id@)),
        status != 307 && status != 200 && status != 403 && status != 404 ==> r matches Ok(PlanFetchStep::CheckStatus),
{
    if status == 307 {
        match location {
            Some(l) => Ok(PlanFetchStep::FollowPresigned(l)),
            None => Err(Error::Other("plan json-output 307 carried no Location header".to_owned())),
        }
    } else if status == 200 {
        Ok(PlanFetchStep::ReadBody)
    } else if status == 403 {
        Ok(PlanFetchStep::FetchSummary)
    } else if status == 404 {
        let mut m = "run ".to_owned();
        push_str(&mut m, run_id);
        push_str(&mut m, " has no plan JSON (run or plan not found)");
        Err(Error::NotFound(m))
    } else {
        Ok(PlanFetchStep::CheckStatus)
    }
}

/// The error for a plan-JSON answer of another status: the status
/// check's error, or an unexpected-response error when it passes.
pub fn unexpected_plan_answer(status: u16, body: Option<&Json>) -> (r: Error)
    ensures
        crate::client::passes(status) ==> (r matches Error::Other(m) && m@ == "unexpected response fetching plan JSON"@),
        !crate::client::passes(status) ==> (r matches Error::Api { status: s, detail: d } && s == status && d@
            == crate::client::error_detail_text(status, opt_view(body))),
{
    match crate::client::status_outcome(status, body) {
        Ok(()) => Error::Other("unexpected response fetching plan JSON".to_owned()),
        Err(e) => e,
    }
}

} // verus!
