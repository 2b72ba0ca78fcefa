//! Plan-pair diff, keyed by resource address.
//!
//! Like `show`, this module is a redaction boundary: sensitive values are
//! compared here on the decoded plans and never stored in the report. A
//! sensitive attribute is either omitted (underlying values equal) or
//! listed as `(sensitive — differs)` with no values.

use vstd::prelude::*;
use crate::json::{Json, JsonV, opt_view, items_view, lemma_items_view, json_compact_text, json_to_text};
use crate::text::{push_str, push_dec_u64, dec_nat, has_infix, occurs_at, lemma_infix_left, lemma_infix_right, lemma_infix_last};
use crate::error::Error;
use crate::order::{str_lt, sorted_strs, strs_view, lemma_contains_push, lemma_take_next, lemma_sorted_append,
    lemma_sorted_unique};
use crate::plan::{ActionKind, classify, kind_name, comparable_after, comparable_after_of, attr_sensitive,
    attr_is_sensitive, has_member, add_member_names, change_kind, entry_keys, entry_lookup, entry_find,
    entry_upsert, last_change, change_at, plan_rcs, rc_entry, lemma_entry_lookup_sorted, lemma_entry_lookup_some};

verus! {

/// Marker for a sensitive attribute whose values differ.
pub const SENSITIVE_DIFFERS: &'static str = "(sensitive — differs)";

/// Marker for values only known after apply, reused for comparison.
pub const UNKNOWN: &'static str = "(known after apply)";

/// One attribute with differing after-values. For a sensitive attribute
/// `sensitive_differs` is true and both values are null: the values
/// never enter the report.
#[derive(Debug)]
pub struct AttributeDiff {
    pub name: String,
    pub a: Json,
    pub b: Json,
    pub sensitive_differs: bool,
}

/// The view of an [`AttributeDiff`].
pub struct AttributeDiffV {
    pub name: Seq<char>,
    pub a: JsonV,
    pub b: JsonV,
    pub sensitive_differs: bool,
}

impl View for AttributeDiff {
    type V = AttributeDiffV;

    open spec fn view(&self) -> AttributeDiffV {
        AttributeDiffV { name: self.name@, a: self.a@, b: self.b@, sensitive_differs: self.sensitive_differs }
    }
}

/// The views of a list of attribute diffs.
pub open spec fn attrs_view(s: Seq<AttributeDiff>) -> Seq<AttributeDiffV> {
    s.map_values(|d: AttributeDiff| d@)
}

/// The names of a list of attribute diffs.
pub open spec fn attr_names(s: Seq<AttributeDiffV>) -> Seq<Seq<char>> {
    s.map_values(|d: AttributeDiffV| d.name)
}

/// `key` is an attribute of either change: a member of `after` or
/// `after_unknown` on either side.
pub open spec fn attr_key(ca: JsonV, cb: JsonV, key: Seq<char>) -> bool {
    has_member(ca, "after"@, key) || has_member(ca, "after_unknown"@, key) || has_member(cb, "after"@, key)
        || has_member(cb, "after_unknown"@, key)
}

/// The comparable after-values of `key` differ between the two changes
/// (two unknowns compare equal).
pub open spec fn attr_differs(ca: JsonV, cb: JsonV, key: Seq<char>) -> bool {
    comparable_after(ca, key) != comparable_after(cb, key)
}

/// A present value, or null.
pub open spec fn or_null(v: Option<JsonV>) -> JsonV {
    match v {
        Some(x) => x,
        None => JsonV::Null,
    }
}

/// The report entry for a differing attribute: the marker with no
/// values when either side marks it sensitive, else both after-values.
pub open spec fn attr_diff_of(ca: JsonV, cb: JsonV, key: Seq<char>) -> AttributeDiffV {
    if attr_sensitive(ca, key) || attr_sensitive(cb, key) {
        AttributeDiffV { name: key, a: JsonV::Null, b: JsonV::Null, sensitive_differs: true }
    } else {
        AttributeDiffV {
            name: key,
            a: or_null(comparable_after(ca, key)),
            b: or_null(comparable_after(cb, key)),
            sensitive_differs: false,
        }
    }
}

/// `s` is the attribute diff of two changes: one entry per attribute
/// whose comparable after-values differ, in name order, each as
/// [`attr_diff_of`] gives it.
pub open spec fn is_attr_diff(ca: JsonV, cb: JsonV, s: Seq<AttributeDiffV>) -> bool {
    &&& sorted_strs(attr_names(s))
    &&& forall|k: Seq<char>| attr_names(s).contains(k) <==> (attr_key(ca, cb, k) && attr_differs(ca, cb, k))
    &&& forall|i: int| 0 <= i < s.len() ==> #[trigger] s[i] == attr_diff_of(ca, cb, s[i].name)
}

/// `names` holds exactly the keys of `keys` whose values differ.
pub open spec fn names_cover(names: Seq<Seq<char>>, keys: Seq<Seq<char>>, ca: JsonV, cb: JsonV) -> bool {
    forall|k: Seq<char>| #[trigger] names.contains(k) <==> (keys.contains(k) && attr_differs(ca, cb, k))
}

/// The view of an optional owned value.
pub open spec fn opt_json_view(v: Option<Json>) -> Option<JsonV> {
    match v {
        Some(x) => Some(x@),
        None => None,
    }
}

fn opt_json_equal(a: &Option<Json>, b: &Option<Json>) -> (r: bool)
    ensures
        r == (opt_json_view(*a) == opt_json_view(*b)),
{
    match (a, b) {
        (Some(x), Some(y)) => x.equals(y),
        (None, None) => true,
        _ => false,
    }
}

fn json_or_null(v: Option<Json>) -> (r: Json)
    ensures
        r@ == or_null(opt_json_view(v)),
{
    match v {
        Some(x) => x,
        None => Json::Null,
    }
}

/// The attributes whose after-values differ between two changes of the
/// same resource, in name order; sensitive ones carry the marker only.
pub fn diff_attributes(change_a: &Json, change_b: &Json) -> (r: Vec<AttributeDiff>)
    ensures
        is_attr_diff(change_a@, change_b@, attrs_view(r@)),
{
    let ghost ca = change_a@;
    let ghost cb = change_b@;
    let mut keys: Vec<String> = Vec::new();
    assert(sorted_strs(strs_view(keys@)));
    add_member_names(&mut keys, change_a, "after");
    add_member_names(&mut keys, change_a, "after_unknown");
    add_member_names(&mut keys, change_b, "after");
    add_member_names(&mut keys, change_b, "after_unknown");
    let ghost kv = strs_view(keys@);
    assert forall|k: Seq<char>| kv.contains(k) <==> attr_key(ca, cb, k) by {
        assert(!Seq::<Seq<char>>::empty().contains(k));
    }
    let mut out: Vec<AttributeDiff> = Vec::new();
    let mut i: usize = 0;
    while i < keys.len()
        invariant
            i <= keys@.len(),
            kv == strs_view(keys@),
            kv.len() == keys@.len(),
            sorted_strs(kv),
            ca == change_a@,
            cb == change_b@,
            forall|k: Seq<char>| kv.contains(k) <==> attr_key(ca, cb, k),
            sorted_strs(attr_names(attrs_view(out@))),
            forall|m: int, j: int|
                0 <= m < out@.len() && i <= j < kv.len() ==> str_lt(
                    #[trigger] attr_names(attrs_view(out@))[m],
                    #[trigger] kv[j],
                ),
            names_cover(attr_names(attrs_view(out@)), kv.take(i as int), ca, cb),
            forall|m: int|
                0 <= m < out@.len() ==> #[trigger] attrs_view(out@)[m] == attr_diff_of(
                    ca,
                    cb,
                    attrs_view(out@)[m].name,
                ),
        decreases keys@.len() - i,
    {
        let key = &keys[i];
        assert(key@ == kv[i as int]);
        let va = comparable_after_of(change_a, key.as_str());
        let vb = comparable_after_of(change_b, key.as_str());
        assert(opt_json_view(va) == comparable_after(ca, key@));
        assert(opt_json_view(vb) == comparable_after(cb, key@));
        let ghost before = attrs_view(out@);
        proof {
            lemma_take_next(kv, i as int);
        }
        if opt_json_equal(&va, &vb) {
            proof {
                assert forall|k: Seq<char>|
                    #[trigger] attr_names(before).contains(k) <==> (kv.take(i + 1).contains(k) && attr_differs(ca, cb, k)) by {
                    lemma_contains_push(kv.take(i as int), kv[i as int], k);
                    assert(!attr_differs(ca, cb, kv[i as int]));
                    assert(attr_names(before).contains(k) <==> (kv.take(i as int).contains(k) && attr_differs(ca, cb, k)));
                }
            }
        } else {
            let sensitive = attr_is_sensitive(change_a, key.as_str()) || attr_is_sensitive(change_b, key.as_str());
            let d = if sensitive {
                AttributeDiff { name: key.clone(), a: Json::Null, b: Json::Null, sensitive_differs: true }
            } else {
                AttributeDiff { name: key.clone(), a: json_or_null(va), b: json_or_null(vb), sensitive_differs: false }
            };
            assert(d@ == attr_diff_of(ca, cb, key@));
            out.push(d);
            proof {
                let now = attrs_view(out@);
                assert(now =~= before.push(d@));
                assert(attr_names(now) =~= attr_names(before).push(kv[i as int]));
                lemma_sorted_append(attr_names(before), kv, i as int);
                assert forall|k: Seq<char>|
                    #[trigger] attr_names(now).contains(k) <==> (kv.take(i + 1).contains(k) && attr_differs(ca, cb, k)) by {
                    lemma_contains_push(kv.take(i as int), kv[i as int], k);
                    lemma_contains_push(attr_names(before), kv[i as int], k);
                    assert(attr_differs(ca, cb, kv[i as int]));
                    assert(attr_names(before).contains(k) <==> (kv.take(i as int).contains(k) && attr_differs(ca, cb, k)));
                }
                assert forall|m: int| 0 <= m < now.len() implies #[trigger] now[m] == attr_diff_of(ca, cb, now[m].name) by {
                    if m < before.len() {
                        assert(now[m] == before[m]);
                    }
                }
            }
        }
        i = i + 1;
    }
    assert(kv.take(kv.len() as int) =~= kv);
    assert forall|k: Seq<char>| attr_names(attrs_view(out@)).contains(k) <==> (attr_key(change_a@, change_b@, k) && attr_differs(change_a@, change_b@, k)) by {
        assert(names_cover(attr_names(attrs_view(out@)), kv, ca, cb));
    }
    out
}


/// The non-no-op changes of a plan keyed by address, in address order
/// (a later entry for an address replaces an earlier one).
pub fn changes_by_address<'a>(plan: &'a Json) -> (r: Vec<(String, &'a Json)>)
    ensures
        sorted_strs(entry_keys(r@)),
        forall|k: Seq<char>| #[trigger] entry_lookup(r@, k) == change_at(plan@, k),
{
    let mut out: Vec<(String, &'a Json)> = Vec::new();
    match plan.get("resource_changes") {
        Some(rcs) => match rcs.as_array() {
            Some(items) => {
                proof {
                    lemma_items_view(items@);
                }
                let ghost iv = items_view(items@);
                assert(iv == plan_rcs(plan@));
                assert(iv.take(0) =~= Seq::<JsonV>::empty());
                let mut i: usize = 0;
                while i < items.len()
                    invariant
                        i <= items@.len(),
                        iv == items_view(items@),
                        iv == plan_rcs(plan@),
                        iv.len() == items@.len(),
                        forall|j: int| 0 <= j < items@.len() ==> #[trigger] iv[j] == items@[j]@,
                        sorted_strs(entry_keys(out@)),
                        forall|k: Seq<char>| #[trigger] entry_lookup(out@, k) == last_change(iv.take(i as int), k),
                    decreases items@.len() - i,
                {
                    let rc = &items[i];
                    let ghost before = out@;
                    proof {
                        assert(iv.take(i + 1).drop_last() =~= iv.take(i as int));
                        assert(iv.take(i + 1).last() == iv[i as int]);
                    }
                    match rc.get("change") {
                        Some(change) => match change_kind(change) {
                            ActionKind::NoOp => {},
                            _ => match rc.get("address") {
                                Some(a) => match a.as_str() {
                                    Some(addr) => {
                                        entry_upsert(&mut out, addr.clone(), change);
                                    },
                                    None => {},
                                },
                                None => {},
                            },
                        },
                        None => {},
                    }
                    proof {
                        assert forall|k: Seq<char>| #[trigger] entry_lookup(out@, k) == last_change(iv.take(i + 1), k) by {
                            assert(entry_lookup(before, k) == last_change(iv.take(i as int), k));
                        }
                    }
                    i = i + 1;
                }
                assert(iv.take(iv.len() as int) =~= iv);
            },
            None => {},
        },
        None => {},
    }
    proof {
        assert forall|k: Seq<char>| #[trigger] entry_lookup(out@, k) == change_at(plan@, k) by {
            if plan_rcs(plan@).len() == 0 {
                assert(entry_lookup(out@, k) is None);
            }
        }
    }
    out
}

/// Where a resource address falls when two plans are compared.
pub enum Category {
    /// Changed only by the first plan.
    OnlyA,
    /// Changed only by the second plan.
    OnlyB,
    /// Changed by both, with a different action or different attributes.
    Differing,
    /// Changed identically by both.
    Identical,
    /// Changed by neither.
    Unchanged,
}

/// Two changes of one resource differ: another action, or some
/// attribute whose comparable after-values differ.
pub open spec fn changes_differ(ca: JsonV, cb: JsonV) -> bool {
    classify(ca) != classify(cb) || exists|k: Seq<char>| #[trigger] attr_key(ca, cb, k) && attr_differs(ca, cb, k)
}

/// The category of an address from its change in each plan.
pub open spec fn category(a: Option<JsonV>, b: Option<JsonV>) -> Category {
    match (a, b) {
        (Some(_), None) => Category::OnlyA,
        (None, Some(_)) => Category::OnlyB,
        (Some(ca), Some(cb)) => if changes_differ(ca, cb) {
            Category::Differing
        } else {
            Category::Identical
        },
        (None, None) => Category::Unchanged,
    }
}

/// The category of `addr` when plan `pa` is compared with plan `pb`.
pub open spec fn diff_category(pa: JsonV, pb: JsonV, addr: Seq<char>) -> Category {
    category(change_at(pa, addr), change_at(pb, addr))
}

/// `names` lists, in address order, exactly the addresses of category `c`.
pub open spec fn lists_category(names: Seq<Seq<char>>, pa: JsonV, pb: JsonV, c: Category) -> bool {
    &&& sorted_strs(names)
    &&& forall|k: Seq<char>| #[trigger] names.contains(k) <==> diff_category(pa, pb, k) == c
}

/// A resource changed in one plan only.
#[derive(Debug)]
pub struct ResourceRef {
    pub address: String,
    pub action: String,
}

/// The view of a [`ResourceRef`].
pub struct ResourceRefV {
    pub address: Seq<char>,
    pub action: Seq<char>,
}

impl View for ResourceRef {
    type V = ResourceRefV;

    open spec fn view(&self) -> ResourceRefV {
        ResourceRefV { address: self.address@, action: self.action@ }
    }
}

pub open spec fn refs_view(s: Seq<ResourceRef>) -> Seq<ResourceRefV> {
    s.map_values(|r: ResourceRef| r@)
}

pub open spec fn ref_addrs(s: Seq<ResourceRefV>) -> Seq<Seq<char>> {
    s.map_values(|r: ResourceRefV| r.address)
}

/// The entry names the action of the plan's change at its address.
pub open spec fn ref_matches(plan: JsonV, r: ResourceRefV) -> bool {
    match change_at(plan, r.address) {
        Some(c) => r.action == kind_name(classify(c)),
        None => false,
    }
}

/// A resource changed in both plans, with differing changes.
#[derive(Debug)]
pub struct ResourceDiff {
    pub address: String,
    pub action_a: String,
    pub action_b: String,
    pub attributes: Vec<AttributeDiff>,
}

/// The view of a [`ResourceDiff`].
pub struct ResourceDiffV {
    pub address: Seq<char>,
    pub action_a: Seq<char>,
    pub action_b: Seq<char>,
    pub attributes: Seq<AttributeDiffV>,
}

impl View for ResourceDiff {
    type V = ResourceDiffV;

    open spec fn view(&self) -> ResourceDiffV {
        ResourceDiffV {
            address: self.address@,
            action_a: self.action_a@,
            action_b: self.action_b@,
            attributes: attrs_view(self.attributes@),
        }
    }
}

pub open spec fn diffs_view(s: Seq<ResourceDiff>) -> Seq<ResourceDiffV> {
    s.map_values(|d: ResourceDiff| d@)
}

pub open spec fn diff_addrs(s: Seq<ResourceDiffV>) -> Seq<Seq<char>> {
    s.map_values(|d: ResourceDiffV| d.address)
}

/// The entry carries both actions and the attribute diff of the two
/// changes at its address.
pub open spec fn diff_matches(pa: JsonV, pb: JsonV, d: ResourceDiffV) -> bool {
    match (change_at(pa, d.address), change_at(pb, d.address)) {
        (Some(ca), Some(cb)) => {
            &&& d.action_a == kind_name(classify(ca))
            &&& d.action_b == kind_name(classify(cb))
            &&& is_attr_diff(ca, cb, d.attributes)
        },
        _ => false,
    }
}

/// A lookup-level form of [`ref_matches`].
pub open spec fn entry_ref_ok(xs: Seq<(String, &Json)>, r: ResourceRefV) -> bool {
    match entry_lookup(xs, r.address) {
        Some(c) => r.action == kind_name(classify(c)),
        None => false,
    }
}

/// `names` holds exactly the keys of `keys` that `ys` lacks.
pub open spec fn missing_cover(names: Seq<Seq<char>>, keys: Seq<Seq<char>>, ys: Seq<(String, &Json)>) -> bool {
    forall|k: Seq<char>| #[trigger] names.contains(k) <==> (keys.contains(k) && entry_lookup(ys, k) is None)
}

/// The entries of `xs` whose address `ys` lacks, in address order.
fn refs_missing_from(xs: &Vec<(String, &Json)>, ys: &Vec<(String, &Json)>) -> (r: Vec<ResourceRef>)
    requires
        sorted_strs(entry_keys(xs@)),
    ensures
        sorted_strs(ref_addrs(refs_view(r@))),
        forall|k: Seq<char>|
            #[trigger] ref_addrs(refs_view(r@)).contains(k) <==> (entry_lookup(xs@, k) is Some && entry_lookup(
                ys@,
                k,
            ) is None),
        forall|m: int| 0 <= m < r@.len() ==> entry_ref_ok(xs@, #[trigger] refs_view(r@)[m]),
{
    let ghost xk = entry_keys(xs@);
    let mut out: Vec<ResourceRef> = Vec::new();
    let mut i: usize = 0;
    while i < xs.len()
        invariant
            i <= xs@.len(),
            xk == entry_keys(xs@),
            xk.len() == xs@.len(),
            sorted_strs(xk),
            sorted_strs(ref_addrs(refs_view(out@))),
            forall|m: int, j: int|
                0 <= m < out@.len() && i <= j < xk.len() ==> str_lt(
                    #[trigger] ref_addrs(refs_view(out@))[m],
                    #[trigger] xk[j],
                ),
            missing_cover(ref_addrs(refs_view(out@)), xk.take(i as int), ys@),
            forall|m: int| 0 <= m < out@.len() ==> entry_ref_ok(xs@, #[trigger] refs_view(out@)[m]),
        decreases xs@.len() - i,
    {
        let addr = &xs[i].0;
        let ghost before = refs_view(out@);
        proof {
            lemma_entry_lookup_sorted(xs@, i as int);
            lemma_take_next(xk, i as int);
            assert(addr@ == xk[i as int]);
        }
        match entry_find(ys, addr) {
            None => {
                let r = ResourceRef { address: addr.clone(), action: change_kind(xs[i].1).name() };
                out.push(r);
                proof {
                    let now = refs_view(out@);
                    assert(now =~= before.push(r@));
                    assert(ref_addrs(now) =~= ref_addrs(before).push(xk[i as int]));
                    lemma_sorted_append(ref_addrs(before), xk, i as int);
                    assert(missing_cover(ref_addrs(before), xk.take(i as int), ys@));
                    assert forall|k: Seq<char>| #[trigger] ref_addrs(now).contains(k) <==> (xk.take(i + 1).contains(k)
                        && entry_lookup(ys@, k) is None) by {
                        lemma_contains_push(xk.take(i as int), xk[i as int], k);
                        lemma_contains_push(ref_addrs(before), xk[i as int], k);
                    }
                    assert forall|m: int| 0 <= m < now.len() implies entry_ref_ok(xs@, #[trigger] now[m]) by {
                        if m < before.len() {
                            assert(now[m] == before[m]);
                        }
                    }
                }
            },
            Some(_) => {
                proof {
                    assert(missing_cover(ref_addrs(before), xk.take(i as int), ys@));
                    assert forall|k: Seq<char>| #[trigger] ref_addrs(before).contains(k) <==> (xk.take(i + 1).contains(k)
                        && entry_lookup(ys@, k) is None) by {
                        lemma_contains_push(xk.take(i as int), xk[i as int], k);
                    }
                }
            },
        }
        i = i + 1;
    }
    proof {
        assert(xk.take(xk.len() as int) =~= xk);
        assert forall|k: Seq<char>|
            #[trigger] ref_addrs(refs_view(out@)).contains(k) <==> (entry_lookup(xs@, k) is Some && entry_lookup(
                ys@,
                k,
            ) is None) by {
            lemma_entry_lookup_some(xs@, k);
            assert(missing_cover(ref_addrs(refs_view(out@)), xk, ys@));
        }
    }
    out
}


/// An attribute diff is empty exactly when no attribute differs.
pub proof fn lemma_attr_diff_empty(ca: JsonV, cb: JsonV, s: Seq<AttributeDiffV>)
    requires
        is_attr_diff(ca, cb, s),
    ensures
        s.len() == 0 <==> !(exists|k: Seq<char>| #[trigger] attr_key(ca, cb, k) && attr_differs(ca, cb, k)),
{
    if s.len() > 0 {
        let k = s[0].name;
        assert(attr_names(s)[0] == k);
        assert(attr_names(s).contains(k));
        assert(attr_key(ca, cb, k) && attr_differs(ca, cb, k));
    } else {
        assert forall|k: Seq<char>| !(#[trigger] attr_key(ca, cb, k) && attr_differs(ca, cb, k)) by {
            assert(!attr_names(s).contains(k));
        }
    }
}

/// A lookup-level form of [`diff_matches`].
pub open spec fn entry_diff_ok(xs: Seq<(String, &Json)>, ys: Seq<(String, &Json)>, d: ResourceDiffV) -> bool {
    match (entry_lookup(xs, d.address), entry_lookup(ys, d.address)) {
        (Some(ca), Some(cb)) => {
            &&& d.action_a == kind_name(classify(ca))
            &&& d.action_b == kind_name(classify(cb))
            &&& is_attr_diff(ca, cb, d.attributes)
        },
        _ => false,
    }
}

/// `names` holds exactly the keys of `keys` of category `c`.
pub open spec fn cat_cover(
    names: Seq<Seq<char>>,
    keys: Seq<Seq<char>>,
    xs: Seq<(String, &Json)>,
    ys: Seq<(String, &Json)>,
    c: Category,
) -> bool {
    forall|k: Seq<char>|
        #[trigger] names.contains(k) <==> (keys.contains(k) && category(entry_lookup(xs, k), entry_lookup(ys, k))
            == c)
}

/// The addresses present in both lists, split into those whose changes
/// differ (with their attribute diffs) and those changed identically.
fn compare_common(xs: &Vec<(String, &Json)>, ys: &Vec<(String, &Json)>) -> (r: (Vec<ResourceDiff>, Vec<String>))
    requires
        sorted_strs(entry_keys(xs@)),
    ensures
        sorted_strs(diff_addrs(diffs_view(r.0@))),
        forall|k: Seq<char>|
            #[trigger] diff_addrs(diffs_view(r.0@)).contains(k) <==> category(entry_lookup(xs@, k), entry_lookup(ys@, k))
                == Category::Differing,
        forall|m: int| 0 <= m < r.0@.len() ==> entry_diff_ok(xs@, ys@, #[trigger] diffs_view(r.0@)[m]),
        sorted_strs(strs_view(r.1@)),
        forall|k: Seq<char>|
            #[trigger] strs_view(r.1@).contains(k) <==> category(entry_lookup(xs@, k), entry_lookup(ys@, k))
                == Category::Identical,
{
    let ghost xk = entry_keys(xs@);
    let mut differing: Vec<ResourceDiff> = Vec::new();
    let mut identical: Vec<String> = Vec::new();
    let mut i: usize = 0;
    while i < xs.len()
        invariant
            i <= xs@.len(),
            xk == entry_keys(xs@),
            xk.len() == xs@.len(),
            sorted_strs(xk),
            sorted_strs(diff_addrs(diffs_view(differing@))),
            forall|m: int, j: int|
                0 <= m < differing@.len() && i <= j < xk.len() ==> str_lt(
                    #[trigger] diff_addrs(diffs_view(differing@))[m],
                    #[trigger] xk[j],
                ),
            cat_cover(diff_addrs(diffs_view(differing@)), xk.take(i as int), xs@, ys@, Category::Differing),
            forall|m: int| 0 <= m < differing@.len() ==> entry_diff_ok(xs@, ys@, #[trigger] diffs_view(differing@)[m]),
            sorted_strs(strs_view(identical@)),
            forall|m: int, j: int|
                0 <= m < identical@.len() && i <= j < xk.len() ==> str_lt(
                    #[trigger] strs_view(identical@)[m],
                    #[trigger] xk[j],
                ),
            cat_cover(strs_view(identical@), xk.take(i as int), xs@, ys@, Category::Identical),
        decreases xs@.len() - i,
    {
        let addr = &xs[i].0;
        let cx = xs[i].1;
        let ghost dbefore = diffs_view(differing@);
        let ghost ibefore = strs_view(identical@);
        proof {
            lemma_entry_lookup_sorted(xs@, i as int);
            lemma_take_next(xk, i as int);
            assert(addr@ == xk[i as int]);
            assert(cat_cover(diff_addrs(dbefore), xk.take(i as int), xs@, ys@, Category::Differing));
            assert(cat_cover(ibefore, xk.take(i as int), xs@, ys@, Category::Identical));
        }
        match entry_find(ys, addr) {
            None => {
                proof {
                    assert forall|k: Seq<char>| #[trigger] diff_addrs(dbefore).contains(k) <==> (xk.take(i + 1).contains(k)
                        && category(entry_lookup(xs@, k), entry_lookup(ys@, k)) == Category::Differing) by {
                        lemma_contains_push(xk.take(i as int), xk[i as int], k);
                    }
                    assert forall|k: Seq<char>| #[trigger] ibefore.contains(k) <==> (xk.take(i + 1).contains(k)
                        && category(entry_lookup(xs@, k), entry_lookup(ys@, k)) == Category::Identical) by {
                        lemma_contains_push(xk.take(i as int), xk[i as int], k);
                    }
                }
            },
            Some(cy) => {
                let attributes = diff_attributes(cx, cy);
                let ka = change_kind(cx);
                let kb = change_kind(cy);
                proof {
                    lemma_attr_diff_empty(cx@, cy@, attrs_view(attributes@));
                }
                if ka == kb && attributes.len() == 0 {
                    assert(!changes_differ(cx@, cy@));
                    identical.push(addr.clone());
                    proof {
                        let now = strs_view(identical@);
                        assert(now =~= ibefore.push(xk[i as int]));
                        lemma_sorted_append(ibefore, xk, i as int);
                        assert forall|k: Seq<char>| #[trigger] now.contains(k) <==> (xk.take(i + 1).contains(k)
                            && category(entry_lookup(xs@, k), entry_lookup(ys@, k)) == Category::Identical) by {
                            lemma_contains_push(xk.take(i as int), xk[i as int], k);
                            lemma_contains_push(ibefore, xk[i as int], k);
                        }
                        assert forall|k: Seq<char>| #[trigger] diff_addrs(dbefore).contains(k) <==> (xk.take(i + 1).contains(k)
                            && category(entry_lookup(xs@, k), entry_lookup(ys@, k)) == Category::Differing) by {
                            lemma_contains_push(xk.take(i as int), xk[i as int], k);
                        }
                    }
                } else {
                    assert(changes_differ(cx@, cy@));
                    let d = ResourceDiff { address: addr.clone(), action_a: ka.name(), action_b: kb.name(), attributes };
                    differing.push(d);
                    proof {
                        let now = diffs_view(differing@);
                        assert(now =~= dbefore.push(d@));
                        assert(diff_addrs(now) =~= diff_addrs(dbefore).push(xk[i as int]));
                        lemma_sorted_append(diff_addrs(dbefore), xk, i as int);
                        assert forall|k: Seq<char>| #[trigger] diff_addrs(now).contains(k) <==> (xk.take(i + 1).contains(k)
                            && category(entry_lookup(xs@, k), entry_lookup(ys@, k)) == Category::Differing) by {
                            lemma_contains_push(xk.take(i as int), xk[i as int], k);
                            lemma_contains_push(diff_addrs(dbefore), xk[i as int], k);
                        }
                        assert forall|k: Seq<char>| #[trigger] ibefore.contains(k) <==> (xk.take(i + 1).contains(k)
                            && category(entry_lookup(xs@, k), entry_lookup(ys@, k)) == Category::Identical) by {
                            lemma_contains_push(xk.take(i as int), xk[i as int], k);
                        }
                        assert forall|m: int| 0 <= m < now.len() implies entry_diff_ok(xs@, ys@, #[trigger] now[m]) by {
                            if m < dbefore.len() {
                                assert(now[m] == dbefore[m]);
                            }
                        }
                    }
                }
            },
        }
        i = i + 1;
    }
    proof {
        assert(xk.take(xk.len() as int) =~= xk);
        assert forall|k: Seq<char>|
            #[trigger] diff_addrs(diffs_view(differing@)).contains(k) <==> category(entry_lookup(xs@, k), entry_lookup(ys@, k))
                == Category::Differing by {
            lemma_entry_lookup_some(xs@, k);
            assert(cat_cover(diff_addrs(diffs_view(differing@)), xk, xs@, ys@, Category::Differing));
        }
        assert forall|k: Seq<char>|
            #[trigger] strs_view(identical@).contains(k) <==> category(entry_lookup(xs@, k), entry_lookup(ys@, k))
                == Category::Identical by {
            lemma_entry_lookup_some(xs@, k);
            assert(cat_cover(strs_view(identical@), xk, xs@, ys@, Category::Identical));
        }
    }
    (differing, identical)
}


/// The result of comparing two plans.
#[derive(Debug)]
pub struct DiffReport {
    pub run_a: String,
    pub run_b: String,
    /// Resources changed only in A (address, action), in address order.
    pub only_in_a: Vec<ResourceRef>,
    /// Resources changed only in B.
    pub only_in_b: Vec<ResourceRef>,
    /// Resources changed in both, with differing changes.
    pub differing: Vec<ResourceDiff>,
    /// How many resources both plans change identically.
    pub identical_count: usize,
    /// The identically changed addresses, kept only when asked for.
    pub identical: Option<Vec<String>>,
}

/// The view of a [`DiffReport`].
pub struct DiffReportV {
    pub run_a: Seq<char>,
    pub run_b: Seq<char>,
    pub only_in_a: Seq<ResourceRefV>,
    pub only_in_b: Seq<ResourceRefV>,
    pub differing: Seq<ResourceDiffV>,
    pub identical_count: nat,
    pub identical: Option<Seq<Seq<char>>>,
}

impl View for DiffReport {
    type V = DiffReportV;

    open spec fn view(&self) -> DiffReportV {
        DiffReportV {
            run_a: self.run_a@,
            run_b: self.run_b@,
            only_in_a: refs_view(self.only_in_a@),
            only_in_b: refs_view(self.only_in_b@),
            differing: diffs_view(self.differing@),
            identical_count: self.identical_count as nat,
            identical: match self.identical {
                Some(v) => Some(strs_view(v@)),
                None => None,
            },
        }
    }
}

/// `r` is the diff of plan `pa` (run `run_a`) against plan `pb` (run
/// `run_b`): each changed address lands in the list of its category,
/// in address order, with the actions and attribute diffs of its
/// changes; the identical ones are counted, and listed when `with_identical`.
pub open spec fn is_diff_report(
    r: DiffReportV,
    run_a: Seq<char>,
    run_b: Seq<char>,
    pa: JsonV,
    pb: JsonV,
    with_identical: bool,
) -> bool {
    &&& r.run_a == run_a
    &&& r.run_b == run_b
    &&& lists_category(ref_addrs(r.only_in_a), pa, pb, Category::OnlyA)
    &&& forall|i: int| 0 <= i < r.only_in_a.len() ==> ref_matches(pa, #[trigger] r.only_in_a[i])
    &&& lists_category(ref_addrs(r.only_in_b), pa, pb, Category::OnlyB)
    &&& forall|i: int| 0 <= i < r.only_in_b.len() ==> ref_matches(pb, #[trigger] r.only_in_b[i])
    &&& lists_category(diff_addrs(r.differing), pa, pb, Category::Differing)
    &&& forall|i: int| 0 <= i < r.differing.len() ==> diff_matches(pa, pb, #[trigger] r.differing[i])
    &&& exists|ids: Seq<Seq<char>>|
        #[trigger] lists_category(ids, pa, pb, Category::Identical) && r.identical_count == ids.len()
            && r.identical == (if with_identical {
            Some(ids)
        } else {
            None
        })
}

/// The report has something to show: a resource changed in one plan
/// only, or changed differently.
pub open spec fn report_has_differences(r: DiffReportV) -> bool {
    r.only_in_a.len() > 0 || r.only_in_b.len() > 0 || r.differing.len() > 0
}

/// Diffs two plans. Sensitive equality is decided here; sensitive
/// values never reach the returned report.
pub fn diff_plans(run_a: &str, run_b: &str, plan_a: &Json, plan_b: &Json, include_identical: bool) -> (r: DiffReport)
    ensures
        is_diff_report(r@, run_a@, run_b@, plan_a@, plan_b@, include_identical),
{
    let ghost pa = plan_a@;
    let ghost pb = plan_b@;
    let a_changes = changes_by_address(plan_a);
    let b_changes = changes_by_address(plan_b);
    let only_in_a = refs_missing_from(&a_changes, &b_changes);
    let only_in_b = refs_missing_from(&b_changes, &a_changes);
    let (differing, identical) = compare_common(&a_changes, &b_changes);
    let identical_count = identical.len();
    let ghost ids = strs_view(identical@);
    let report = DiffReport {
        run_a: run_a.to_owned(),
        run_b: run_b.to_owned(),
        only_in_a,
        only_in_b,
        differing,
        identical_count,
        identical: if include_identical {
            Some(identical)
        } else {
            None
        },
    };
    proof {
        let rv = report@;
        assert forall|k: Seq<char>| #[trigger] ref_addrs(rv.only_in_a).contains(k) <==> diff_category(pa, pb, k)
            == Category::OnlyA by {
            assert(entry_lookup(a_changes@, k) == change_at(pa, k));
            assert(entry_lookup(b_changes@, k) == change_at(pb, k));
        }
        assert forall|k: Seq<char>| #[trigger] ref_addrs(rv.only_in_b).contains(k) <==> diff_category(pa, pb, k)
            == Category::OnlyB by {
            assert(entry_lookup(a_changes@, k) == change_at(pa, k));
            assert(entry_lookup(b_changes@, k) == change_at(pb, k));
        }
        assert forall|k: Seq<char>| #[trigger] diff_addrs(rv.differing).contains(k) <==> diff_category(pa, pb, k)
            == Category::Differing by {
            assert(entry_lookup(a_changes@, k) == change_at(pa, k));
            assert(entry_lookup(b_changes@, k) == change_at(pb, k));
        }
        assert forall|k: Seq<char>| #[trigger] ids.contains(k) <==> diff_category(pa, pb, k) == Category::Identical by {
            assert(entry_lookup(a_changes@, k) == change_at(pa, k));
            assert(entry_lookup(b_changes@, k) == change_at(pb, k));
        }
        assert forall|i: int| 0 <= i < rv.only_in_a.len() implies ref_matches(pa, #[trigger] rv.only_in_a[i]) by {
            assert(entry_ref_ok(a_changes@, rv.only_in_a[i]));
            assert(entry_lookup(a_changes@, rv.only_in_a[i].address) == change_at(pa, rv.only_in_a[i].address));
        }
        assert forall|i: int| 0 <= i < rv.only_in_b.len() implies ref_matches(pb, #[trigger] rv.only_in_b[i]) by {
            assert(entry_ref_ok(b_changes@, rv.only_in_b[i]));
            assert(entry_lookup(b_changes@, rv.only_in_b[i].address) == change_at(pb, rv.only_in_b[i].address));
        }
        assert forall|i: int| 0 <= i < rv.differing.len() implies diff_matches(pa, pb, #[trigger] rv.differing[i]) by {
            let a = rv.differing[i].address;
            assert(entry_diff_ok(a_changes@, b_changes@, rv.differing[i]));
            assert(entry_lookup(a_changes@, a) == change_at(pa, a));
            assert(entry_lookup(b_changes@, a) == change_at(pb, a));
        }
        assert(lists_category(ids, pa, pb, Category::Identical));
    }
    report
}

impl DiffReport {
    /// Something differs: a resource changed in one plan only, or
    /// changed differently.
    pub fn has_differences(&self) -> (r: bool)
        ensures
            r == report_has_differences(self@),
    {
        self.only_in_a.len() > 0 || self.only_in_b.len() > 0 || self.differing.len() > 0
    }
}


/// A change never differs from itself.
pub proof fn lemma_change_same(c: JsonV)
    ensures
        !changes_differ(c, c),
{
    assert forall|k: Seq<char>| !(#[trigger] attr_key(c, c, k) && attr_differs(c, c, k)) by {}
}

/// Whether two changes differ does not depend on their order.
pub proof fn lemma_changes_differ_symmetric(ca: JsonV, cb: JsonV)
    ensures
        changes_differ(ca, cb) == changes_differ(cb, ca),
{
    if exists|k: Seq<char>| #[trigger] attr_key(ca, cb, k) && attr_differs(ca, cb, k) {
        let k = choose|k: Seq<char>| #[trigger] attr_key(ca, cb, k) && attr_differs(ca, cb, k);
        assert(attr_key(cb, ca, k) && attr_differs(cb, ca, k));
    }
    if exists|k: Seq<char>| #[trigger] attr_key(cb, ca, k) && attr_differs(cb, ca, k) {
        let k = choose|k: Seq<char>| #[trigger] attr_key(cb, ca, k) && attr_differs(cb, ca, k);
        assert(attr_key(ca, cb, k) && attr_differs(ca, cb, k));
    }
}

/// Swapping the plans swaps the one-sided categories and keeps the others.
pub open spec fn swapped(c: Category) -> Category {
    match c {
        Category::OnlyA => Category::OnlyB,
        Category::OnlyB => Category::OnlyA,
        other => other,
    }
}

/// Law: a plan diffed against itself shows no differences; every address
/// it changes counts as identical.
pub proof fn law_diff_self_has_no_differences(
    r: DiffReportV,
    run_a: Seq<char>,
    run_b: Seq<char>,
    plan: JsonV,
    with_identical: bool,
)
    requires
        is_diff_report(r, run_a, run_b, plan, plan, with_identical),
    ensures
        !report_has_differences(r),
        forall|k: Seq<char>| #[trigger] change_at(plan, k) is Some ==> diff_category(plan, plan, k) == Category::Identical,
{
    assert forall|k: Seq<char>| #[trigger] change_at(plan, k) is Some implies diff_category(plan, plan, k)
        == Category::Identical by {
        lemma_change_same(change_at(plan, k).unwrap());
    }
    if r.only_in_a.len() > 0 {
        assert(ref_addrs(r.only_in_a).contains(ref_addrs(r.only_in_a)[0]));
    }
    if r.only_in_b.len() > 0 {
        assert(ref_addrs(r.only_in_b).contains(ref_addrs(r.only_in_b)[0]));
    }
    if r.differing.len() > 0 {
        let k = diff_addrs(r.differing)[0];
        assert(diff_addrs(r.differing).contains(k));
        lemma_change_same(change_at(plan, k).unwrap());
    }
}

/// Law: diffing B against A mirrors diffing A against B: the one-sided
/// lists trade places, the differing addresses and the identical count
/// stay, and so does whether anything differs.
pub proof fn law_diff_symmetric(
    r: DiffReportV,
    s: DiffReportV,
    run_a: Seq<char>,
    run_b: Seq<char>,
    plan_a: JsonV,
    plan_b: JsonV,
    with_r: bool,
    with_s: bool,
)
    requires
        is_diff_report(r, run_a, run_b, plan_a, plan_b, with_r),
        is_diff_report(s, run_b, run_a, plan_b, plan_a, with_s),
    ensures
        ref_addrs(r.only_in_a) == ref_addrs(s.only_in_b),
        ref_addrs(r.only_in_b) == ref_addrs(s.only_in_a),
        diff_addrs(r.differing) == diff_addrs(s.differing),
        r.identical_count == s.identical_count,
        report_has_differences(r) == report_has_differences(s),
{
    assert forall|k: Seq<char>| #[trigger] diff_category(plan_b, plan_a, k) == swapped(diff_category(plan_a, plan_b, k)) by {
        match (change_at(plan_a, k), change_at(plan_b, k)) {
            (Some(ca), Some(cb)) => lemma_changes_differ_symmetric(ca, cb),
            _ => {},
        }
    }
    assert forall|k: Seq<char>| ref_addrs(r.only_in_a).contains(k) <==> ref_addrs(s.only_in_b).contains(k) by {
        assert(diff_category(plan_b, plan_a, k) == swapped(diff_category(plan_a, plan_b, k)));
    }
    lemma_sorted_unique(ref_addrs(r.only_in_a), ref_addrs(s.only_in_b));
    assert forall|k: Seq<char>| ref_addrs(r.only_in_b).contains(k) <==> ref_addrs(s.only_in_a).contains(k) by {
        assert(diff_category(plan_b, plan_a, k) == swapped(diff_category(plan_a, plan_b, k)));
    }
    lemma_sorted_unique(ref_addrs(r.only_in_b), ref_addrs(s.only_in_a));
    assert forall|k: Seq<char>| diff_addrs(r.differing).contains(k) <==> diff_addrs(s.differing).contains(k) by {
        assert(diff_category(plan_b, plan_a, k) == swapped(diff_category(plan_a, plan_b, k)));
    }
    lemma_sorted_unique(diff_addrs(r.differing), diff_addrs(s.differing));
    let ir = choose|ids: Seq<Seq<char>>|
        #[trigger] lists_category(ids, plan_a, plan_b, Category::Identical) && r.identical_count == ids.len()
            && r.identical == (if with_r {
            Some(ids)
        } else {
            None
        });
    let is = choose|ids: Seq<Seq<char>>|
        #[trigger] lists_category(ids, plan_b, plan_a, Category::Identical) && s.identical_count == ids.len()
            && s.identical == (if with_s {
            Some(ids)
        } else {
            None
        });
    assert forall|k: Seq<char>| ir.contains(k) <==> is.contains(k) by {
        assert(diff_category(plan_b, plan_a, k) == swapped(diff_category(plan_a, plan_b, k)));
    }
    lemma_sorted_unique(ir, is);
    assert(ref_addrs(r.only_in_a).len() == r.only_in_a.len());
    assert(ref_addrs(s.only_in_b).len() == s.only_in_b.len());
    assert(ref_addrs(r.only_in_b).len() == r.only_in_b.len());
    assert(ref_addrs(s.only_in_a).len() == s.only_in_a.len());
    assert(diff_addrs(r.differing).len() == r.differing.len());
    assert(diff_addrs(s.differing).len() == s.differing.len());
}

/// Law: diffing B against A mirrors each differing entry of diffing A
/// against B: the same address at the same position, the two actions
/// swapped, and the same attributes in the same order with their two
/// values swapped. With both identical lists asked for, they are equal.
pub proof fn law_diff_symmetric_entries(
    r: DiffReportV,
    s: DiffReportV,
    run_a: Seq<char>,
    run_b: Seq<char>,
    plan_a: JsonV,
    plan_b: JsonV,
    with_r: bool,
    with_s: bool,
    i: int,
    j: int,
)
    requires
        is_diff_report(r, run_a, run_b, plan_a, plan_b, with_r),
        is_diff_report(s, run_b, run_a, plan_b, plan_a, with_s),
        0 <= i < r.differing.len(),
        0 <= j < r.differing[i].attributes.len(),
    ensures
        i < s.differing.len(),
        s.differing[i].address == r.differing[i].address,
        s.differing[i].action_a == r.differing[i].action_b,
        s.differing[i].action_b == r.differing[i].action_a,
        attr_names(s.differing[i].attributes) == attr_names(r.differing[i].attributes),
        s.differing[i].attributes[j] == (AttributeDiffV {
            name: r.differing[i].attributes[j].name,
            a: r.differing[i].attributes[j].b,
            b: r.differing[i].attributes[j].a,
            sensitive_differs: r.differing[i].attributes[j].sensitive_differs,
        }),
        with_r && with_s ==> r.identical == s.identical,
{
    law_diff_symmetric(r, s, run_a, run_b, plan_a, plan_b, with_r, with_s);
    assert(diff_addrs(r.differing).len() == r.differing.len());
    assert(diff_addrs(s.differing).len() == s.differing.len());
    let rd = r.differing[i];
    assert(diff_addrs(r.differing)[i] == rd.address);
    let sd = s.differing[i];
    assert(diff_addrs(s.differing)[i] == sd.address);
    assert(diff_matches(plan_a, plan_b, rd));
    assert(diff_matches(plan_b, plan_a, sd));
    let ca = change_at(plan_a, rd.address).unwrap();
    let cb = change_at(plan_b, rd.address).unwrap();
    assert(is_attr_diff(ca, cb, rd.attributes));
    assert(is_attr_diff(cb, ca, sd.attributes));
    assert forall|k: Seq<char>| attr_names(rd.attributes).contains(k) <==> attr_names(sd.attributes).contains(k) by {
        assert(attr_key(ca, cb, k) == attr_key(cb, ca, k));
        assert(attr_differs(ca, cb, k) == attr_differs(cb, ca, k));
    }
    lemma_sorted_unique(attr_names(rd.attributes), attr_names(sd.attributes));
    assert(attr_names(rd.attributes).len() == rd.attributes.len());
    assert(attr_names(sd.attributes).len() == sd.attributes.len());
    assert(attr_names(rd.attributes)[j] == rd.attributes[j].name);
    assert(attr_names(sd.attributes)[j] == sd.attributes[j].name);
    assert(rd.attributes[j] == attr_diff_of(ca, cb, rd.attributes[j].name));
    assert(sd.attributes[j] == attr_diff_of(cb, ca, sd.attributes[j].name));
    if with_r && with_s {
        let ir = choose|ids: Seq<Seq<char>>|
            #[trigger] lists_category(ids, plan_a, plan_b, Category::Identical) && r.identical_count == ids.len()
                && r.identical == (if with_r {
                Some(ids)
            } else {
                None
            });
        let is = choose|ids: Seq<Seq<char>>|
            #[trigger] lists_category(ids, plan_b, plan_a, Category::Identical) && s.identical_count == ids.len()
                && s.identical == (if with_s {
                Some(ids)
            } else {
                None
            });
        assert forall|k: Seq<char>| #[trigger] diff_category(plan_b, plan_a, k) == swapped(diff_category(plan_a, plan_b, k)) by {
            match (change_at(plan_a, k), change_at(plan_b, k)) {
                (Some(ca2), Some(cb2)) => lemma_changes_differ_symmetric(ca2, cb2),
                _ => {},
            }
        }
        assert forall|k: Seq<char>| ir.contains(k) <==> is.contains(k) by {
            assert(diff_category(plan_b, plan_a, k) == swapped(diff_category(plan_a, plan_b, k)));
        }
        lemma_sorted_unique(ir, is);
    }
}

/// Law (the attribute rule of a diff): an attribute of a differing
/// resource is listed exactly when its comparable after-values differ,
/// so equal values, sensitive or not, are omitted; a listed plain
/// attribute carries both after-values; a listed sensitive one carries
/// the marker and no values.
pub proof fn law_diff_attribute_rule(
    r: DiffReportV,
    run_a: Seq<char>,
    run_b: Seq<char>,
    plan_a: JsonV,
    plan_b: JsonV,
    with_identical: bool,
    i: int,
    k: Seq<char>,
)
    requires
        is_diff_report(r, run_a, run_b, plan_a, plan_b, with_identical),
        0 <= i < r.differing.len(),
    ensures
        ({
            let d = r.differing[i];
            let ca = change_at(plan_a, d.address).unwrap();
            let cb = change_at(plan_b, d.address).unwrap();
            &&& attr_names(d.attributes).contains(k) <==> (attr_key(ca, cb, k) && attr_differs(ca, cb, k))
            &&& forall|j: int| 0 <= j < d.attributes.len() && #[trigger] d.attributes[j].name == k ==> {
                if attr_sensitive(ca, k) || attr_sensitive(cb, k) {
                    d.attributes[j].a == JsonV::Null && d.attributes[j].b == JsonV::Null
                        && d.attributes[j].sensitive_differs
                } else {
                    d.attributes[j].a == or_null(comparable_after(ca, k))
                        && d.attributes[j].b == or_null(comparable_after(cb, k))
                        && !d.attributes[j].sensitive_differs
                }
            }
        }),
{
    let d = r.differing[i];
    assert(diff_matches(plan_a, plan_b, d));
    let ca = change_at(plan_a, d.address).unwrap();
    let cb = change_at(plan_b, d.address).unwrap();
    assert(is_attr_diff(ca, cb, d.attributes));
}

/// Law (redaction): every attribute a diff lists really differs, and one
/// that either plan marks sensitive carries the marker and no values.
pub proof fn law_diff_redacts_sensitive(
    r: DiffReportV,
    run_a: Seq<char>,
    run_b: Seq<char>,
    plan_a: JsonV,
    plan_b: JsonV,
    with_identical: bool,
    i: int,
    j: int,
)
    requires
        is_diff_report(r, run_a, run_b, plan_a, plan_b, with_identical),
        0 <= i < r.differing.len(),
        0 <= j < r.differing[i].attributes.len(),
    ensures
        ({
            let d = r.differing[i];
            let at = d.attributes[j];
            let ca = change_at(plan_a, d.address).unwrap();
            let cb = change_at(plan_b, d.address).unwrap();
            &&& attr_differs(ca, cb, at.name)
            &&& (attr_sensitive(ca, at.name) || attr_sensitive(cb, at.name)) ==> (at.a == JsonV::Null && at.b
                == JsonV::Null && at.sensitive_differs)
            &&& !(attr_sensitive(ca, at.name) || attr_sensitive(cb, at.name)) ==> !at.sensitive_differs
        }),
{
    let d = r.differing[i];
    assert(diff_matches(plan_a, plan_b, d));
    let ca = change_at(plan_a, d.address).unwrap();
    let cb = change_at(plan_b, d.address).unwrap();
    assert(is_attr_diff(ca, cb, d.attributes));
    assert(attr_names(d.attributes)[j] == d.attributes[j].name);
    assert(attr_names(d.attributes).contains(d.attributes[j].name));
}


/// The one-line rendering of a value in a diff: the unknown marker
/// bare, anything else as compact JSON.
pub open spec fn compact_text(v: JsonV) -> Seq<char> {
    if v == JsonV::Str("(known after apply)"@) {
        "(known after apply)"@
    } else {
        json_compact_text(v)
    }
}

/// The lines of a one-sided list.
pub open spec fn ref_lines(s: Seq<ResourceRefV>) -> Seq<char>
    decreases s.len(),
{
    if s.len() == 0 {
        Seq::empty()
    } else {
        ref_lines(s.drop_last()) + "  "@ + s.last().address + " ("@ + s.last().action + ")\n"@
    }
}

/// The line of one differing attribute.
pub open spec fn attr_line(a: AttributeDiffV) -> Seq<char> {
    if a.sensitive_differs {
        "      "@ + a.name + ": "@ + "(sensitive — differs)"@ + "\n"@
    } else {
        "      "@ + a.name + ": "@ + compact_text(a.a) + " | "@ + compact_text(a.b) + "\n"@
    }
}

/// The lines of a resource's differing attributes.
pub open spec fn attr_lines(s: Seq<AttributeDiffV>) -> Seq<char>
    decreases s.len(),
{
    if s.len() == 0 {
        Seq::empty()
    } else {
        attr_lines(s.drop_last()) + attr_line(s.last())
    }
}

/// The block of one differing resource.
pub open spec fn diff_block(d: ResourceDiffV) -> Seq<char> {
    "  ~ "@ + d.address + (if d.action_a != d.action_b {
        "  (action: "@ + d.action_a + " -> "@ + d.action_b + ")"@
    } else {
        Seq::empty()
    }) + "\n"@ + attr_lines(d.attributes)
}

/// The blocks of the differing resources.
pub open spec fn diff_blocks(s: Seq<ResourceDiffV>) -> Seq<char>
    decreases s.len(),
{
    if s.len() == 0 {
        Seq::empty()
    } else {
        diff_blocks(s.drop_last()) + diff_block(s.last())
    }
}

/// The lines listing identical addresses.
pub open spec fn id_lines(s: Seq<Seq<char>>) -> Seq<char>
    decreases s.len(),
{
    if s.len() == 0 {
        Seq::empty()
    } else {
        id_lines(s.drop_last()) + "  "@ + s.last() + "\n"@
    }
}

/// The trailing section on identical resources.
pub open spec fn identical_section(r: DiffReportV) -> Seq<char> {
    if r.identical is Some && r.identical.unwrap().len() > 0 {
        "\nIdentical in both:\n"@ + id_lines(r.identical.unwrap())
    } else if r.identical_count > 0 {
        "\nIdentical in both: "@ + dec_nat(r.identical_count) + " resource(s) (use --all to list)\n"@
    } else {
        Seq::empty()
    }
}

/// The text rendering of a diff report.
pub open spec fn diff_text(r: DiffReportV) -> Seq<char> {
    "Diff "@ + r.run_a + " -> "@ + r.run_b + "\n"@ + diff_body(r)
}

/// What follows the header line.
pub open spec fn diff_body(r: DiffReportV) -> Seq<char> {
    if !report_has_differences(r) {
        "\nNo differences.\n"@ + if r.identical_count > 0 {
            dec_nat(r.identical_count) + " resource change(s) identical in both plans.\n"@
        } else {
            Seq::empty()
        }
    } else {
        only_section(r.run_a, r.only_in_a) + only_section(r.run_b, r.only_in_b) + (if r.differing.len() > 0 {
            "\nDiffering changes:\n"@ + diff_blocks(r.differing)
        } else {
            Seq::empty()
        }) + identical_section(r)
    }
}

/// The one-line rendering of a value: the unknown marker bare, anything
/// else as compact JSON.
pub fn compact(value: &Json) -> (r: String)
    ensures
        r@ == compact_text(value@),
{
    match value {
        Json::Str(s) => {
            let marker = UNKNOWN.to_owned();
            proof {
                reveal_strlit("(known after apply)");
            }
            if *s == marker {
                return s.clone();
            }
        },
        _ => {},
    }
    json_to_text(value)
}

fn push_ref_lines(out: &mut String, refs: &Vec<ResourceRef>)
    ensures
        final(out)@ == old(out)@ + ref_lines(refs_view(refs@)),
{
    let ghost start = out@;
    let ghost rv = refs_view(refs@);
    let mut i: usize = 0;
    assert(rv.take(0) =~= Seq::<ResourceRefV>::empty());
    while i < refs.len()
        invariant
            i <= refs@.len(),
            rv == refs_view(refs@),
            rv.len() == refs@.len(),
            out@ == start + ref_lines(rv.take(i as int)),
        decreases refs@.len() - i,
    {
        push_str(out, "  ");
        push_str(out, refs[i].address.as_str());
        push_str(out, " (");
        push_str(out, refs[i].action.as_str());
        push_str(out, ")\n");
        proof {
            assert(rv.take(i + 1).drop_last() =~= rv.take(i as int));
            assert(rv.take(i + 1).last() == refs@[i as int]@);
            assert(out@ =~= start + ref_lines(rv.take(i + 1)));
        }
        i = i + 1;
    }
    assert(rv.take(rv.len() as int) =~= rv);
}

fn push_attr_lines(out: &mut String, attrs: &Vec<AttributeDiff>)
    ensures
        final(out)@ == old(out)@ + attr_lines(attrs_view(attrs@)),
{
    let ghost start = out@;
    let ghost av = attrs_view(attrs@);
    let mut i: usize = 0;
    assert(av.take(0) =~= Seq::<AttributeDiffV>::empty());
    while i < attrs.len()
        invariant
            i <= attrs@.len(),
            av == attrs_view(attrs@),
            av.len() == attrs@.len(),
            out@ == start + attr_lines(av.take(i as int)),
        decreases attrs@.len() - i,
    {
        let ghost mid = out@;
        let a = &attrs[i];
        push_str(out, "      ");
        push_str(out, a.name.as_str());
        push_str(out, ": ");
        if a.sensitive_differs {
            push_str(out, SENSITIVE_DIFFERS);
        } else {
            let ta = compact(&a.a);
            let tb = compact(&a.b);
            push_str(out, ta.as_str());
            push_str(out, " | ");
            push_str(out, tb.as_str());
        }
        push_str(out, "\n");
        proof {
            assert(av.take(i + 1).drop_last() =~= av.take(i as int));
            assert(av.take(i + 1).last() == a@);
            assert(out@ =~= mid + attr_line(a@));
            assert(out@ =~= start + attr_lines(av.take(i + 1)));
        }
        i = i + 1;
    }
    assert(av.take(av.len() as int) =~= av);
}

fn push_diff_blocks(out: &mut String, diffs: &Vec<ResourceDiff>)
    ensures
        final(out)@ == old(out)@ + diff_blocks(diffs_view(diffs@)),
{
    let ghost start = out@;
    let ghost dv = diffs_view(diffs@);
    let mut i: usize = 0;
    assert(dv.take(0) =~= Seq::<ResourceDiffV>::empty());
    while i < diffs.len()
        invariant
            i <= diffs@.len(),
            dv == diffs_view(diffs@),
            dv.len() == diffs@.len(),
            out@ == start + diff_blocks(dv.take(i as int)),
        decreases diffs@.len() - i,
    {
        let ghost mid = out@;
        let d = &diffs[i];
        push_str(out, "  ~ ");
        push_str(out, d.address.as_str());
        let ghost after_addr = out@;
        if d.action_a != d.action_b {
            push_str(out, "  (action: ");
            push_str(out, d.action_a.as_str());
            push_str(out, " -> ");
            push_str(out, d.action_b.as_str());
            push_str(out, ")");
        }
        push_str(out, "\n");
        push_attr_lines(out, &d.attributes);
        proof {
            assert(dv.take(i + 1).drop_last() =~= dv.take(i as int));
            assert(dv.take(i + 1).last() == d@);
            assert(out@ =~= mid + diff_block(d@));
            assert(out@ =~= start + diff_blocks(dv.take(i + 1)));
        }
        i = i + 1;
    }
    assert(dv.take(dv.len() as int) =~= dv);
}

fn push_id_lines(out: &mut String, ids: &Vec<String>)
    ensures
        final(out)@ == old(out)@ + id_lines(strs_view(ids@)),
{
    let ghost start = out@;
    let ghost iv = strs_view(ids@);
    let mut i: usize = 0;
    assert(iv.take(0) =~= Seq::<Seq<char>>::empty());
    while i < ids.len()
        invariant
            i <= ids@.len(),
            iv == strs_view(ids@),
            iv.len() == ids@.len(),
            out@ == start + id_lines(iv.take(i as int)),
        decreases ids@.len() - i,
    {
        push_str(out, "  ");
        push_str(out, ids[i].as_str());
        push_str(out, "\n");
        proof {
            assert(iv.take(i + 1).drop_last() =~= iv.take(i as int));
            assert(out@ =~= start + id_lines(iv.take(i + 1)));
        }
        i = i + 1;
    }
    assert(iv.take(iv.len() as int) =~= iv);
}

/// The section listing resources changed in one run only.
pub open spec fn only_section(run: Seq<char>, refs: Seq<ResourceRefV>) -> Seq<char> {
    if refs.len() > 0 {
        "\nOnly in "@ + run + ":\n"@ + ref_lines(refs)
    } else {
        Seq::empty()
    }
}

fn push_only_section(out: &mut String, run: &String, refs: &Vec<ResourceRef>)
    ensures
        final(out)@ == old(out)@ + only_section(run@, refs_view(refs@)),
{
    if refs.len() > 0 {
        push_str(out, "\nOnly in ");
        push_str(out, run.as_str());
        push_str(out, ":\n");
        push_ref_lines(out, refs);
    }
    assert(final(out)@ =~= old(out)@ + only_section(run@, refs_view(refs@)));
}

fn push_sections(out: &mut String, report: &DiffReport)
    requires
        report_has_differences(report@),
    ensures
        final(out)@ == old(out)@ + diff_body(report@),
{
    let ghost rv = report@;
    let ghost s0 = out@;
    push_only_section(out, &report.run_a, &report.only_in_a);
    let ghost s1 = out@;
    push_only_section(out, &report.run_b, &report.only_in_b);
    let ghost s2 = out@;
    if report.differing.len() > 0 {
        push_str(out, "\nDiffering changes:\n");
        push_diff_blocks(out, &report.differing);
    }
    let ghost s3 = out@;
    assert(s3 =~= s2 + (if rv.differing.len() > 0 {
        "\nDiffering changes:\n"@ + diff_blocks(rv.differing)
    } else {
        Seq::empty()
    }));
    push_identical_section(out, report);
    assert(out@ =~= s0 + diff_body(rv));
}

fn push_identical_section(out: &mut String, report: &DiffReport)
    ensures
        final(out)@ == old(out)@ + identical_section(report@),
{
    let ghost s0 = out@;
    let listed = match &report.identical {
        Some(ids) => ids.len() > 0,
        None => false,
    };
    if listed {
        match &report.identical {
            Some(ids) => {
                push_str(out, "\nIdentical in both:\n");
                push_id_lines(out, ids);
            },
            None => {},
        }
    } else if report.identical_count > 0 {
        push_str(out, "\nIdentical in both: ");
        push_dec_u64(out, report.identical_count as u64);
        push_str(out, " resource(s) (use --all to list)\n");
    }
    assert(out@ =~= s0 + identical_section(report@));
}

/// Renders the diff report as text; its values are already redacted.
pub fn render_text(report: &DiffReport) -> (r: String)
    ensures
        r@ == diff_text(report@),
{
    let ghost rv = report@;
    let mut out = String::new();
    push_str(&mut out, "Diff ");
    push_str(&mut out, report.run_a.as_str());
    push_str(&mut out, " -> ");
    push_str(&mut out, report.run_b.as_str());
    push_str(&mut out, "\n");
    let ghost head = out@;
    assert(head =~= "Diff "@ + rv.run_a + " -> "@ + rv.run_b + "\n"@);
    if !report.has_differences() {
        push_str(&mut out, "\nNo differences.\n");
        if report.identical_count > 0 {
            push_dec_u64(&mut out, report.identical_count as u64);
            push_str(&mut out, " resource change(s) identical in both plans.\n");
        }
        assert(out@ =~= head + diff_body(rv));
    } else {
        push_sections(&mut out, report);
    }
    out
}


/// The request for a workspace's most recent applied run: the runs
/// listing filtered to applied, newest first, one item. Deliberately not
/// `latest-run` (deprecated) nor `current-run` (any status).
pub fn latest_applied_path(workspace_id: &str) -> (r: String)
    ensures
        r@ == "/api/v2/workspaces/"@ + workspace_id@ + "/runs?filter%5Bstatus%5D=applied&page%5Bsize%5D=1"@,
{
    let mut s = "/api/v2/workspaces/".to_owned();
    push_str(&mut s, workspace_id);
    push_str(&mut s, "/runs?filter%5Bstatus%5D=applied&page%5Bsize%5D=1");
    s
}

/// The value the pointer `/data/0` reaches: the first element of an
/// array `data`, or the member `"0"` of an object `data`.
pub open spec fn data_first(doc: JsonV) -> Option<JsonV> {
    match crate::json::jget(doc, "data"@) {
        Some(JsonV::Array(items)) => if items.len() > 0 {
            Some(items[0])
        } else {
            None
        },
        Some(JsonV::Object(m)) => crate::json::member_get(m, "0"@),
        _ => None,
    }
}

/// The id of the first run of a listing (the pointer `/data/0/id`), when
/// it has one.
pub open spec fn first_run_id(doc: JsonV) -> Option<Seq<char>> {
    match data_first(doc) {
        Some(v) => crate::json::as_str_v(crate::json::jget(v, "id"@)),
        None => None,
    }
}

/// The message when a workspace has no applied run.
pub open spec fn no_applied_run_message(workspace_id: Seq<char>) -> Seq<char> {
    "workspace "@ + workspace_id + " has no applied run to diff against"@
}

/// The run to diff against from the applied-runs listing: its first
/// run, or not-found when there is none.
pub fn latest_applied_from(doc: &Json, workspace_id: &str) -> (r: Result<String, Error>)
    ensures
        match first_run_id(doc@) {
            Some(id) => r matches Ok(s) && s@ == id,
            None => r matches Err(Error::NotFound(m)) && m@ == no_applied_run_message(workspace_id@),
        },
{
    let first: Option<&Json> = match doc.get("data") {
        Some(d) => match d.as_array() {
            Some(items) => {
                proof {
                    lemma_items_view(items@);
                }
                if items.len() > 0 {
                    Some(&items[0])
                } else {
                    None
                }
            },
            None => d.get("0"),
        },
        None => None,
    };
    assert(opt_view(first) == data_first(doc@));
    let found = match first {
        Some(v) => match v.get("id") {
            Some(i) => match i.as_str() {
                Some(s) => Some(s.clone()),
                None => None,
            },
            None => None,
        },
        None => None,
    };
    match found {
        Some(id) => Ok(id),
        None => {
            let mut m = "workspace ".to_owned();
            push_str(&mut m, workspace_id);
            push_str(&mut m, " has no applied run to diff against");
            Err(Error::NotFound(m))
        },
    }
}


/// Which run the first one is compared with.
#[derive(Debug)]
pub enum DiffTarget {
    /// A named run.
    Run(String),
    /// The workspace's most recent applied run.
    LatestApplied,
}

/// The run to compare with: `B`, or `--against latest-applied`; exactly
/// one of the two must be given.
pub fn diff_target(b: Option<&str>, against: Option<&str>) -> (r: Result<DiffTarget, Error>)
    ensures
        match (b, against) {
            (Some(x), None) => r matches Ok(DiffTarget::Run(t)) && t@ == x@,
            (None, Some(a)) => if a@ == "latest-applied"@ {
                r matches Ok(DiffTarget::LatestApplied)
            } else {
                r matches Err(Error::Usage(m)) && m@ == "unsupported --against "@ + a@ + "; only latest-applied is supported"@
            },
            (Some(_), Some(_)) => r matches Err(Error::Usage(m)) && m@ == "pass either B or --against, not both"@,
            (None, None) => r matches Err(Error::Usage(m)) && m@ == "runs diff needs B or --against latest-applied"@,
        },
{
    match (b, against) {
        (Some(x), None) => Ok(DiffTarget::Run(x.to_owned())),
        (None, Some(a)) => {
            if a.to_owned() == "latest-applied".to_owned() {
                Ok(DiffTarget::LatestApplied)
            } else {
                let mut m = "unsupported --against ".to_owned();
                push_str(&mut m, a);
                push_str(&mut m, "; only latest-applied is supported");
                Err(Error::Usage(m))
            }
        },
        (Some(_), Some(_)) => Err(Error::Usage("pass either B or --against, not both".to_owned())),
        (None, None) => Err(Error::Usage("runs diff needs B or --against latest-applied".to_owned())),
    }
}

/// The message refusing a diff across workspaces.
pub open spec fn cross_workspace_message(a: Seq<char>, b: Seq<char>) -> Seq<char> {
    "runs "@ + a + " and "@ + b + " belong to different workspaces; pass --allow-cross-workspace to diff them anyway"@
}

/// Runs of different workspaces are compared only when allowed.
pub fn check_same_workspace(run_a: &str, run_b: &str, ws_a: &Option<String>, ws_b: &Option<String>, allow: bool) -> (r: Result<(), Error>)
    ensures
        (allow || crate::text::sview(*ws_a) == crate::text::sview(*ws_b)) ==> r is Ok,
        !(allow || crate::text::sview(*ws_a) == crate::text::sview(*ws_b)) ==> (r matches Err(Error::Usage(m)) && m@
            == cross_workspace_message(run_a@, run_b@)),
{
    let same = match (ws_a, ws_b) {
        (Some(x), Some(y)) => *x == *y,
        (None, None) => true,
        _ => false,
    };
    if allow || same {
        Ok(())
    } else {
        let mut m = "runs ".to_owned();
        push_str(&mut m, run_a);
        push_str(&mut m, " and ");
        push_str(&mut m, run_b);
        push_str(&mut m, " belong to different workspaces; pass --allow-cross-workspace to diff them anyway");
        Err(Error::Usage(m))
    }
}

/// The error when a plan's JSON is forbidden: the summary is not enough
/// to diff.
pub fn plan_json_forbidden(run_id: &str) -> (r: Error)
    ensures
        r matches Error::Auth(m) && m@ == "cannot diff run "@ + run_id@
            + ": reading plan JSON requires workspace admin on the token"@,
{
    let mut m = "cannot diff run ".to_owned();
    push_str(&mut m, run_id);
    push_str(&mut m, ": reading plan JSON requires workspace admin on the token");
    Error::Auth(m)
}

/// The exit code of `runs diff`: 0 whether or not differences exist;
/// with `--exit-code`, 1 when they do.
pub fn diff_exit_code(report: &DiffReport, exit_code_flag: bool) -> (r: i32)
    ensures
        r == (if exit_code_flag && report_has_differences(report@) {
            1i32
        } else {
            0i32
        }),
{
    if exit_code_flag && report.has_differences() {
        1
    } else {
        0
    }
}


/// Law (diff text): the text starts with the `Diff <a> -> <b>` line; what
/// follows starts with `No differences.` exactly when nothing differs;
/// and the line of an attribute whose sensitive values differ is built
/// from its name and the marker alone.
pub proof fn law_diff_text_layout(r: DiffReportV, x: AttributeDiffV)
    ensures
        ("Diff "@ + r.run_a + " -> "@ + r.run_b + "\n"@).is_prefix_of(diff_text(r)),
        diff_text(r) == "Diff "@ + r.run_a + " -> "@ + r.run_b + "\n"@ + diff_body(r),
        ("\nNo differences.\n"@).is_prefix_of(diff_body(r)) <==> !report_has_differences(r),
        x.sensitive_differs ==> attr_line(x) == "      "@ + x.name + ": (sensitive — differs)\n"@,
{
    reveal_strlit("\nNo differences.\n");
    reveal_strlit("\nOnly in ");
    reveal_strlit("\nDiffering changes:\n");
    reveal_strlit("      ");
    reveal_strlit(": ");
    reveal_strlit("(sensitive — differs)");
    reveal_strlit("\n");
    reveal_strlit(": (sensitive — differs)\n");
    let head = "Diff "@ + r.run_a + " -> "@ + r.run_b + "\n"@;
    assert(diff_text(r).subrange(0, head.len() as int) =~= head);
    let nd = "\nNo differences.\n"@;
    if !report_has_differences(r) {
        assert(diff_body(r).subrange(0, nd.len() as int) =~= nd);
    } else {
        let b = diff_body(r);
        if r.only_in_a.len() > 0 {
            assert(b[1] == 'O');
        } else if r.only_in_b.len() > 0 {
            assert(b[1] == 'O');
        } else {
            assert(b[1] == 'D');
        }
        assert(nd[1] == 'N');
        if nd.is_prefix_of(b) {
            assert(b[1] == nd[1]);
        }
    }
    if x.sensitive_differs {
        assert(attr_line(x) =~= "      "@ + x.name + ": (sensitive — differs)\n"@);
    }
}


proof fn lemma_attr_lines_infix(s: Seq<AttributeDiffV>, j: int)
    requires
        0 <= j < s.len(),
    ensures
        has_infix(attr_lines(s), attr_line(s[j])),
    decreases s.len(),
{
    if j == s.len() - 1 {
        lemma_infix_last(attr_lines(s.drop_last()), attr_line(s.last()));
    } else {
        lemma_attr_lines_infix(s.drop_last(), j);
        assert(s.drop_last()[j] == s[j]);
        lemma_infix_left(attr_lines(s.drop_last()), attr_line(s.last()), attr_line(s[j]));
    }
}

proof fn lemma_diff_blocks_infix(ds: Seq<ResourceDiffV>, i: int, j: int)
    requires
        0 <= i < ds.len(),
        0 <= j < ds[i].attributes.len(),
    ensures
        has_infix(diff_blocks(ds), attr_line(ds[i].attributes[j])),
    decreases ds.len(),
{
    let t = attr_line(ds[i].attributes[j]);
    if i == ds.len() - 1 {
        let d = ds.last();
        lemma_attr_lines_infix(d.attributes, j);
        let head = "  ~ "@ + d.address + (if d.action_a != d.action_b {
            "  (action: "@ + d.action_a + " -> "@ + d.action_b + ")"@
        } else {
            Seq::empty()
        }) + "\n"@;
        assert(diff_block(d) == head + attr_lines(d.attributes));
        lemma_infix_right(head, attr_lines(d.attributes), t);
        lemma_infix_right(diff_blocks(ds.drop_last()), diff_block(d), t);
    } else {
        assert(ds.drop_last()[i] == ds[i]);
        lemma_diff_blocks_infix(ds.drop_last(), i, j);
        lemma_infix_left(diff_blocks(ds.drop_last()), diff_block(ds.last()), t);
    }
}

/// Law (diff text lines): every attribute of every differing resource has
/// its line in the diff text; for one whose sensitive values differ that
/// line is `      <name>: (sensitive — differs)`, built from the name and
/// the marker alone.
pub proof fn law_diff_text_has_each_attribute_line(r: DiffReportV, i: int, j: int)
    requires
        0 <= i < r.differing.len(),
        0 <= j < r.differing[i].attributes.len(),
    ensures
        has_infix(diff_text(r), attr_line(r.differing[i].attributes[j])),
        r.differing[i].attributes[j].sensitive_differs ==> has_infix(
            diff_text(r),
            "      "@ + r.differing[i].attributes[j].name + ": (sensitive — differs)\n"@,
        ),
        !r.differing[i].attributes[j].sensitive_differs ==> has_infix(
            diff_text(r),
            "      "@ + r.differing[i].attributes[j].name + ": "@ + compact_text(r.differing[i].attributes[j].a) + " | "@
                + compact_text(r.differing[i].attributes[j].b) + "\n"@,
        ),
{
    let t = attr_line(r.differing[i].attributes[j]);
    lemma_diff_blocks_infix(r.differing, i, j);
    let dc = "\nDiffering changes:\n"@ + diff_blocks(r.differing);
    lemma_infix_right("\nDiffering changes:\n"@, diff_blocks(r.differing), t);
    let pre = only_section(r.run_a, r.only_in_a) + only_section(r.run_b, r.only_in_b);
    lemma_infix_right(pre, dc, t);
    lemma_infix_left(pre + dc, identical_section(r), t);
    assert(diff_body(r) == pre + dc + identical_section(r));
    let head = "Diff "@ + r.run_a + " -> "@ + r.run_b + "\n"@;
    lemma_infix_right(head, diff_body(r), t);
    assert(diff_text(r) == head + diff_body(r));
    law_diff_text_layout(r, r.differing[i].attributes[j]);
    let x = r.differing[i].attributes[j];
    if !x.sensitive_differs {
        assert(t =~= "      "@ + x.name + ": "@ + compact_text(x.a) + " | "@ + compact_text(x.b) + "\n"@);
    }
}


/// The line of a resource listed on one side only.
pub open spec fn only_line(x: ResourceRefV) -> Seq<char> {
    "  "@ + x.address + " ("@ + x.action + ")\n"@
}

proof fn lemma_ref_lines_first(s: Seq<ResourceRefV>)
    requires
        s.len() > 0,
    ensures
        ref_lines(s) == only_line(s[0]) + ref_lines(s.drop_first()),
    decreases s.len(),
{
    if s.len() == 1 {
        assert(s.drop_last() =~= Seq::<ResourceRefV>::empty());
        assert(s.drop_first() =~= Seq::<ResourceRefV>::empty());
        assert(ref_lines(s.drop_last()) == Seq::<char>::empty());
        assert(s.last() == s[0]);
        assert(ref_lines(s) == ref_lines(s.drop_last()) + "  "@ + s.last().address + " ("@ + s.last().action + ")\n"@);
        assert(ref_lines(s) =~= only_line(s[0]));
        assert(only_line(s[0]) + ref_lines(s.drop_first()) =~= only_line(s[0]));
    } else {
        lemma_ref_lines_first(s.drop_last());
        assert(s.drop_last().drop_first() =~= s.drop_first().drop_last());
        assert(s.drop_first().last() == s.last());
        assert(s.drop_last()[0] == s[0]);
        assert(ref_lines(s) =~= only_line(s[0]) + ref_lines(s.drop_first()));
    }
}

proof fn lemma_ref_lines_pair(s: Seq<ResourceRefV>, k: int)
    requires
        0 <= k,
        k + 1 < s.len(),
    ensures
        has_infix(ref_lines(s), only_line(s[k]) + only_line(s[k + 1])),
    decreases s.len(),
{
    let t = only_line(s[k]) + only_line(s[k + 1]);
    if k + 1 == s.len() - 1 {
        let init = s.drop_last();
        assert(init.last() == s[k]);
        assert(ref_lines(init) == ref_lines(init.drop_last()) + only_line(init.last())) by {
            assert(ref_lines(init) =~= ref_lines(init.drop_last()) + only_line(init.last()));
        }
        assert(ref_lines(s) =~= ref_lines(init) + only_line(s.last()));
        assert(ref_lines(s) =~= ref_lines(init.drop_last()) + t);
        lemma_infix_last(ref_lines(init.drop_last()), t);
    } else {
        lemma_ref_lines_pair(s.drop_last(), k);
        assert(s.drop_last()[k] == s[k] && s.drop_last()[k + 1] == s[k + 1]);
        assert(ref_lines(s) =~= ref_lines(s.drop_last()) + only_line(s.last()));
        lemma_infix_left(ref_lines(s.drop_last()), only_line(s.last()), t);
    }
}

proof fn lemma_only_section_text(run: Seq<char>, s: Seq<ResourceRefV>, k: int)
    requires
        s.len() > 0,
        0 <= k,
        k + 1 < s.len(),
    ensures
        has_infix(only_section(run, s), "\nOnly in "@ + run + ":\n"@ + only_line(s[0])),
        has_infix(only_section(run, s), only_line(s[k]) + only_line(s[k + 1])),
{
    lemma_ref_lines_first(s);
    let head = "\nOnly in "@ + run + ":\n"@ + only_line(s[0]);
    assert(only_section(run, s) =~= head + ref_lines(s.drop_first()));
    assert(has_infix(head, head)) by {
        assert(head.subrange(0, head.len() as int) =~= head);
        assert(occurs_at(head, head, 0));
    }
    lemma_infix_left(head, ref_lines(s.drop_first()), head);
    lemma_ref_lines_pair(s, k);
    lemma_infix_right("\nOnly in "@ + run + ":\n"@, ref_lines(s), only_line(s[k]) + only_line(s[k + 1]));
}

proof fn lemma_only_section_head(run: Seq<char>, s: Seq<ResourceRefV>)
    requires
        s.len() > 0,
    ensures
        has_infix(only_section(run, s), "\nOnly in "@ + run + ":\n"@ + only_line(s[0])),
{
    lemma_ref_lines_first(s);
    let head = "\nOnly in "@ + run + ":\n"@ + only_line(s[0]);
    assert(only_section(run, s) =~= head + ref_lines(s.drop_first()));
    assert(has_infix(head, head)) by {
        assert(head.subrange(0, head.len() as int) =~= head);
        assert(occurs_at(head, head, 0));
    }
    lemma_infix_left(head, ref_lines(s.drop_first()), head);
}

/// Law (one-sided sections): a resource only in run B is listed under the
/// heading `Only in <run_b>:`, which is followed by the first such
/// resource's line `  <address> (<action>)`, the others following one
/// another in order; likewise under `Only in <run_a>:` for those only in
/// run A.
pub proof fn law_diff_only_sections(r: DiffReportV, k: int)
    requires
        0 <= k,
    ensures
        r.only_in_a.len() > 0 ==> has_infix(diff_text(r), "\nOnly in "@ + r.run_a + ":\n"@ + "  "@
            + r.only_in_a[0].address + " ("@ + r.only_in_a[0].action + ")\n"@),
        r.only_in_b.len() > 0 ==> has_infix(diff_text(r), "\nOnly in "@ + r.run_b + ":\n"@ + "  "@
            + r.only_in_b[0].address + " ("@ + r.only_in_b[0].action + ")\n"@),
        k + 1 < r.only_in_a.len() ==> has_infix(diff_text(r), only_line(r.only_in_a[k]) + only_line(r.only_in_a[k + 1])),
        k + 1 < r.only_in_b.len() ==> has_infix(diff_text(r), only_line(r.only_in_b[k]) + only_line(r.only_in_b[k + 1])),
{
    let head = "Diff "@ + r.run_a + " -> "@ + r.run_b + "\n"@;
    assert(diff_text(r) == head + diff_body(r));
    let sa = only_section(r.run_a, r.only_in_a);
    let sb = only_section(r.run_b, r.only_in_b);
    let rest = (if r.differing.len() > 0 {
        "\nDiffering changes:\n"@ + diff_blocks(r.differing)
    } else {
        Seq::empty()
    }) + identical_section(r);
    if report_has_differences(r) {
        assert(diff_body(r) =~= sa + sb + rest);
        if r.only_in_a.len() > 0 {
            let t = "\nOnly in "@ + r.run_a + ":\n"@ + only_line(r.only_in_a[0]);
            lemma_only_section_head(r.run_a, r.only_in_a);
            lemma_infix_left(sa, sb, t);
            lemma_infix_left(sa + sb, rest, t);
            lemma_infix_right(head, diff_body(r), t);
            assert(t =~= "\nOnly in "@ + r.run_a + ":\n"@ + "  "@ + r.only_in_a[0].address + " ("@
                + r.only_in_a[0].action + ")\n"@);
            if k + 1 < r.only_in_a.len() {
                let u = only_line(r.only_in_a[k]) + only_line(r.only_in_a[k + 1]);
                lemma_only_section_text(r.run_a, r.only_in_a, k);
                lemma_infix_left(sa, sb, u);
                lemma_infix_left(sa + sb, rest, u);
                lemma_infix_right(head, diff_body(r), u);
            }
        }
        if r.only_in_b.len() > 0 {
            let t = "\nOnly in "@ + r.run_b + ":\n"@ + only_line(r.only_in_b[0]);
            lemma_only_section_head(r.run_b, r.only_in_b);
            lemma_infix_right(sa, sb, t);
            lemma_infix_left(sa + sb, rest, t);
            lemma_infix_right(head, diff_body(r), t);
            assert(t =~= "\nOnly in "@ + r.run_b + ":\n"@ + "  "@ + r.only_in_b[0].address + " ("@
                + r.only_in_b[0].action + ")\n"@);
            if k + 1 < r.only_in_b.len() {
                let u = only_line(r.only_in_b[k]) + only_line(r.only_in_b[k + 1]);
                lemma_only_section_text(r.run_b, r.only_in_b, k);
                lemma_infix_right(sa, sb, u);
                lemma_infix_left(sa + sb, rest, u);
                lemma_infix_right(head, diff_body(r), u);
            }
        }
    }
}

} // verus!
