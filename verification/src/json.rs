//! The library's own JSON value: what plan documents and API responses
//! are decoded into before any logic reads them, its mathematical view,
//! and the parse and compact text that `serde_json` gives it.

use vstd::prelude::*;

verus! {

/// A decoded JSON value. Numbers keep the text of their decimal form;
/// objects keep their members in the order given.
#[derive(Debug)]
pub enum Json {
    Null,
    Bool(bool),
    Number(String),
    Str(String),
    Array(Vec<Json>),
    Object(Vec<(String, Json)>),
}

/// The mathematical view of a [`Json`] value.
pub enum JsonV {
    Null,
    Bool(bool),
    Number(Seq<char>),
    Str(Seq<char>),
    Array(Seq<JsonV>),
    Object(Seq<(Seq<char>, JsonV)>),
}

pub open spec fn json_view(j: Json) -> JsonV
    decreases j,
{
    match j {
        Json::Null => JsonV::Null,
        Json::Bool(b) => JsonV::Bool(b),
        Json::Number(n) => JsonV::Number(n@),
        Json::Str(s) => JsonV::Str(s@),
        Json::Array(items) => JsonV::Array(items_view(items@)),
        Json::Object(members) => JsonV::Object(members_view(members@)),
    }
}

pub open spec fn items_view(s: Seq<Json>) -> Seq<JsonV>
    decreases s,
{
    if s.len() == 0 {
        Seq::empty()
    } else {
        items_view(s.drop_last()).push(json_view(s.last()))
    }
}

pub open spec fn members_view(s: Seq<(String, Json)>) -> Seq<(Seq<char>, JsonV)>
    decreases s,
{
    if s.len() == 0 {
        Seq::empty()
    } else {
        members_view(s.drop_last()).push((s.last().0@, json_view(s.last().1)))
    }
}

impl View for Json {
    type V = JsonV;

    open spec fn view(&self) -> JsonV {
        json_view(*self)
    }
}


/// Length and element facts for the array view.
pub proof fn lemma_items_view(s: Seq<Json>)
    ensures
        items_view(s).len() == s.len(),
        forall|i: int| 0 <= i < s.len() ==> #[trigger] items_view(s)[i] == json_view(s[i]),
    decreases s.len(),
{
    if s.len() > 0 {
        lemma_items_view(s.drop_last());
    }
}

/// Length and element facts for the object view.
pub proof fn lemma_members_view(s: Seq<(String, Json)>)
    ensures
        members_view(s).len() == s.len(),
        forall|i: int|
            0 <= i < s.len() ==> #[trigger] members_view(s)[i] == (s[i].0@, json_view(s[i].1)),
    decreases s.len(),
{
    if s.len() > 0 {
        lemma_members_view(s.drop_last());
    }
}

/// The last member named `key`, as `serde_json` keeps the last of
/// duplicated keys.
pub open spec fn member_get(m: Seq<(Seq<char>, JsonV)>, key: Seq<char>) -> Option<JsonV>
    decreases m.len(),
{
    if m.len() == 0 {
        None
    } else if m.last().0 == key {
        Some(m.last().1)
    } else {
        member_get(m.drop_last(), key)
    }
}

/// `value[key]` for objects; `None` for every other value.
pub open spec fn jget(v: JsonV, key: Seq<char>) -> Option<JsonV> {
    match v {
        JsonV::Object(m) => member_get(m, key),
        _ => None,
    }
}

/// `jget` lifted over an optional value.
pub open spec fn oget(v: Option<JsonV>, key: Seq<char>) -> Option<JsonV> {
    match v {
        Some(x) => jget(x, key),
        None => None,
    }
}

/// The string content, when the value is a string.
pub open spec fn as_str_v(v: Option<JsonV>) -> Option<Seq<char>> {
    match v {
        Some(JsonV::Str(s)) => Some(s),
        _ => None,
    }
}

/// The boolean, when the value is a boolean.
pub open spec fn as_bool_v(v: Option<JsonV>) -> Option<bool> {
    match v {
        Some(JsonV::Bool(b)) => Some(b),
        _ => None,
    }
}

/// The elements, when the value is an array.
pub open spec fn as_array_v(v: Option<JsonV>) -> Option<Seq<JsonV>> {
    match v {
        Some(JsonV::Array(a)) => Some(a),
        _ => None,
    }
}

/// The members, when the value is an object.
pub open spec fn as_object_v(v: Option<JsonV>) -> Option<Seq<(Seq<char>, JsonV)>> {
    match v {
        Some(JsonV::Object(m)) => Some(m),
        _ => None,
    }
}

/// The view of an optional reference.
pub open spec fn opt_view(r: Option<&Json>) -> Option<JsonV> {
    match r {
        Some(j) => Some(j@),
        None => None,
    }
}

impl Json {
    /// `self[key]` for objects (the last member of that name); `None`
    /// for every other value.
    pub fn get<'a>(&'a self, key: &str) -> (r: Option<&'a Json>)
        ensures
            opt_view(r) == jget(self@, key@),
    {
        match self {
            Json::Object(members) => {
                proof {
                    lemma_members_view(members@);
                }
                assert(self@ == JsonV::Object(members_view(members@)));
                let k = key.to_owned();
                let mut i = members.len();
                assert(members_view(members@).take(i as int) =~= members_view(members@));
                while i > 0
                    invariant
                        i <= members@.len(),
                        k@ == key@,
                        self@ == JsonV::Object(members_view(members@)),
                        member_get(members_view(members@), key@) == member_get(
                            members_view(members@).take(i as int),
                            key@,
                        ),
                        members_view(members@).len() == members@.len(),
                        forall|j: int|
                            0 <= j < members@.len() ==> #[trigger] members_view(members@)[j] == (
                                members@[j].0@,
                                json_view(members@[j].1),
                            ),
                    decreases i,
                {
                    let ghost mv = members_view(members@);
                    assert(mv.take(i as int).drop_last() =~= mv.take(i - 1));
                    if members[i - 1].0 == k {
                        assert(mv.take(i as int).last() == mv[i - 1]);
                        assert(mv[i - 1] == (members@[i - 1].0@, json_view(members@[i - 1].1)));
                        return Some(&members[i - 1].1);
                    }
                    i = i - 1;
                }
                assert(members_view(members@).take(0) =~= Seq::<(Seq<char>, JsonV)>::empty());
                None
            },
            _ => None,
        }
    }

    /// The string content, when this is a string.
    pub fn as_str(&self) -> (r: Option<&String>)
        ensures
            match r {
                Some(s) => as_str_v(Some(self@)) == Some(s@),
                None => as_str_v(Some(self@)) is None,
            },
    {
        match self {
            Json::Str(s) => Some(s),
            _ => None,
        }
    }

    /// The boolean, when this is a boolean.
    pub fn as_bool(&self) -> (r: Option<bool>)
        ensures
            r == as_bool_v(Some(self@)),
    {
        match self {
            Json::Bool(b) => Some(*b),
            _ => None,
        }
    }

    /// The elements, when this is an array.
    pub fn as_array(&self) -> (r: Option<&Vec<Json>>)
        ensures
            match r {
                Some(a) => as_array_v(Some(self@)) == Some(items_view(a@)),
                None => as_array_v(Some(self@)) is None,
            },
    {
        match self {
            Json::Array(a) => Some(a),
            _ => None,
        }
    }

    /// The members, when this is an object.
    pub fn as_object(&self) -> (r: Option<&Vec<(String, Json)>>)
        ensures
            match r {
                Some(m) => as_object_v(Some(self@)) == Some(members_view(m@)),
                None => as_object_v(Some(self@)) is None,
            },
    {
        match self {
            Json::Object(m) => Some(m),
            _ => None,
        }
    }

    /// True for `null`.
    pub fn is_null(&self) -> (r: bool)
        ensures
            r == (self@ is Null),
    {
        match self {
            Json::Null => true,
            _ => false,
        }
    }
}


/// Arrays whose elements have pointwise equal views have equal views.
pub proof fn lemma_items_view_ext(a: Seq<Json>, b: Seq<Json>)
    requires
        a.len() == b.len(),
        forall|i: int| 0 <= i < a.len() ==> json_view(#[trigger] a[i]) == json_view(b[i]),
    ensures
        items_view(a) == items_view(b),
{
    lemma_items_view(a);
    lemma_items_view(b);
    assert(items_view(a) =~= items_view(b));
}

/// Member lists with pointwise equal views have equal views.
pub proof fn lemma_members_view_ext(a: Seq<(String, Json)>, b: Seq<(String, Json)>)
    requires
        a.len() == b.len(),
        forall|i: int|
            0 <= i < a.len() ==> (#[trigger] a[i]).0@ == b[i].0@ && json_view(a[i].1) == json_view(
                b[i].1,
            ),
    ensures
        members_view(a) == members_view(b),
{
    lemma_members_view(a);
    lemma_members_view(b);
    assert(members_view(a) =~= members_view(b));
}

impl Json {
    /// A copy of this value.
    pub fn deep_clone(&self) -> (r: Json)
        ensures
            r@ == self@,
        decreases self,
    {
        match self {
            Json::Null => Json::Null,
            Json::Bool(b) => Json::Bool(*b),
            Json::Number(n) => Json::Number(n.clone()),
            Json::Str(s) => Json::Str(s.clone()),
            Json::Array(items) => {
                let mut out: Vec<Json> = Vec::new();
                let mut i: usize = 0;
                while i < items.len()
                    invariant
                        i <= items@.len(),
                        out@.len() == i,
                        *self == Json::Array(*items),
                        forall|j: int| 0 <= j < i ==> json_view(#[trigger] out@[j]) == json_view(items@[j]),
                    decreases items@.len() - i,
                {
                    assert(decreases_to!(*self => items@[i as int])) by {
                        assert(decreases_to!(*self => (*self)->Array_0));
                    }
                    let c = items[i].deep_clone();
                    out.push(c);
                    i = i + 1;
                }
                proof {
                    lemma_items_view_ext(out@, items@);
                }
                Json::Array(out)
            },
            Json::Object(members) => {
                let mut out: Vec<(String, Json)> = Vec::new();
                let mut i: usize = 0;
                while i < members.len()
                    invariant
                        i <= members@.len(),
                        out@.len() == i,
                        *self == Json::Object(*members),
                        forall|j: int|
                            0 <= j < i ==> (#[trigger] out@[j]).0@ == members@[j].0@ && json_view(out@[j].1)
                                == json_view(members@[j].1),
                    decreases members@.len() - i,
                {
                    assert(decreases_to!(*self => members@[i as int].1)) by {
                        assert(decreases_to!(*self => (*self)->Object_0));
                    }
                    let c = members[i].1.deep_clone();
                    out.push((members[i].0.clone(), c));
                    i = i + 1;
                }
                proof {
                    lemma_members_view_ext(out@, members@);
                }
                Json::Object(out)
            },
        }
    }

    /// Structural equality of the two values' views.
    pub fn equals(&self, other: &Json) -> (r: bool)
        ensures
            r == (self@ == other@),
        decreases self,
    {
        match (self, other) {
            (Json::Null, Json::Null) => true,
            (Json::Bool(a), Json::Bool(b)) => *a == *b,
            (Json::Number(a), Json::Number(b)) => *a == *b,
            (Json::Str(a), Json::Str(b)) => *a == *b,
            (Json::Array(a), Json::Array(b)) => {
                proof {
                    lemma_items_view(a@);
                    lemma_items_view(b@);
                }
                if a.len() != b.len() {
                    return false;
                }
                let mut i: usize = 0;
                while i < a.len()
                    invariant
                        i <= a@.len(),
                        a@.len() == b@.len(),
                        forall|j: int| 0 <= j < i ==> json_view(#[trigger] a@[j]) == json_view(b@[j]),
                        self@ == JsonV::Array(items_view(a@)),
                        *self == Json::Array(*a),
                        other@ == JsonV::Array(items_view(b@)),
                        forall|j: int| 0 <= j < a@.len() ==> #[trigger] items_view(a@)[j] == json_view(a@[j]),
                        forall|j: int| 0 <= j < b@.len() ==> #[trigger] items_view(b@)[j] == json_view(b@[j]),
                    decreases a@.len() - i,
                {
                    assert(decreases_to!(*self => a@[i as int]));
                    if !a[i].equals(&b[i]) {
                        assert(items_view(a@)[i as int] != items_view(b@)[i as int]);
                        return false;
                    }
                    i = i + 1;
                }
                proof {
                    lemma_items_view_ext(a@, b@);
                }
                true
            },
            (Json::Object(a), Json::Object(b)) => {
                proof {
                    lemma_members_view(a@);
                    lemma_members_view(b@);
                }
                if a.len() != b.len() {
                    return false;
                }
                let mut i: usize = 0;
                while i < a.len()
                    invariant
                        i <= a@.len(),
                        a@.len() == b@.len(),
                        forall|j: int|
                            0 <= j < i ==> (#[trigger] a@[j]).0@ == b@[j].0@ && json_view(a@[j].1)
                                == json_view(b@[j].1),
                        self@ == JsonV::Object(members_view(a@)),
                        *self == Json::Object(*a),
                        other@ == JsonV::Object(members_view(b@)),
                        forall|j: int|
                            0 <= j < a@.len() ==> #[trigger] members_view(a@)[j] == (
                                a@[j].0@,
                                json_view(a@[j].1),
                            ),
                        forall|j: int|
                            0 <= j < b@.len() ==> #[trigger] members_view(b@)[j] == (
                                b@[j].0@,
                                json_view(b@[j].1),
                            ),
                    decreases a@.len() - i,
                {
                    assert(decreases_to!(*self => a@[i as int].1));
                    if a[i].0 != b[i].0 {
                        assert(members_view(a@)[i as int] != members_view(b@)[i as int]);
                        return false;
                    }
                    if !a[i].1.equals(&b[i].1) {
                        assert(members_view(a@)[i as int] != members_view(b@)[i as int]);
                        return false;
                    }
                    i = i + 1;
                }
                proof {
                    lemma_members_view_ext(a@, b@);
                }
                true
            },
            _ => false,
        }
    }
}


/// The compact text `serde_json` writes for a value (`Value::to_string`
/// of the value built from it).
pub uninterp spec fn json_compact_text(v: JsonV) -> Seq<char>;

/// Builds the `serde_json::Value` of a value: numbers parsed from their
/// text, members inserted into the map in order. Nothing is claimed of
/// the result; the text below names the outcome as a whole.
#[verifier::external_body]
fn value_of_json(v: &Json) -> (r: serde_json::Value) {
    match v {
        Json::Null => serde_json::Value::Null,
        Json::Bool(b) => serde_json::Value::Bool(*b),
        Json::Number(n) => n.parse::<serde_json::Number>().map(serde_json::Value::Number).unwrap_or(serde_json::Value::Null),
        Json::Str(s) => serde_json::Value::String(s.clone()),
        Json::Array(a) => serde_json::Value::Array(a.iter().map(value_of_json).collect()),
        Json::Object(m) => serde_json::Value::Object(m.iter().map(|(k, x)| (k.clone(), value_of_json(x))).collect()),
    }
}

/// The compact JSON text of a value, as `serde_json::Value::to_string`
/// writes it. The contract names the text only.
#[verifier::external_body]
pub(crate) fn json_to_text(v: &Json) -> (r: String)
    ensures
        r@ == json_compact_text(v@),
{
    value_of_json(v).to_string()
}

/// The views of a list of keys.
pub open spec fn keys_view(keys: Seq<&str>) -> Seq<Seq<char>> {
    keys.map_values(|k: &str| k@)
}

/// The value reached from `v` by looking up each key in turn through
/// nested objects.
pub open spec fn jpath(v: JsonV, keys: Seq<Seq<char>>) -> Option<JsonV>
    decreases keys.len(),
{
    if keys.len() == 0 {
        Some(v)
    } else {
        match jget(v, keys[0]) {
            Some(x) => jpath(x, keys.drop_first()),
            None => None,
        }
    }
}

/// `jpath` lifted over an optional value.
pub open spec fn opath(v: Option<JsonV>, keys: Seq<Seq<char>>) -> Option<JsonV> {
    match v {
        Some(x) => jpath(x, keys),
        None => None,
    }
}

/// Follows `keys` through nested objects.
pub fn path_get<'a>(v: &'a Json, keys: &[&str]) -> (r: Option<&'a Json>)
    ensures
        opt_view(r) == jpath(v@, keys_view(keys@)),
{
    let ghost ks = keys_view(keys@);
    let mut cur: &'a Json = v;
    let mut i: usize = 0;
    assert(ks.skip(0) =~= ks);
    while i < keys.len()
        invariant
            i <= keys@.len(),
            ks == keys_view(keys@),
            ks.len() == keys@.len(),
            jpath(v@, ks) == jpath(cur@, ks.skip(i as int)),
        decreases keys@.len() - i,
    {
        assert(ks.skip(i as int)[0] == keys@[i as int]@);
        assert(ks.skip(i as int).drop_first() =~= ks.skip(i + 1));
        match cur.get(keys[i]) {
            Some(x) => {
                cur = x;
            },
            None => {
                return None;
            },
        }
        i = i + 1;
    }
    assert(ks.skip(ks.len() as int) =~= Seq::<Seq<char>>::empty());
    Some(cur)
}

/// The string at `keys`, copied.
pub fn path_str(v: &Json, keys: &[&str]) -> (r: Option<String>)
    ensures
        match r {
            Some(s) => as_str_v(jpath(v@, keys_view(keys@))) == Some(s@),
            None => as_str_v(jpath(v@, keys_view(keys@))) is None,
        },
{
    match path_get(v, keys) {
        Some(x) => match x.as_str() {
            Some(s) => Some(s.clone()),
            None => None,
        },
        None => None,
    }
}


/// Every character is an ASCII digit.
pub open spec fn all_digits(s: Seq<char>) -> bool {
    forall|i: int| 0 <= i < s.len() ==> '0' <= #[trigger] s[i] <= '9'
}

/// The value of a run of decimal digits.
pub open spec fn digits_value(s: Seq<char>) -> int
    decreases s.len(),
{
    if s.len() == 0 {
        0
    } else {
        digits_value(s.drop_last()) * 10 + (s.last() as int - '0' as int)
    }
}

/// The integer a number's text denotes: digits, or `-` then digits;
/// `None` for any other text (fractions, exponents).
pub open spec fn integer_value(t: Seq<char>) -> Option<int> {
    if t.len() > 0 && all_digits(t) {
        Some(digits_value(t))
    } else if t.len() > 1 && t[0] == '-' && all_digits(t.drop_first()) {
        Some(-digits_value(t.drop_first()))
    } else {
        None
    }
}

/// The value as a `u64`, when it is written as plain digits and in
/// range.
pub open spec fn as_u64_v(v: Option<JsonV>) -> Option<int> {
    match v {
        Some(JsonV::Number(t)) => if t.len() > 0 && all_digits(t) && digits_value(t) <= u64::MAX {
            Some(digits_value(t))
        } else {
            None
        },
        _ => None,
    }
}

/// The value as an `i64`, when it is an integer in range.
pub open spec fn as_i64_v(v: Option<JsonV>) -> Option<int> {
    match v {
        Some(JsonV::Number(t)) => match integer_value(t) {
            Some(n) => if i64::MIN <= n <= i64::MAX {
                Some(n)
            } else {
                None
            },
            None => None,
        },
        _ => None,
    }
}

/// A longer run of digits is worth at least as much as its prefix.
pub proof fn lemma_digits_value_prefix(s: Seq<char>, i: int)
    requires
        all_digits(s),
        0 <= i <= s.len(),
    ensures
        digits_value(s.take(i)) <= digits_value(s),
        0 <= digits_value(s.take(i)),
    decreases s.len() - i,
{
    if i < s.len() {
        lemma_digits_value_prefix(s, i + 1);
        assert(s.take(i + 1).drop_last() =~= s.take(i));
        lemma_digits_value_nonneg(s.take(i));
    } else {
        assert(s.take(i) =~= s);
        lemma_digits_value_nonneg(s);
    }
}

/// Digit values are never negative.
pub proof fn lemma_digits_value_nonneg(s: Seq<char>)
    requires
        all_digits(s),
    ensures
        0 <= digits_value(s),
    decreases s.len(),
{
    if s.len() > 0 {
        lemma_digits_value_nonneg(s.drop_last());
    }
}

/// The value of the digits of `s` from `from` on, when they are all
/// digits, there is at least one, and the value fits a `u64`.
fn parse_digits(s: &Vec<char>, from: usize) -> (r: Option<u64>)
    requires
        from <= s@.len(),
    ensures
        match r {
            Some(v) => s@.len() > from && all_digits(s@.skip(from as int)) && v == digits_value(s@.skip(from as int)),
            None => !(s@.len() > from && all_digits(s@.skip(from as int)) && digits_value(s@.skip(from as int)) <= u64::MAX),
        },
{
    let ghost t = s@.skip(from as int);
    if from >= s.len() {
        return None;
    }
    let mut acc: u64 = 0;
    let mut i: usize = from;
    assert(t.take(0) =~= Seq::<char>::empty());
    while i < s.len()
        invariant
            from <= i <= s@.len(),
            t == s@.skip(from as int),
            all_digits(t.take(i - from)),
            acc == digits_value(t.take(i - from)),
        decreases s@.len() - i,
    {
        let c = s[i];
        let ghost k = (i - from) as int;
        assert(t[k] == c);
        assert(t.take(k + 1).drop_last() =~= t.take(k));
        if c < '0' || c > '9' {
            assert(!all_digits(t));
            return None;
        }
        let d: u64 = if c == '0' { 0 } else if c == '1' { 1 } else if c == '2' { 2 } else if c == '3' { 3 }
            else if c == '4' { 4 } else if c == '5' { 5 } else if c == '6' { 6 } else if c == '7' { 7 }
            else if c == '8' { 8 } else { 9 };
        assert(d == c as int - '0' as int);
        match acc.checked_mul(10) {
            Some(m) => match m.checked_add(d) {
                Some(n) => {
                    acc = n;
                },
                None => {
                    proof {
                        assert(digits_value(t.take(k + 1)) > u64::MAX);
                        if all_digits(t) {
                            lemma_digits_value_prefix(t, k + 1);
                        }
                    }
                    return None;
                },
            },
            None => {
                proof {
                    lemma_digits_value_nonneg(t.take(k));
                    assert(all_digits(t.take(k + 1)));
                    assert(digits_value(t.take(k + 1)) >= digits_value(t.take(k)) * 10);
                    if all_digits(t) {
                        lemma_digits_value_prefix(t, k + 1);
                    }
                }
                return None;
            },
        }
        i = i + 1;
        assert(all_digits(t.take(i - from)));
    }
    assert(t.take((s@.len() - from) as int) =~= t);
    Some(acc)
}

impl Json {
    /// The value as a `u64`, when it is an integer in range.
    pub fn as_u64(&self) -> (r: Option<u64>)
        ensures
            match r {
                Some(v) => as_u64_v(Some(self@)) == Some(v as int),
                None => as_u64_v(Some(self@)) is None,
            },
    {
        match self {
            Json::Number(t) => {
                let cs = crate::text::chars_of(t.as_str());
                assert(cs@.skip(0) =~= cs@);
                let r = parse_digits(&cs, 0);
                r
            },
            _ => None,
        }
    }

    /// The value as an `i64`, when it is an integer in range.
    pub fn as_i64(&self) -> (r: Option<i64>)
        ensures
            match r {
                Some(v) => as_i64_v(Some(self@)) == Some(v as int),
                None => as_i64_v(Some(self@)) is None,
            },
    {
        match self {
            Json::Number(t) => {
                let cs = crate::text::chars_of(t.as_str());
                if cs.len() > 0 && cs[0] == '-' {
                    proof {
                        assert(!all_digits(t@));
                        assert(cs@.skip(1) =~= t@.drop_first());
                    }
                    match parse_digits(&cs, 1) {
                        Some(m) => if m <= 9223372036854775808u64 {
                            if m == 9223372036854775808u64 {
                                Some(i64::MIN)
                            } else {
                                Some(-(m as i64))
                            }
                        } else {
                            None
                        },
                        None => None,
                    }
                } else {
                    assert(cs@.skip(0) =~= cs@);
                    match parse_digits(&cs, 0) {
                        Some(m) => if m <= 9223372036854775807u64 {
                            Some(m as i64)
                        } else {
                            None
                        },
                        None => None,
                    }
                }
            },
            _ => None,
        }
    }
}


/// `serde_json::Value`, the value `serde_json` parses into.
#[verifier::external_type_specification]
#[verifier::external_body]
pub struct ExValue(serde_json::Value);

/// Copies a `serde_json::Value` into the library's own value: numbers by
/// their displayed text, object members in the map's order. Nothing is
/// claimed of the copy; the parse below names the result as a whole.
#[verifier::external_body]
fn json_of_value(v: &serde_json::Value) -> (r: Json) {
    match v {
        serde_json::Value::Null => Json::Null,
        serde_json::Value::Bool(b) => Json::Bool(*b),
        serde_json::Value::Number(n) => Json::Number(n.to_string()),
        serde_json::Value::String(s) => Json::Str(s.clone()),
        serde_json::Value::Array(a) => Json::Array(a.iter().map(json_of_value).collect()),
        serde_json::Value::Object(m) => Json::Object(m.iter().map(|(k, x)| (k.clone(), json_of_value(x))).collect()),
    }
}

/// What `serde_json::from_str::<serde_json::Value>` makes of a text, as
/// the library's value, or the text of its error.
pub uninterp spec fn json_parse_result(text: Seq<char>) -> Result<JsonV, Seq<char>>;

/// Parses a text with `serde_json::from_str::<serde_json::Value>` and
/// copies the value out. The contract names the outcome only.
#[verifier::external_body]
pub(crate) fn parse_json_text(text: &str) -> (r: Result<Json, String>)
    ensures
        match r {
            Ok(j) => json_parse_result(text@) == Ok::<JsonV, Seq<char>>(j@),
            Err(e) => json_parse_result(text@) == Err::<JsonV, Seq<char>>(e@),
        },
{
    match serde_json::from_str::<serde_json::Value>(text) {
        Ok(v) => Ok(json_of_value(&v)),
        Err(e) => Err(e.to_string()),
    }
}

} // verus!
