//! Text building blocks shared by the renderers: decimal formatting,
//! character pushes and byte-wise string ordering.

use vstd::prelude::*;

verus! {

/// The ASCII digit for `d` (`d < 10`).
pub open spec fn digit_char(d: nat) -> char {
    if d == 0 { '0' }
    else if d == 1 { '1' }
    else if d == 2 { '2' }
    else if d == 3 { '3' }
    else if d == 4 { '4' }
    else if d == 5 { '5' }
    else if d == 6 { '6' }
    else if d == 7 { '7' }
    else if d == 8 { '8' }
    else { '9' }
}

/// Decimal digits of a natural number, most significant first, no
/// leading zeros (`0` renders as `"0"`).
pub open spec fn dec_nat(n: nat) -> Seq<char>
    decreases n,
{
    if n < 10 {
        seq![digit_char(n)]
    } else {
        dec_nat(n / 10).push(digit_char(n % 10))
    }
}

/// Decimal rendering of an integer with a leading `-` when negative.
pub open spec fn dec_int(n: int) -> Seq<char> {
    if n < 0 {
        seq!['-'] + dec_nat((-n) as nat)
    } else {
        dec_nat(n as nat)
    }
}

/// Appends one character to a string.
#[verifier::external_body]
pub(crate) fn push_char(s: &mut String, c: char)
    ensures
        final(s)@ == old(s)@.push(c),
{
    s.push(c);
}

/// Appends a string slice.
pub fn push_str(s: &mut String, t: &str)
    ensures
        final(s)@ == old(s)@ + t@,
{
    s.append(t);
}

fn digit(d: u64) -> (c: char)
    requires
        d < 10,
    ensures
        c == digit_char(d as nat),
{
    if d == 0 { '0' }
    else if d == 1 { '1' }
    else if d == 2 { '2' }
    else if d == 3 { '3' }
    else if d == 4 { '4' }
    else if d == 5 { '5' }
    else if d == 6 { '6' }
    else if d == 7 { '7' }
    else if d == 8 { '8' }
    else { '9' }
}

/// Appends the decimal digits of `n`.
pub fn push_dec_u64(s: &mut String, n: u64)
    ensures
        final(s)@ == old(s)@ + dec_nat(n as nat),
    decreases n,
{
    if n >= 10 {
        push_dec_u64(s, n / 10);
    }
    let c = digit(n % 10);
    push_char(s, c);
    proof {
        if n >= 10 {
            assert(dec_nat(n as nat) == dec_nat((n / 10) as nat).push(digit_char((n % 10) as nat)));
        } else {
            assert(dec_nat(n as nat) == seq![digit_char(n as nat)]);
        }
    }
}

/// Appends the decimal rendering of `n`, with `-` for negatives.
pub fn push_dec_i64(s: &mut String, n: i64)
    ensures
        final(s)@ == old(s)@ + dec_int(n as int),
{
    if n < 0 {
        push_char(s, '-');
        let m: u64 = (-(n as i128)) as u64;
        push_dec_u64(s, m);
        assert(old(s)@ + dec_int(n as int) == old(s)@.push('-') + dec_nat(m as nat));
    } else {
        push_dec_u64(s, n as u64);
    }
}

/// The decimal rendering of `n`.
pub fn dec_string(n: u64) -> (r: String)
    ensures
        r@ == dec_nat(n as nat),
{
    let mut s = String::new();
    push_dec_u64(&mut s, n);
    assert(s@ == Seq::<char>::empty() + dec_nat(n as nat));
    s
}


/// The characters of a string slice.
pub fn chars_of(s: &str) -> (v: Vec<char>)
    ensures
        v@ == s@,
{
    let mut v: Vec<char> = Vec::new();
    for c in it: s.chars()
        invariant
            v@ == it.seq().take(it.index()),
            it.seq() == s@,
    {
        v.push(c);
        assert(it.seq().take(it.index() + 1) =~= v@);
    }
    assert(s@.take(s@.len() as int) =~= s@);
    v
}

/// A string holding exactly these characters.
pub fn string_of(v: &Vec<char>) -> (s: String)
    ensures
        s@ == v@,
{
    let mut s = String::new();
    let mut i: usize = 0;
    while i < v.len()
        invariant
            i <= v@.len(),
            s@ == v@.take(i as int),
        decreases v@.len() - i,
    {
        push_char(&mut s, v[i]);
        assert(v@.take(i + 1) =~= s@);
        i = i + 1;
    }
    assert(v@.take(v@.len() as int) =~= v@);
    s
}

/// `t` is a prefix of `s`.
pub open spec fn has_prefix(s: Seq<char>, t: Seq<char>) -> bool {
    t.len() <= s.len() && s.take(t.len() as int) == t
}

/// `t` is a suffix of `s`.
pub open spec fn has_suffix(s: Seq<char>, t: Seq<char>) -> bool {
    t.len() <= s.len() && s.skip(s.len() - t.len()) == t
}

/// Whether `s` starts with `t`.
pub fn starts_with(s: &str, t: &str) -> (r: bool)
    ensures
        r == has_prefix(s@, t@),
{
    let a = chars_of(s);
    let b = chars_of(t);
    if b.len() > a.len() {
        return false;
    }
    let mut i: usize = 0;
    while i < b.len()
        invariant
            a@ == s@,
            b@ == t@,
            b@.len() <= a@.len(),
            i <= b@.len(),
            forall|k: int| 0 <= k < i ==> a@[k] == b@[k],
        decreases b@.len() - i,
    {
        if a[i] != b[i] {
            assert(s@.take(t@.len() as int)[i as int] != t@[i as int]);
            return false;
        }
        i = i + 1;
    }
    assert(s@.take(t@.len() as int) =~= t@);
    true
}

/// Whether `s` ends with `t`.
pub fn ends_with(s: &str, t: &str) -> (r: bool)
    ensures
        r == has_suffix(s@, t@),
{
    let a = chars_of(s);
    let b = chars_of(t);
    if b.len() > a.len() {
        return false;
    }
    let off = a.len() - b.len();
    let mut i: usize = 0;
    while i < b.len()
        invariant
            a@ == s@,
            b@ == t@,
            b@.len() <= a@.len(),
            off + b@.len() == a@.len(),
            i <= b@.len(),
            forall|k: int| 0 <= k < i ==> a@[off + k] == b@[k],
        decreases b@.len() - i,
    {
        assert(off + i < a@.len());
        assert(a@.len() == a.len());
        if a[off + i] != b[i] {
            assert(s@.skip(off as int)[i as int] != t@[i as int]);
            return false;
        }
        i = i + 1;
    }
    assert(s@.skip(off as int) =~= t@);
    true
}

/// Characters with the Unicode `White_Space` property, the set
/// `char::is_whitespace` tests.
pub open spec fn is_ws(c: char) -> bool {
    let u = c as u32;
    (0x09 <= u <= 0x0d) || u == 0x20 || u == 0x85 || u == 0xa0 || u == 0x1680 || (0x2000 <= u
        <= 0x200a) || u == 0x2028 || u == 0x2029 || u == 0x202f || u == 0x205f || u == 0x3000
}

/// Whether `c` has the Unicode `White_Space` property.
pub fn is_ws_char(c: char) -> (r: bool)
    ensures
        r == is_ws(c),
{
    let u = c as u32;
    (0x09 <= u && u <= 0x0d) || u == 0x20 || u == 0x85 || u == 0xa0 || u == 0x1680 || (0x2000
        <= u && u <= 0x200a) || u == 0x2028 || u == 0x2029 || u == 0x202f || u == 0x205f || u
        == 0x3000
}

/// `s` without leading and trailing whitespace: the subrange from the
/// first to the last non-whitespace character.
#[verifier::opaque]
pub open spec fn trimmed(s: Seq<char>) -> Seq<char> {
    if forall|k: int| 0 <= k < s.len() ==> is_ws(#[trigger] s[k]) {
        Seq::empty()
    } else {
        let a = choose|a: int|
            0 <= a < s.len() && !is_ws(s[a]) && forall|k: int| 0 <= k < a ==> is_ws(#[trigger] s[k]);
        let b = choose|b: int|
            0 <= b < s.len() && !is_ws(s[b]) && forall|k: int| b < k < s.len() ==> is_ws(#[trigger] s[k]);
        s.subrange(a, b + 1)
    }
}

/// `s` without leading and trailing whitespace.
pub fn trim(s: &str) -> (r: String)
    ensures
        r@ == trimmed(s@),
{
    let v = chars_of(s);
    let n = v.len();
    let mut a: usize = 0;
    while a < n && is_ws_char(v[a])
        invariant
            v@ == s@,
            n == v@.len(),
            a <= n,
            forall|k: int| 0 <= k < a ==> is_ws(#[trigger] v@[k]),
        decreases n - a,
    {
        a = a + 1;
    }
    if a == n {
        proof {
            reveal(trimmed);
        }
        return String::new();
    }
    let mut b: usize = n - 1;
    while is_ws_char(v[b])
        invariant
            v@ == s@,
            n == v@.len(),
            a < n,
            !is_ws(v@[a as int]),
            a <= b < n,
            forall|k: int| b < k < n ==> is_ws(#[trigger] v@[k]),
        decreases b,
    {
        b = b - 1;
    }
    let mut out: Vec<char> = Vec::new();
    let mut i: usize = a;
    while i <= b
        invariant
            v@ == s@,
            a <= i <= b + 1,
            b < v@.len(),
            out@ == v@.subrange(a as int, i as int),
        decreases b + 1 - i,
    {
        assert(v@.len() == v.len());
        out.push(v[i]);
        assert(out@ =~= v@.subrange(a as int, i + 1));
        i = i + 1;
    }
    proof {
        reveal(trimmed);
        let sq = s@;
        assert(!(forall|k: int| 0 <= k < sq.len() ==> is_ws(#[trigger] sq[k]))) by {
            assert(!is_ws(sq[a as int]));
        }
        let ca = choose|x: int|
            0 <= x < sq.len() && !is_ws(sq[x]) && forall|k: int| 0 <= k < x ==> is_ws(#[trigger] sq[k]);
        let cb = choose|x: int|
            0 <= x < sq.len() && !is_ws(sq[x]) && forall|k: int| x < k < sq.len() ==> is_ws(#[trigger] sq[k]);
        assert(0 <= a < sq.len() && !is_ws(sq[a as int]) && forall|k: int| 0 <= k < a ==> is_ws(#[trigger] sq[k]));
        assert(0 <= b < sq.len() && !is_ws(sq[b as int]) && forall|k: int| b < k < sq.len() ==> is_ws(#[trigger] sq[k]));
        if ca < a { assert(is_ws(sq[ca])); }
        if ca > a { assert(is_ws(sq[a as int])); }
        if cb < b { assert(is_ws(sq[b as int])); }
        if cb > b { assert(is_ws(sq[cb])); }
    }
    string_of(&out)
}


/// The view of an optional string.
pub open spec fn sview(o: Option<String>) -> Option<Seq<char>> {
    match o {
        Some(s) => Some(s@),
        None => None,
    }
}

/// The string `s` without its first `n` characters.
pub fn skip_chars(s: &str, n: usize) -> (r: String)
    requires
        n <= s@.len(),
    ensures
        r@ == s@.skip(n as int),
{
    let v = chars_of(s);
    let mut out: Vec<char> = Vec::new();
    let mut i: usize = n;
    while i < v.len()
        invariant
            v@ == s@,
            n <= i <= v@.len(),
            out@ == v@.subrange(n as int, i as int),
        decreases v@.len() - i,
    {
        out.push(v[i]);
        assert(out@ =~= v@.subrange(n as int, i + 1));
        i = i + 1;
    }
    assert(out@ =~= s@.skip(n as int));
    string_of(&out)
}

/// The first `n` characters of `s` (all of them when shorter).
pub fn take_chars(s: &str, n: usize) -> (r: String)
    ensures
        r@ == (if n <= s@.len() { s@.take(n as int) } else { s@ }),
{
    let v = chars_of(s);
    let mut out: Vec<char> = Vec::new();
    let mut i: usize = 0;
    while i < v.len() && i < n
        invariant
            v@ == s@,
            i <= v@.len(),
            i <= n,
            out@ == v@.take(i as int),
        decreases v@.len() - i,
    {
        out.push(v[i]);
        assert(out@ =~= v@.take(i + 1));
        i = i + 1;
    }
    assert(n > s@.len() ==> out@ =~= s@);
    string_of(&out)
}


/// `t` occurs in `s` at position `i`.
pub open spec fn occurs_at(s: Seq<char>, t: Seq<char>, i: int) -> bool {
    0 <= i && i + t.len() <= s.len() && s.subrange(i, i + t.len()) == t
}

/// `t` occurs somewhere in `s`.
pub open spec fn has_infix(s: Seq<char>, t: Seq<char>) -> bool {
    exists|i: int| #[trigger] occurs_at(s, t, i)
}

/// Whether `t` occurs in `s`.
pub fn contains_text(s: &str, t: &str) -> (r: bool)
    ensures
        r == has_infix(s@, t@),
{
    let sv = chars_of(s);
    let tv = chars_of(t);
    if tv.len() > sv.len() {
        proof {
            assert forall|i: int| !#[trigger] occurs_at(s@, t@, i) by {}
        }
        return false;
    }
    let n = sv.len();
    let last = n - tv.len();
    let mut i: usize = 0;
    while i <= last
        invariant
            sv@ == s@,
            tv@ == t@,
            tv@.len() <= sv@.len(),
            n == sv@.len(),
            last == sv@.len() - tv@.len(),
            i <= last + 1,
            forall|j: int| 0 <= j < i ==> !#[trigger] occurs_at(s@, t@, j),
        decreases last + 1 - i,
    {
        let mut k: usize = 0;
        while k < tv.len() && sv[i + k] == tv[k]
            invariant
                sv@ == s@,
                tv@ == t@,
                i <= last,
                last == sv@.len() - tv@.len(),
                i + tv@.len() <= sv@.len(),
                n == sv@.len(),
                k <= tv@.len(),
                forall|m: int| 0 <= m < k ==> sv@[i + m] == tv@[m],
            decreases tv@.len() - k,
        {
            k = k + 1;
        }
        if k == tv.len() {
            assert(s@.subrange(i as int, i + t@.len()) =~= t@);
            assert(occurs_at(s@, t@, i as int));
            return true;
        }
        assert(!occurs_at(s@, t@, i as int)) by {
            if occurs_at(s@, t@, i as int) {
                assert(s@.subrange(i as int, i + t@.len())[k as int] == t@[k as int]);
            }
        }
        if i == last {
            proof {
                assert forall|j: int| !#[trigger] occurs_at(s@, t@, j) by {
                    if 0 <= j && j <= i {
                    }
                }
            }
            return false;
        }
        i = i + 1;
    }
    false
}

/// Strings joined with a separator.
pub open spec fn join_with(s: Seq<Seq<char>>, sep: Seq<char>) -> Seq<char>
    decreases s.len(),
{
    if s.len() == 0 {
        Seq::empty()
    } else if s.len() == 1 {
        s[0]
    } else {
        join_with(s.drop_last(), sep) + sep + s.last()
    }
}

/// Joins strings with a separator.
pub fn join_strings(items: &Vec<String>, sep: &str) -> (r: String)
    ensures
        r@ == join_with(items@.map_values(|x: String| x@), sep@),
{
    let ghost v = items@.map_values(|x: String| x@);
    let mut out = String::new();
    let mut i: usize = 0;
    assert(v.take(0) =~= Seq::<Seq<char>>::empty());
    while i < items.len()
        invariant
            i <= items@.len(),
            v == items@.map_values(|x: String| x@),
            v.len() == items@.len(),
            out@ == join_with(v.take(i as int), sep@),
        decreases items@.len() - i,
    {
        if i > 0 {
            push_str(&mut out, sep);
        }
        push_str(&mut out, items[i].as_str());
        proof {
            assert(v.take(i + 1).drop_last() =~= v.take(i as int));
            if i == 0 {
                assert(v.take(1) =~= seq![v[0]]);
            }
            assert(out@ =~= join_with(v.take(i + 1), sep@));
        }
        i = i + 1;
    }
    assert(v.take(v.len() as int) =~= v);
    out
}


/// A text occurring in `a` occurs in `a + b`.
pub proof fn lemma_infix_left(a: Seq<char>, b: Seq<char>, t: Seq<char>)
    requires
        has_infix(a, t),
    ensures
        has_infix(a + b, t),
{
    let i = choose|i: int| #[trigger] occurs_at(a, t, i);
    assert((a + b).subrange(i, i + t.len()) =~= a.subrange(i, i + t.len()));
    assert(occurs_at(a + b, t, i));
}

/// A text occurring in `b` occurs in `a + b`.
pub proof fn lemma_infix_right(a: Seq<char>, b: Seq<char>, t: Seq<char>)
    requires
        has_infix(b, t),
    ensures
        has_infix(a + b, t),
{
    let i = choose|i: int| #[trigger] occurs_at(b, t, i);
    assert((a + b).subrange(a.len() + i, a.len() + i + t.len()) =~= b.subrange(i, i + t.len()));
    assert(occurs_at(a + b, t, a.len() + i));
}

/// `t` occurs in `a + t`.
pub proof fn lemma_infix_last(a: Seq<char>, t: Seq<char>)
    ensures
        has_infix(a + t, t),
{
    assert((a + t).subrange(a.len() as int, (a.len() + t.len()) as int) =~= t);
    assert(occurs_at(a + t, t, a.len() as int));
}

} // verus!
