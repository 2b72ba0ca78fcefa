//! Byte-wise string ordering (the order `String`'s `Ord` uses) and the
//! sorted, duplicate-free string collections built on it.

use vstd::prelude::*;
use vstd::utf8::*;

verus! {

broadcast use vstd::utf8::encode_utf8_decode_utf8;

/// Lexicographic order on byte sequences; a proper prefix is smaller.
pub open spec fn bytes_lt(a: Seq<u8>, b: Seq<u8>) -> bool
    decreases a.len(),
{
    if a.len() == 0 {
        b.len() > 0
    } else if b.len() == 0 {
        false
    } else if a[0] != b[0] {
        a[0] < b[0]
    } else {
        bytes_lt(a.drop_first(), b.drop_first())
    }
}

/// String order: lexicographic on the UTF-8 encodings.
pub open spec fn str_lt(a: Seq<char>, b: Seq<char>) -> bool {
    bytes_lt(encode_utf8(a), encode_utf8(b))
}

pub proof fn lemma_bytes_lt_irreflexive(a: Seq<u8>)
    ensures
        !bytes_lt(a, a),
    decreases a.len(),
{
    if a.len() > 0 {
        lemma_bytes_lt_irreflexive(a.drop_first());
    }
}

pub proof fn lemma_bytes_lt_asymmetric(a: Seq<u8>, b: Seq<u8>)
    ensures
        !(bytes_lt(a, b) && bytes_lt(b, a)),
    decreases a.len(),
{
    if a.len() > 0 && b.len() > 0 && a[0] == b[0] {
        lemma_bytes_lt_asymmetric(a.drop_first(), b.drop_first());
    }
}

pub proof fn lemma_bytes_lt_total(a: Seq<u8>, b: Seq<u8>)
    ensures
        a == b || bytes_lt(a, b) || bytes_lt(b, a),
    decreases a.len(),
{
    if a.len() > 0 && b.len() > 0 && a[0] == b[0] {
        lemma_bytes_lt_total(a.drop_first(), b.drop_first());
        if a.drop_first() == b.drop_first() {
            assert(a =~= seq![a[0]] + a.drop_first());
            assert(b =~= seq![b[0]] + b.drop_first());
        }
    } else if a.len() == 0 && b.len() == 0 {
        assert(a =~= b);
    }
}

pub proof fn lemma_bytes_lt_transitive(a: Seq<u8>, b: Seq<u8>, c: Seq<u8>)
    requires
        bytes_lt(a, b),
        bytes_lt(b, c),
    ensures
        bytes_lt(a, c),
    decreases a.len(),
{
    if a.len() > 0 && b.len() > 0 && c.len() > 0 && a[0] == b[0] && b[0] == c[0] {
        lemma_bytes_lt_transitive(a.drop_first(), b.drop_first(), c.drop_first());
    }
}

pub proof fn lemma_str_lt_irreflexive(a: Seq<char>)
    ensures
        !str_lt(a, a),
{
    lemma_bytes_lt_irreflexive(encode_utf8(a));
}

pub proof fn lemma_str_lt_asymmetric(a: Seq<char>, b: Seq<char>)
    ensures
        !(str_lt(a, b) && str_lt(b, a)),
{
    lemma_bytes_lt_asymmetric(encode_utf8(a), encode_utf8(b));
}

pub proof fn lemma_str_lt_total(a: Seq<char>, b: Seq<char>)
    ensures
        a == b || str_lt(a, b) || str_lt(b, a),
{
    lemma_bytes_lt_total(encode_utf8(a), encode_utf8(b));
    if encode_utf8(a) == encode_utf8(b) {
        assert(decode_utf8(encode_utf8(a)) == a);
        assert(decode_utf8(encode_utf8(b)) == b);
    }
}

pub proof fn lemma_str_lt_transitive(a: Seq<char>, b: Seq<char>, c: Seq<char>)
    requires
        str_lt(a, b),
        str_lt(b, c),
    ensures
        str_lt(a, c),
{
    lemma_bytes_lt_transitive(encode_utf8(a), encode_utf8(b), encode_utf8(c));
}

/// All four order facts at once, for every triple.
pub proof fn lemma_str_order()
    ensures
        forall|a: Seq<char>| !#[trigger] str_lt(a, a),
        forall|a: Seq<char>, b: Seq<char>| #[trigger] str_lt(a, b) ==> !str_lt(b, a),
        forall|a: Seq<char>, b: Seq<char>|
            a == b || #[trigger] str_lt(a, b) || #[trigger] str_lt(b, a),
        forall|a: Seq<char>, b: Seq<char>, c: Seq<char>|
            #[trigger] str_lt(a, b) && #[trigger] str_lt(b, c) ==> str_lt(a, c),
{
    assert forall|a: Seq<char>| !#[trigger] str_lt(a, a) by {
        lemma_str_lt_irreflexive(a);
    }
    assert forall|a: Seq<char>, b: Seq<char>| #[trigger] str_lt(a, b) implies !str_lt(b, a) by {
        lemma_str_lt_asymmetric(a, b);
    }
    assert forall|a: Seq<char>, b: Seq<char>|
        a == b || #[trigger] str_lt(a, b) || #[trigger] str_lt(b, a) by {
        lemma_str_lt_total(a, b);
    }
    assert forall|a: Seq<char>, b: Seq<char>, c: Seq<char>|
        #[trigger] str_lt(a, b) && #[trigger] str_lt(b, c) implies str_lt(a, c) by {
        lemma_str_lt_transitive(a, b, c);
    }
}

/// `a < b` in `String` order.
pub fn str_less(a: &str, b: &str) -> (r: bool)
    ensures
        r == str_lt(a@, b@),
{
    let x = a.as_bytes();
    let y = b.as_bytes();
    let ghost xa = x@;
    let ghost yb = y@;
    let mut i: usize = 0;
    assert(xa.skip(0) =~= xa);
    assert(yb.skip(0) =~= yb);
    while i < x.len() && i < y.len()
        invariant
            x@ == xa,
            y@ == yb,
            xa == encode_utf8(a@),
            yb == encode_utf8(b@),
            i <= xa.len(),
            i <= yb.len(),
            bytes_lt(xa, yb) == bytes_lt(xa.skip(i as int), yb.skip(i as int)),
        decreases xa.len() - i,
    {
        assert(xa.skip(i as int)[0] == xa[i as int]);
        assert(yb.skip(i as int)[0] == yb[i as int]);
        if x[i] != y[i] {
            return x[i] < y[i];
        }
        assert(xa.skip(i as int).drop_first() =~= xa.skip(i + 1));
        assert(yb.skip(i as int).drop_first() =~= yb.skip(i + 1));
        i = i + 1;
    }
    i < y.len()
}

/// The views of a list of strings.
pub open spec fn strs_view(s: Seq<String>) -> Seq<Seq<char>> {
    s.map_values(|x: String| x@)
}

/// Strictly increasing in `String` order (so also duplicate free).
pub open spec fn sorted_strs(s: Seq<Seq<char>>) -> bool {
    forall|i: int, j: int| 0 <= i < j < s.len() ==> str_lt(#[trigger] s[i], #[trigger] s[j])
}

/// Adds `x` to a sorted, duplicate-free list, keeping it so.
pub fn insert_sorted_str(v: &mut Vec<String>, x: &String)
    requires
        sorted_strs(strs_view(old(v)@)),
    ensures
        sorted_strs(strs_view(final(v)@)),
        forall|y: Seq<char>|
            strs_view(final(v)@).contains(y) <==> (strs_view(old(v)@).contains(y) || y == x@),
{
    proof {
        lemma_str_order();
    }
    let ghost old_v = strs_view(v@);
    let mut p: usize = 0;
    while p < v.len() && str_less(v[p].as_str(), x.as_str())
        invariant
            p <= v@.len(),
            strs_view(v@) == old_v,
            forall|k: int| 0 <= k < p ==> str_lt(#[trigger] old_v[k], x@),
        decreases v@.len() - p,
    {
        p = p + 1;
    }
    if p < v.len() && v[p] == *x {
        assert(old_v.contains(x@)) by {
            assert(old_v[p as int] == x@);
        }
        return;
    }
    let ghost pos = p as int;
    v.insert(p, x.clone());
    proof {
        let nv = strs_view(v@);
        assert(nv =~= old_v.insert(pos, x@));
        if pos < old_v.len() {
            assert(old_v[pos] != x@);
            assert(str_lt(x@, old_v[pos]));
        }
        assert forall|i: int, j: int| 0 <= i < j < nv.len() implies str_lt(#[trigger] nv[i], #[trigger] nv[j]) by {
            if j < pos {
            } else if j == pos {
            } else if i < pos {
                assert(nv[j] == old_v[j - 1]);
                if j - 1 > pos {
                    assert(str_lt(old_v[pos], old_v[j - 1]));
                }
            } else if i == pos {
                assert(nv[j] == old_v[j - 1]);
                if j - 1 > pos {
                    assert(str_lt(old_v[pos], old_v[j - 1]));
                }
            } else {
                assert(nv[i] == old_v[i - 1]);
                assert(nv[j] == old_v[j - 1]);
            }
        }
        assert forall|y: Seq<char>| nv.contains(y) <==> (old_v.contains(y) || y == x@) by {
            if nv.contains(y) {
                let k = choose|k: int| 0 <= k < nv.len() && nv[k] == y;
                if k < pos {
                    assert(old_v[k] == y);
                } else if k > pos {
                    assert(old_v[k - 1] == y);
                }
            }
            if old_v.contains(y) {
                let k = choose|k: int| 0 <= k < old_v.len() && old_v[k] == y;
                if k < pos {
                    assert(nv[k] == y);
                } else {
                    assert(nv[k + 1] == y);
                }
            }
            if y == x@ {
                assert(nv[pos] == y);
            }
        }
    }
}


/// Membership after a push.
pub proof fn lemma_contains_push<A>(s: Seq<A>, x: A, k: A)
    ensures
        s.push(x).contains(k) <==> (s.contains(k) || x == k),
{
    if s.push(x).contains(k) {
        let j = choose|j: int| 0 <= j < s.push(x).len() && s.push(x)[j] == k;
        if j < s.len() {
            assert(s[j] == k);
        }
    }
    if s.contains(k) {
        let j = choose|j: int| 0 <= j < s.len() && s[j] == k;
        assert(s.push(x)[j] == k);
    }
    if x == k {
        assert(s.push(x)[s.len() as int] == k);
    }
}

/// The prefix one longer is the prefix with the next element pushed.
pub proof fn lemma_take_next<A>(s: Seq<A>, i: int)
    requires
        0 <= i < s.len(),
    ensures
        s.take(i + 1) == s.take(i).push(s[i]),
{
    assert(s.take(i + 1) =~= s.take(i).push(s[i]));
}

/// Appending the key at position `i` of a sorted key list to a sorted
/// list whose elements all precede the keys from `i` on keeps it sorted,
/// and its elements then precede the keys from `i + 1` on.
pub proof fn lemma_sorted_append(out: Seq<Seq<char>>, keys: Seq<Seq<char>>, i: int)
    requires
        sorted_strs(keys),
        0 <= i < keys.len(),
        sorted_strs(out),
        forall|m: int, j: int| 0 <= m < out.len() && i <= j < keys.len() ==> str_lt(#[trigger] out[m], #[trigger] keys[j]),
    ensures
        sorted_strs(out.push(keys[i])),
        forall|m: int, j: int| 0 <= m < out.len() + 1 && i + 1 <= j < keys.len() ==> str_lt(#[trigger] out.push(keys[i])[m], #[trigger] keys[j]),
{
    let o = out.push(keys[i]);
    assert forall|a: int, b: int| 0 <= a < b < o.len() implies str_lt(#[trigger] o[a], #[trigger] o[b]) by {
        if b == out.len() {
            assert(o[a] == out[a]);
            assert(str_lt(out[a], keys[i]));
        } else {
            assert(o[a] == out[a]);
            assert(o[b] == out[b]);
        }
    }
    assert forall|m: int, j: int| 0 <= m < out.len() + 1 && i + 1 <= j < keys.len() implies str_lt(#[trigger] o[m], #[trigger] keys[j]) by {
        if m == out.len() {
            assert(o[m] == keys[i]);
        } else {
            assert(o[m] == out[m]);
            assert(str_lt(out[m], keys[j]));
        }
    }
}


/// A strictly sorted list is determined by the strings it holds.
pub proof fn lemma_sorted_unique(s: Seq<Seq<char>>, t: Seq<Seq<char>>)
    requires
        sorted_strs(s),
        sorted_strs(t),
        forall|k: Seq<char>| s.contains(k) <==> t.contains(k),
    ensures
        s == t,
    decreases s.len(),
{
    if s.len() == 0 {
        if t.len() > 0 {
            assert(t.contains(t[0]));
        }
        assert(s =~= t);
    } else {
        assert(s.contains(s[0]));
        assert(t.len() > 0);
        assert(t.contains(t[0]));
        if s[0] != t[0] {
            let j = choose|j: int| 0 <= j < t.len() && t[j] == s[0];
            let i = choose|i: int| 0 <= i < s.len() && s[i] == t[0];
            lemma_str_lt_asymmetric(s[0], t[0]);
        }
        let s1 = s.drop_first();
        let t1 = t.drop_first();
        assert forall|k: Seq<char>| s1.contains(k) <==> t1.contains(k) by {
            if s1.contains(k) {
                let i = choose|i: int| 0 <= i < s1.len() && s1[i] == k;
                assert(s[i + 1] == k);
                assert(s.contains(k));
                let j = choose|j: int| 0 <= j < t.len() && t[j] == k;
                lemma_str_lt_irreflexive(k);
                if j == 0 {
                    assert(str_lt(s[0], s[i + 1]));
                }
                assert(t1[j - 1] == k);
            }
            if t1.contains(k) {
                let j = choose|j: int| 0 <= j < t1.len() && t1[j] == k;
                assert(t[j + 1] == k);
                assert(t.contains(k));
                let i = choose|i: int| 0 <= i < s.len() && s[i] == k;
                lemma_str_lt_irreflexive(k);
                if i == 0 {
                    assert(str_lt(t[0], t[j + 1]));
                }
                assert(s1[i - 1] == k);
            }
        }
        lemma_sorted_unique(s1, t1);
        assert(s =~= t1.insert(0, t[0]));
        assert(t =~= t1.insert(0, t[0]));
    }
}

} // verus!
