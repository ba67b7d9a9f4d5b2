//! Ordering lists by a total order of their own (`sort_by` with a comparison): text in
//! lexicographic order of its characters, and a stable insertion sort.
use vstd::prelude::*;

verus! {

/// `a` is at most `b` in lexicographic order of characters (by code point, which is the
/// order `String` compares in).
pub open spec fn lex_le(a: Seq<char>, b: Seq<char>) -> bool
    decreases a.len(),
{
    if a.len() == 0 {
        true
    } else if b.len() == 0 {
        false
    } else if a[0] != b[0] {
        a[0] < b[0]
    } else {
        lex_le(a.drop_first(), b.drop_first())
    }
}

/// Of two texts, one is at most the other.
pub proof fn lemma_lex_total(a: Seq<char>, b: Seq<char>)
    ensures
        lex_le(a, b) || lex_le(b, a),
    decreases a.len(),
{
    if a.len() > 0 && b.len() > 0 {
        if a[0] == b[0] {
            lemma_lex_total(a.drop_first(), b.drop_first());
        }
    }
}

/// Whether `a` is at most `b` in lexicographic order.
pub fn text_le(a: &str, b: &str) -> (r: bool)
    ensures
        r == lex_le(a@, b@),
{
    let n = a.unicode_len();
    let m = b.unicode_len();
    let mut k: usize = 0;
    assert(a@.subrange(0, n as int) =~= a@);
    assert(b@.subrange(0, m as int) =~= b@);
    while k < n && k < m && a.get_char(k) == b.get_char(k)
        invariant
            n == a@.len(),
            m == b@.len(),
            k <= n,
            k <= m,
            lex_le(a@, b@) == lex_le(a@.subrange(k as int, n as int), b@.subrange(k as int, m as int)),
        decreases n - k,
    {
        let ghost sa = a@.subrange(k as int, n as int);
        let ghost sb = b@.subrange(k as int, m as int);
        assert(sa.drop_first() =~= a@.subrange(k + 1, n as int));
        assert(sb.drop_first() =~= b@.subrange(k + 1, m as int));
        assert(sa[0] == a@[k as int]);
        assert(sb[0] == b@[k as int]);
        k = k + 1;
    }
    let ghost sa = a@.subrange(k as int, n as int);
    let ghost sb = b@.subrange(k as int, m as int);
    if k == n {
        assert(sa.len() == 0);
        true
    } else if k == m {
        assert(sb.len() == 0);
        false
    } else {
        let ca = a.get_char(k);
        let cb = b.get_char(k);
        assert(sa[0] == ca);
        assert(sb[0] == cb);
        ca < cb
    }
}

/// A total preorder of the values of a type: of any two values one may come before the other.
pub trait Ordered: Sized {
    spec fn before(&self, other: &Self) -> bool;

    proof fn lemma_total(a: &Self, b: &Self)
        ensures
            a.before(b) || b.before(a),
    ;

    fn is_before(&self, other: &Self) -> (r: bool)
        ensures
            r == self.before(other),
    ;
}

/// Each value may come before the next.
pub open spec fn sorted_by<T: Ordered>(s: Seq<T>) -> bool {
    forall|i: int, j: int| 0 <= i && j == i + 1 && j < s.len() ==> #[trigger] s[i].before(&s[j])
}

proof fn lemma_insert_multiset<T>(s: Seq<T>, p: int, x: T)
    requires
        0 <= p <= s.len(),
    ensures
        s.insert(p, x).to_multiset() == s.to_multiset().insert(x),
{
    broadcast use vstd::seq_lib::group_to_multiset_ensures;

    let t = s.insert(p, x);
    assert(t.remove(p) =~= s);
    assert(t.remove(p).to_multiset() =~= t.to_multiset().remove(t[p]));
    assert(t.to_multiset().count(x) > 0) by {
        assert(t.contains(x)) by {
            assert(t[p] == x);
        }
    }
    assert(t.to_multiset() =~= t.to_multiset().remove(x).insert(x));
}

/// The values in order (`sort_by`, stable: values that may each come before the other keep
/// their order).
pub fn sort_by_order<T: Ordered>(v: Vec<T>) -> (out: Vec<T>)
    ensures
        out@.to_multiset() == v@.to_multiset(),
        sorted_by(out@),
{
    broadcast use vstd::seq_lib::group_to_multiset_ensures;

    let mut src = v;
    let ghost orig = src@;
    let mut out: Vec<T> = Vec::new();
    let mut taken: usize = 0;
    let total = src.len();
    assert(orig.subrange(0, 0) =~= Seq::<T>::empty());
    while src.len() > 0
        invariant
            taken <= orig.len(),
            orig.len() == total,
            src@ == orig.subrange(taken as int, orig.len() as int),
            out@.to_multiset() == orig.subrange(0, taken as int).to_multiset(),
            sorted_by(out@),
        decreases src@.len(),
    {
        let x = src.remove(0);
        assert(x == orig[taken as int]);
        let ghost xg = x;
        let n = out.len();
        let mut p: usize = 0;
        while p < n && out[p].is_before(&x)
            invariant
                n == out@.len(),
                p <= n,
                forall|q: int| 0 <= q < p ==> #[trigger] out@[q].before(&x),
            decreases n - p,
        {
            p = p + 1;
        }
        let ghost before = out@;
        proof {
            if p < n {
                T::lemma_total(&before[p as int], &xg);
            }
        }
        out.insert(p, x);
        proof {
            lemma_insert_multiset(before, p as int, xg);
            assert(orig.subrange(0, taken + 1) =~= orig.subrange(0, taken as int).push(xg));
            orig.subrange(0, taken as int).to_multiset_ensures();
            assert(orig.subrange(0, taken as int).push(xg).to_multiset() =~= orig.subrange(0, taken as int).to_multiset().insert(xg));
            assert forall|i: int, j: int| 0 <= i && j == i + 1 && j < out@.len() implies #[trigger] out@[i].before(&out@[j]) by {
                if j < p {
                    assert(out@[i] == before[i] && out@[j] == before[j]);
                } else if j == p {
                    assert(out@[i] == before[i]);
                } else if i == p {
                    assert(out@[j] == before[p as int]);
                } else {
                    assert(out@[i] == before[i - 1] && out@[j] == before[j - 1]);
                }
            }
        }
        taken = taken + 1;
        assert(src@ =~= orig.subrange(taken as int, orig.len() as int));
    }
    assert(orig.subrange(0, orig.len() as int) =~= orig);
    out
}

} // verus!
