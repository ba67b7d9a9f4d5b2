//! Ordering of report lists by descending amount (`sort_by(|a, b| b.x.cmp(&a.x))`),
//! and keeping the first entries (`take(n)`).
use vstd::prelude::*;

verus! {

/// A value with a numeric rank to order by.
pub trait Ranked: Sized {
    spec fn rank(&self) -> int;

    fn get_rank(&self) -> (r: u64)
        ensures
            r == self.rank(),
    ;
}

/// Non-increasing by rank.
pub open spec fn sorted_desc<T: Ranked>(s: Seq<T>) -> bool {
    forall|i: int, j: int| 0 <= i < j < s.len() ==> #[trigger] s[i].rank() >= #[trigger] s[j].rank()
}

proof fn lemma_insert_multiset<T>(s: Seq<T>, p: int, x: T)
    requires
        0 <= p <= s.len(),
    ensures
        s.insert(p, x).to_multiset() == s.to_multiset().insert(x),
{
    broadcast use vstd::seq_lib::group_to_multiset_ensures;

    let t = s.insert(p, x);
    assert(t.remove(p) =~= s);
    assert(t.remove(p).to_multiset() =~= t.to_multiset().remove(t[p]));
    assert(t.to_multiset().count(x) > 0) by {
        assert(t.contains(x)) by {
            assert(t[p] == x);
        }
    }
    assert(t.to_multiset() =~= t.to_multiset().remove(x).insert(x));
}

/// The values ordered by non-increasing rank; values of equal rank keep their order.
pub fn sort_desc<T: Ranked>(v: Vec<T>) -> (out: Vec<T>)
    ensures
        out@.to_multiset() == v@.to_multiset(),
        sorted_desc(out@),
{
    broadcast use vstd::seq_lib::group_to_multiset_ensures;

    let mut src = v;
    let ghost orig = src@;
    let mut out: Vec<T> = Vec::new();
    let total = src.len();
    let mut taken: usize = 0;
    assert(orig.subrange(0, 0) =~= Seq::<T>::empty());
    while src.len() > 0
        invariant
            taken <= orig.len(),
            orig.len() == total,
            src@ == orig.subrange(taken as int, orig.len() as int),
            out@.to_multiset() == orig.subrange(0, taken as int).to_multiset(),
            sorted_desc(out@),
        decreases src@.len(),
    {
        let ghost pre_src = src@;
        let x = src.remove(0);
        assert(x == orig[taken as int]);
        let ghost xg = x;
        let r = x.get_rank();
        let n = out.len();
        let mut p: usize = 0;
        while p < n && out[p].get_rank() >= r
            invariant
                n == out@.len(),
                p <= n,
                r == x.rank(),
                forall|q: int| 0 <= q < p ==> #[trigger] out@[q].rank() >= r,
            decreases n - p,
        {
            p = p + 1;
        }
        let ghost before = out@;
        out.insert(p, x);
        proof {
            assert(forall|q: int| p <= q < before.len() ==> #[trigger] before[q].rank() < r) by {
                assert forall|q: int| p <= q < before.len() implies #[trigger] before[q].rank() < r by {
                    if p < before.len() {
                        assert(before[p as int].rank() < r);
                        assert(before[p as int].rank() >= before[q].rank());
                    }
                }
            }
            lemma_insert_multiset(before, p as int, xg);
            assert(orig.subrange(0, taken + 1) =~= orig.subrange(0, taken as int).push(xg));
            orig.subrange(0, taken as int).to_multiset_ensures();
            assert(orig.subrange(0, taken as int).push(xg).to_multiset() =~= orig.subrange(0, taken as int).to_multiset().insert(xg));
            assert forall|i: int, j: int| 0 <= i < j < out@.len() implies #[trigger] out@[i].rank()
                >= #[trigger] out@[j].rank() by {
                if j < p {
                } else if j == p {
                } else if i < p {
                    assert(out@[j] == before[j - 1]);
                } else if i == p {
                    assert(out@[j] == before[j - 1]);
                } else {
                    assert(out@[i] == before[i - 1]);
                    assert(out@[j] == before[j - 1]);
                }
            }
        }
        taken = taken + 1;
        assert(src@ =~= orig.subrange(taken as int, orig.len() as int));
    }
    assert(orig.subrange(0, orig.len() as int) =~= orig);
    out
}

/// The first `n` values (`into_iter().take(n).collect()`).
pub fn take_first<T>(v: Vec<T>, n: usize) -> (out: Vec<T>)
    ensures
        v@.len() <= n ==> out@ == v@,
        v@.len() > n ==> out@ == v@.subrange(0, n as int),
{
    let mut out = v;
    out.truncate(n);
    out
}

} // verus!
