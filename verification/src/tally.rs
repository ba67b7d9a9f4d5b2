//! Keyed counters (`entry(k).and_modify(|v| *v += c).or_insert(c)` on a hash map),
//! kept as vectors with unique keys, whose contents are stated as sums over
//! the sequence of `(key, amount)` pairs that were added.
use vstd::prelude::*;

verus! {

/// An integer key with an amount (a membership id, an instance id or an activity mode).
#[derive(Clone, Copy, Debug, PartialEq, Eq)]
pub struct IdCount {
    pub id: i64,
    pub count: u64,
}

/// A display name with an amount.
#[derive(Debug)]
pub struct NameCount {
    pub name: String,
    pub count: u64,
}

impl Clone for NameCount {
    fn clone(&self) -> (r: Self)
        ensures
            r == *self,
    {
        NameCount { name: self.name.clone(), count: self.count }
    }
}

// ---------------------------------------------------------------------------
// Integer keys
// ---------------------------------------------------------------------------
/// Sum of the amounts added under `k`.
pub open spec fn id_weight(s: Seq<IdCount>, k: i64) -> int
    decreases s.len(),
{
    if s.len() == 0 {
        0
    } else {
        id_weight(s.drop_last(), k) + if s.last().id == k {
            s.last().count as int
        } else {
            0
        }
    }
}

/// `k` was added at least once.
pub open spec fn id_present(s: Seq<IdCount>, k: i64) -> bool {
    exists|i: int| 0 <= i < s.len() && #[trigger] s[i].id == k
}

pub open spec fn ids_unique(s: Seq<IdCount>) -> bool {
    forall|i: int, j: int| 0 <= i < j < s.len() ==> #[trigger] s[i].id != #[trigger] s[j].id
}

/// `list` holds, once per key, the sum of the amounts that `pairs` adds under that key.
pub open spec fn id_tally_of(list: Seq<IdCount>, pairs: Seq<IdCount>) -> bool {
    &&& ids_unique(list)
    &&& forall|k: i64| #[trigger] id_present(list, k) <==> id_present(pairs, k)
    &&& forall|k: i64| #[trigger] id_weight(list, k) == id_weight(pairs, k)
}

/// Every key's total fits in a `u64`.
pub open spec fn id_weights_fit(pairs: Seq<IdCount>) -> bool {
    forall|k: i64| #[trigger] id_weight(pairs, k) <= u64::MAX
}

/// Sum of all amounts.
pub open spec fn id_total(s: Seq<IdCount>) -> int
    decreases s.len(),
{
    if s.len() == 0 {
        0
    } else {
        id_total(s.drop_last()) + s.last().count as int
    }
}

/// The total of a key is not negative.
pub proof fn lemma_id_weight_nonneg(s: Seq<IdCount>, k: i64)
    ensures
        id_weight(s, k) >= 0,
    decreases s.len(),
{
    if s.len() > 0 {
        lemma_id_weight_nonneg(s.drop_last(), k);
    }
}

/// A key that does not occur has total 0.
pub proof fn lemma_id_weight_absent(s: Seq<IdCount>, k: i64)
    requires
        !id_present(s, k),
    ensures
        id_weight(s, k) == 0,
    decreases s.len(),
{
    if s.len() > 0 {
        assert(!id_present(s.drop_last(), k)) by {
            if id_present(s.drop_last(), k) {
                let i = choose|i: int| 0 <= i < s.drop_last().len() && #[trigger] s.drop_last()[i].id == k;
                assert(s[i].id == k);
            }
        }
        lemma_id_weight_absent(s.drop_last(), k);
        assert(s[s.len() - 1].id != k);
    }
}

/// In a list with unique keys, the weight of a key is the amount of its entry.
pub proof fn lemma_id_weight_unique(s: Seq<IdCount>, i: int)
    requires
        ids_unique(s),
        0 <= i < s.len(),
    ensures
        id_weight(s, s[i].id) == s[i].count,
    decreases s.len(),
{
    let k = s[i].id;
    if i == s.len() - 1 {
        assert(!id_present(s.drop_last(), k)) by {
            if id_present(s.drop_last(), k) {
                let j = choose|j: int| 0 <= j < s.drop_last().len() && #[trigger] s.drop_last()[j].id == k;
                assert(s[j].id == s[i].id);
            }
        }
        lemma_id_weight_absent(s.drop_last(), k);
    } else {
        lemma_id_weight_unique(s.drop_last(), i);
        assert(s.last().id != k);
    }
}

/// Adding an amount to an existing entry or a new entry at the end.
pub fn id_tally_add(list: &mut Vec<IdCount>, e: IdCount)
    requires
        ids_unique(old(list)@),
        id_weight(old(list)@, e.id) + e.count <= u64::MAX,
    ensures
        ids_unique(final(list)@),
        forall|k: i64| #[trigger]
            id_present(final(list)@, k) <==> (id_present(old(list)@, k) || k == e.id),
        forall|k: i64| #[trigger]
            id_weight(final(list)@, k) == id_weight(old(list)@, k) + if k == e.id {
                e.count as int
            } else {
                0
            },
        id_total(final(list)@) == id_total(old(list)@) + e.count,
{
    let ghost before = list@;
    let n = list.len();
    let mut i: usize = 0;
    while i < n && list[i].id != e.id
        invariant
            n == list@.len(),
            list@ == before,
            i <= n,
            forall|j: int| 0 <= j < i ==> #[trigger] list@[j].id != e.id,
        decreases n - i,
    {
        i = i + 1;
    }
    if i < n {
        proof {
            lemma_id_weight_unique(before, i as int);
        }
        let updated = IdCount { id: e.id, count: list[i].count + e.count };
        list.set(i, updated);
        proof {
            lemma_id_update(before, i as int, updated);
            assert(before[i as int].id == e.id);
            assert(id_present(before, e.id));
        }
    } else {
        assert(!id_present(before, e.id));
        list.push(e);
        proof {
            assert(list@.drop_last() =~= before);
            assert forall|k: i64| #[trigger]
                id_present(list@, k) <==> (id_present(before, k) || k == e.id) by {
                if id_present(list@, k) {
                    let j = choose|j: int| 0 <= j < list@.len() && #[trigger] list@[j].id == k;
                    if j < before.len() {
                        assert(before[j].id == k);
                    }
                }
                if id_present(before, k) {
                    let j = choose|j: int| 0 <= j < before.len() && #[trigger] before[j].id == k;
                    assert(list@[j].id == k);
                }
                if k == e.id {
                    assert(list@[list@.len() - 1].id == k);
                }
            }
        }
    }
}

/// Replacing entry `i` of a list with unique keys by an entry with the same key.
pub proof fn lemma_id_update(s: Seq<IdCount>, i: int, e: IdCount)
    requires
        ids_unique(s),
        0 <= i < s.len(),
        s[i].id == e.id,
    ensures
        ids_unique(s.update(i, e)),
        forall|k: i64| #[trigger] id_present(s.update(i, e), k) <==> id_present(s, k),
        forall|k: i64| #[trigger]
            id_weight(s.update(i, e), k) == id_weight(s, k) + if k == e.id {
                e.count - s[i].count
            } else {
                0
            },
        id_total(s.update(i, e)) == id_total(s) + e.count - s[i].count,
    decreases s.len(),
{
    let t = s.update(i, e);
    assert forall|k: i64| #[trigger] id_present(t, k) <==> id_present(s, k) by {
        if id_present(t, k) {
            let j = choose|j: int| 0 <= j < t.len() && #[trigger] t[j].id == k;
            assert(s[j].id == k);
        }
        if id_present(s, k) {
            let j = choose|j: int| 0 <= j < s.len() && #[trigger] s[j].id == k;
            assert(t[j].id == k);
        }
    }
    if i == s.len() - 1 {
        assert(t.drop_last() =~= s.drop_last());
    } else {
        lemma_id_update(s.drop_last(), i, e);
        assert(t.drop_last() =~= s.drop_last().update(i, e));
    }
    assert forall|k: i64| #[trigger]
        id_weight(t, k) == id_weight(s, k) + if k == e.id {
            e.count - s[i].count
        } else {
            0
        } by {
        assert(id_weight(t, k) == id_weight(t.drop_last(), k) + if t.last().id == k {
            t.last().count as int
        } else {
            0
        });
        assert(id_weight(s, k) == id_weight(s.drop_last(), k) + if s.last().id == k {
            s.last().count as int
        } else {
            0
        });
    }
}

/// Appending an entry whose key is not in the list yet.
pub proof fn lemma_id_push(s: Seq<IdCount>, e: IdCount)
    requires
        ids_unique(s),
        !id_present(s, e.id),
    ensures
        ids_unique(s.push(e)),
        forall|k: i64| #[trigger] id_present(s.push(e), k) <==> (id_present(s, k) || k == e.id),
        forall|k: i64| #[trigger]
            id_weight(s.push(e), k) == id_weight(s, k) + if k == e.id {
                e.count as int
            } else {
                0
            },
        id_total(s.push(e)) == id_total(s) + e.count,
{
    let t = s.push(e);
    assert(t.drop_last() =~= s);
    assert forall|i: int, j: int| 0 <= i < j < t.len() implies #[trigger] t[i].id != #[trigger] t[j].id by {
        if j == s.len() {
            assert(s[i].id != e.id);
        }
    }
    assert forall|k: i64| #[trigger] id_present(t, k) <==> (id_present(s, k) || k == e.id) by {
        if id_present(t, k) {
            let j = choose|j: int| 0 <= j < t.len() && #[trigger] t[j].id == k;
            if j < s.len() {
                assert(s[j].id == k);
            }
        }
        if id_present(s, k) {
            let j = choose|j: int| 0 <= j < s.len() && #[trigger] s[j].id == k;
            assert(t[j].id == k);
        }
        if k == e.id {
            assert(t[s.len() as int].id == k);
        }
    }
}

/// Adds the pairs one after the other (`entry(id).and_modify(+= count).or_insert(count)`).
pub fn id_tally(pairs: &Vec<IdCount>) -> (list: Vec<IdCount>)
    requires
        id_weights_fit(pairs@),
    ensures
        id_tally_of(list@, pairs@),
        id_total(list@) == id_total(pairs@),
{
    let mut list: Vec<IdCount> = Vec::new();
    let mut i: usize = 0;
    while i < pairs.len()
        invariant
            i <= pairs@.len(),
            id_weights_fit(pairs@),
            id_tally_of(list@, pairs@.subrange(0, i as int)),
            id_total(list@) == id_total(pairs@.subrange(0, i as int)),
        decreases pairs@.len() - i,
    {
        let e = pairs[i];
        let ghost pre = pairs@.subrange(0, i as int);
        let ghost next = pairs@.subrange(0, i + 1);
        proof {
            assert(next.drop_last() =~= pre);
            lemma_id_weight_prefix(pairs@, i + 1, e.id);
        }
        id_tally_add(&mut list, e);
        proof {
            assert forall|k: i64| #[trigger] id_present(next, k) <==> (id_present(pre, k) || k == e.id) by {
                if id_present(next, k) {
                    let j = choose|j: int| 0 <= j < next.len() && #[trigger] next[j].id == k;
                    if j < pre.len() {
                        assert(pre[j].id == k);
                    }
                }
                if id_present(pre, k) {
                    let j = choose|j: int| 0 <= j < pre.len() && #[trigger] pre[j].id == k;
                    assert(next[j].id == k);
                }
                if k == e.id {
                    assert(next[i as int].id == k);
                }
            }
        }
        i = i + 1;
    }
    assert(pairs@.subrange(0, pairs@.len() as int) =~= pairs@);
    list
}

/// The weight of a prefix is at most the weight of the whole sequence.
pub proof fn lemma_id_weight_prefix(s: Seq<IdCount>, n: int, k: i64)
    requires
        0 <= n <= s.len(),
    ensures
        id_weight(s.subrange(0, n), k) <= id_weight(s, k),
    decreases s.len() - n,
{
    if n < s.len() {
        lemma_id_weight_prefix(s, n + 1, k);
        assert(s.subrange(0, n + 1).drop_last() =~= s.subrange(0, n));
    } else {
        assert(s.subrange(0, n) =~= s);
    }
}

// ---------------------------------------------------------------------------
// Name keys
// ---------------------------------------------------------------------------
/// A name with an amount, as a mathematical pair.
pub type NamedAmount = (Seq<char>, u64);

/// The pairs a list of named counters holds.
pub open spec fn name_view(s: Seq<NameCount>) -> Seq<NamedAmount> {
    s.map_values(|e: NameCount| (e.name@, e.count))
}

/// Sum of the amounts added under the name `k`.
pub open spec fn name_weight(s: Seq<NamedAmount>, k: Seq<char>) -> int
    decreases s.len(),
{
    if s.len() == 0 {
        0
    } else {
        name_weight(s.drop_last(), k) + if s.last().0 == k {
            s.last().1 as int
        } else {
            0
        }
    }
}

pub open spec fn name_present(s: Seq<NamedAmount>, k: Seq<char>) -> bool {
    exists|i: int| 0 <= i < s.len() && #[trigger] s[i].0 == k
}

pub open spec fn names_unique(s: Seq<NamedAmount>) -> bool {
    forall|i: int, j: int| 0 <= i < j < s.len() ==> #[trigger] s[i].0 != #[trigger] s[j].0
}

/// `list` holds, once per name, the sum of the amounts that `pairs` adds under that name.
pub open spec fn name_tally_of(list: Seq<NamedAmount>, pairs: Seq<NamedAmount>) -> bool {
    &&& names_unique(list)
    &&& forall|k: Seq<char>| #[trigger] name_present(list, k) <==> name_present(pairs, k)
    &&& forall|k: Seq<char>| #[trigger] name_weight(list, k) == name_weight(pairs, k)
}

pub open spec fn name_weights_fit(pairs: Seq<NamedAmount>) -> bool {
    forall|k: Seq<char>| #[trigger] name_weight(pairs, k) <= u64::MAX
}

/// Sum of all amounts.
pub open spec fn name_total(s: Seq<NamedAmount>) -> int
    decreases s.len(),
{
    if s.len() == 0 {
        0
    } else {
        name_total(s.drop_last()) + s.last().1 as int
    }
}

/// A name that does not occur has total 0.
pub proof fn lemma_name_weight_absent(s: Seq<NamedAmount>, k: Seq<char>)
    requires
        !name_present(s, k),
    ensures
        name_weight(s, k) == 0,
    decreases s.len(),
{
    if s.len() > 0 {
        assert(!name_present(s.drop_last(), k)) by {
            if name_present(s.drop_last(), k) {
                let i = choose|i: int| 0 <= i < s.drop_last().len() && #[trigger] s.drop_last()[i].0 == k;
                assert(s[i].0 == k);
            }
        }
        lemma_name_weight_absent(s.drop_last(), k);
        assert(s[s.len() - 1].0 != k);
    }
}

/// In a list with unique names, the total of a name is the amount of its entry.
pub proof fn lemma_name_weight_unique(s: Seq<NamedAmount>, i: int)
    requires
        names_unique(s),
        0 <= i < s.len(),
    ensures
        name_weight(s, s[i].0) == s[i].1,
    decreases s.len(),
{
    let k = s[i].0;
    if i == s.len() - 1 {
        assert(!name_present(s.drop_last(), k)) by {
            if name_present(s.drop_last(), k) {
                let j = choose|j: int| 0 <= j < s.drop_last().len() && #[trigger] s.drop_last()[j].0 == k;
                assert(s[j].0 == s[i].0);
            }
        }
        lemma_name_weight_absent(s.drop_last(), k);
    } else {
        lemma_name_weight_unique(s.drop_last(), i);
        assert(s.last().0 != k);
    }
}

proof fn lemma_name_update(s: Seq<NamedAmount>, i: int, e: NamedAmount)
    requires
        names_unique(s),
        0 <= i < s.len(),
        s[i].0 == e.0,
    ensures
        names_unique(s.update(i, e)),
        forall|k: Seq<char>| #[trigger] name_present(s.update(i, e), k) <==> name_present(s, k),
        forall|k: Seq<char>| #[trigger]
            name_weight(s.update(i, e), k) == name_weight(s, k) + if k == e.0 {
                e.1 - s[i].1
            } else {
                0
            },
        name_total(s.update(i, e)) == name_total(s) + e.1 - s[i].1,
    decreases s.len(),
{
    let t = s.update(i, e);
    assert forall|k: Seq<char>| #[trigger] name_present(t, k) <==> name_present(s, k) by {
        if name_present(t, k) {
            let j = choose|j: int| 0 <= j < t.len() && #[trigger] t[j].0 == k;
            assert(s[j].0 == k);
        }
        if name_present(s, k) {
            let j = choose|j: int| 0 <= j < s.len() && #[trigger] s[j].0 == k;
            assert(t[j].0 == k);
        }
    }
    if i == s.len() - 1 {
        assert(t.drop_last() =~= s.drop_last());
    } else {
        lemma_name_update(s.drop_last(), i, e);
        assert(t.drop_last() =~= s.drop_last().update(i, e));
    }
    assert forall|k: Seq<char>| #[trigger]
        name_weight(t, k) == name_weight(s, k) + if k == e.0 {
            e.1 - s[i].1
        } else {
            0
        } by {
        assert(name_weight(t, k) == name_weight(t.drop_last(), k) + if t.last().0 == k {
            t.last().1 as int
        } else {
            0
        });
        assert(name_weight(s, k) == name_weight(s.drop_last(), k) + if s.last().0 == k {
            s.last().1 as int
        } else {
            0
        });
    }
}

proof fn lemma_name_push_present(s: Seq<NamedAmount>, e: NamedAmount)
    ensures
        forall|k: Seq<char>| #[trigger] name_present(s.push(e), k) <==> (name_present(s, k) || k == e.0),
{
    let t = s.push(e);
    assert forall|k: Seq<char>| #[trigger] name_present(t, k) <==> (name_present(s, k) || k == e.0) by {
        if name_present(t, k) {
            let j = choose|j: int| 0 <= j < t.len() && #[trigger] t[j].0 == k;
            if j < s.len() {
                assert(s[j].0 == k);
            }
        }
        if name_present(s, k) {
            let j = choose|j: int| 0 <= j < s.len() && #[trigger] s[j].0 == k;
            assert(t[j].0 == k);
        }
        if k == e.0 {
            assert(t[s.len() as int].0 == k);
        }
    }
}

/// Adding an amount under a name: to its entry, or as a new entry at the end.
pub fn name_tally_add(list: &mut Vec<NameCount>, e: NameCount)
    requires
        names_unique(name_view(old(list)@)),
        name_weight(name_view(old(list)@), e.name@) + e.count <= u64::MAX,
    ensures
        names_unique(name_view(final(list)@)),
        forall|k: Seq<char>| #[trigger]
            name_present(name_view(final(list)@), k) <==> (name_present(name_view(old(list)@), k)
                || k == e.name@),
        forall|k: Seq<char>| #[trigger]
            name_weight(name_view(final(list)@), k) == name_weight(name_view(old(list)@), k)
                + if k == e.name@ {
                e.count as int
            } else {
                0
            },
        name_total(name_view(final(list)@)) == name_total(name_view(old(list)@)) + e.count,
{
    let ghost before = list@;
    let ghost bv = name_view(before);
    let n = list.len();
    let mut i: usize = 0;
    while i < n && list[i].name != e.name
        invariant
            n == list@.len(),
            list@ == before,
            bv == name_view(before),
            i <= n,
            forall|j: int| 0 <= j < i ==> #[trigger] list@[j].name@ != e.name@,
        decreases n - i,
    {
        i = i + 1;
    }
    let ghost en = e.name@;
    let ghost ec = e.count;
    if i < n {
        proof {
            assert(bv[i as int] == (before[i as int].name@, before[i as int].count));
            lemma_name_weight_unique(bv, i as int);
        }
        let updated = NameCount { name: e.name, count: list[i].count + e.count };
        let ghost uv: NamedAmount = (updated.name@, updated.count);
        list.set(i, updated);
        proof {
            assert(name_view(list@) =~= bv.update(i as int, uv));
            lemma_name_update(bv, i as int, uv);
            assert(bv[i as int].0 == en);
            assert(name_present(bv, en));
        }
    } else {
        assert(!name_present(bv, en)) by {
            if name_present(bv, en) {
                let j = choose|j: int| 0 <= j < bv.len() && #[trigger] bv[j].0 == en;
                assert(before[j].name@ == en);
            }
        }
        list.push(e);
        proof {
            assert(name_view(list@) =~= bv.push((en, ec)));
            lemma_name_push_present(bv, (en, ec));
            assert forall|a: int, b: int| 0 <= a < b < name_view(list@).len() implies #[trigger] name_view(list@)[a].0 != #[trigger] name_view(list@)[b].0 by {
                if b == bv.len() {
                    if bv[a].0 == en {
                        assert(name_present(bv, en));
                    }
                }
            }
            let lv = name_view(list@);
            assert(lv.drop_last() =~= bv);
        }
    }
}

/// The total of a name over a prefix is at most its total over the whole sequence.
pub proof fn lemma_name_weight_prefix(s: Seq<NamedAmount>, n: int, k: Seq<char>)
    requires
        0 <= n <= s.len(),
    ensures
        name_weight(s.subrange(0, n), k) <= name_weight(s, k),
    decreases s.len() - n,
{
    if n < s.len() {
        lemma_name_weight_prefix(s, n + 1, k);
        assert(s.subrange(0, n + 1).drop_last() =~= s.subrange(0, n));
    } else {
        assert(s.subrange(0, n) =~= s);
    }
}

/// Adds the pairs one after the other, merging equal names.
pub fn name_tally(pairs: &Vec<NameCount>) -> (list: Vec<NameCount>)
    requires
        name_weights_fit(name_view(pairs@)),
    ensures
        name_tally_of(name_view(list@), name_view(pairs@)),
        name_total(name_view(list@)) == name_total(name_view(pairs@)),
{
    let ghost pv = name_view(pairs@);
    let mut list: Vec<NameCount> = Vec::new();
    let mut i: usize = 0;
    assert(name_view(list@) =~= Seq::<NamedAmount>::empty());
    while i < pairs.len()
        invariant
            i <= pairs@.len(),
            pv == name_view(pairs@),
            name_weights_fit(pv),
            name_tally_of(name_view(list@), pv.subrange(0, i as int)),
            name_total(name_view(list@)) == name_total(pv.subrange(0, i as int)),
        decreases pairs@.len() - i,
    {
        let e = pairs[i].clone();
        let ghost pre = pv.subrange(0, i as int);
        let ghost next = pv.subrange(0, i + 1);
        let ghost ev: NamedAmount = (e.name@, e.count);
        proof {
            assert(next =~= pre.push(ev));
            assert(next.drop_last() =~= pre);
            lemma_name_weight_prefix(pv, i + 1, e.name@);
            lemma_name_push_present(pre, ev);
        }
        name_tally_add(&mut list, e);
        i = i + 1;
    }
    assert(pv.subrange(0, pairs@.len() as int) =~= pv);
    list
}

// ---------------------------------------------------------------------------
// Distinct integers
// ---------------------------------------------------------------------------
/// `out` holds each value of `s` exactly once, in order of first appearance.
pub open spec fn distinct_of(out: Seq<i64>, s: Seq<i64>) -> bool {
    &&& out.no_duplicates()
    &&& out.to_set() == s.to_set()
}

/// Adds `x` unless it is already there (`HashSet::insert`).
pub fn set_insert(set: &mut Vec<i64>, x: i64)
    requires
        old(set)@.no_duplicates(),
    ensures
        final(set)@.no_duplicates(),
        final(set)@.to_set() == old(set)@.to_set().insert(x),
        final(set)@.len() <= old(set)@.len() + 1,
{
    let ghost before = set@;
    let n = set.len();
    let mut i: usize = 0;
    while i < n
        invariant
            n == set@.len(),
            set@ == before,
            before.no_duplicates(),
            i <= n,
            forall|j: int| 0 <= j < i ==> set@[j] != x,
        decreases n - i,
    {
        if set[i] == x {
            proof {
                assert(before.to_set().insert(x) =~= before.to_set()) by {
                    assert(before.contains(x));
                }
            }
            return;
        }
        i = i + 1;
    }
    set.push(x);
    proof {
        assert(set@ =~= before.push(x));
        lemma_push_to_set(before, x);
        assert forall|a: int, b: int| 0 <= a < set@.len() && 0 <= b < set@.len() && a != b implies set@[a] != set@[b] by {
            if a < before.len() && b < before.len() {
                assert(before[a] != before[b]);
            }
        }
    }
}

/// Appending an item adds it to the set of items.
pub proof fn lemma_push_to_set(s: Seq<i64>, x: i64)
    ensures
        s.push(x).to_set() == s.to_set().insert(x),
{
    let t = s.push(x);
    assert forall|y: i64| #[trigger] t.to_set().contains(y) == s.to_set().insert(x).contains(y) by {
        if t.contains(y) {
            let j = choose|j: int| 0 <= j < t.len() && t[j] == y;
            if j < s.len() {
                assert(s[j] == y);
                assert(s.contains(y));
            }
        }
        if s.contains(y) {
            let j = choose|j: int| 0 <= j < s.len() && s[j] == y;
            assert(t[j] == y);
        }
        if y == x {
            assert(t[s.len() as int] == x);
        }
    }
    assert(t.to_set() =~= s.to_set().insert(x));
}

/// The distinct values of `s`, in order of first appearance.
pub fn distinct(s: &Vec<i64>) -> (out: Vec<i64>)
    ensures
        distinct_of(out@, s@),
        out@.len() <= s@.len(),
{
    let mut out: Vec<i64> = Vec::new();
    let mut i: usize = 0;
    while i < s.len()
        invariant
            i <= s@.len(),
            out@.no_duplicates(),
            out@.to_set() == s@.subrange(0, i as int).to_set(),
            out@.len() <= i,
        decreases s@.len() - i,
    {
        set_insert(&mut out, s[i]);
        proof {
            assert(s@.subrange(0, i + 1) =~= s@.subrange(0, i as int).push(s@[i as int]));
            lemma_push_to_set(s@.subrange(0, i as int), s@[i as int]);
        }
        i = i + 1;
    }
    assert(s@.subrange(0, s@.len() as int) =~= s@);
    out
}

} // verus!
