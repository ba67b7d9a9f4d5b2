//! Small maps kept as lists of entries with distinct keys, for keys that are text or
//! integers: the operations the service performs on its hash maps (`insert`, which
//! replaces the value of an existing key, and `entry(..).or_insert(..)`, which keeps it).
use vstd::prelude::*;

verus! {

/// A value under a text key.
#[derive(Debug)]
pub struct TextEntry<V> {
    pub key: String,
    pub value: V,
}

/// No two entries have the same key.
pub open spec fn text_keys_unique<V>(s: Seq<TextEntry<V>>) -> bool {
    forall|i: int, j: int| 0 <= i < j < s.len() ==> #[trigger] s[i].key@ != #[trigger] s[j].key@
}

/// The map the entries stand for: later entries win.
pub open spec fn text_map<V: View>(s: Seq<TextEntry<V>>) -> Map<Seq<char>, V::V>
    decreases s.len(),
{
    if s.len() == 0 {
        Map::empty()
    } else {
        text_map(s.drop_last()).insert(s.last().key@, s.last().value@)
    }
}

/// The keys of the map are the keys of the entries.
pub proof fn lemma_text_map_dom<V: View>(s: Seq<TextEntry<V>>, k: Seq<char>)
    ensures
        text_map(s).dom().contains(k) <==> exists|i: int| 0 <= i < s.len() && #[trigger] s[i].key@ == k,
    decreases s.len(),
{
    if s.len() > 0 {
        let t = s.drop_last();
        lemma_text_map_dom(t, k);
        if text_map(s).dom().contains(k) {
            if s.last().key@ != k {
                let i = choose|i: int| 0 <= i < t.len() && #[trigger] t[i].key@ == k;
                assert(s[i].key@ == k);
            } else {
                assert(s[s.len() - 1].key@ == k);
            }
        }
        if exists|i: int| 0 <= i < s.len() && #[trigger] s[i].key@ == k {
            let i = choose|i: int| 0 <= i < s.len() && #[trigger] s[i].key@ == k;
            if i < t.len() {
                assert(t[i].key@ == k);
            }
        }
    }
}

/// With distinct keys, the map holds each entry's value under its key.
pub proof fn lemma_text_map_at<V: View>(s: Seq<TextEntry<V>>, i: int)
    requires
        text_keys_unique(s),
        0 <= i < s.len(),
    ensures
        text_map(s).dom().contains(s[i].key@),
        text_map(s)[s[i].key@] == s[i].value@,
    decreases s.len(),
{
    if i < s.len() - 1 {
        let t = s.drop_last();
        assert(t[i] == s[i]);
        assert(text_keys_unique(t));
        lemma_text_map_at(t, i);
        assert(s[i].key@ != s[s.len() - 1].key@);
    }
}

/// Replacing an entry by one with the same key updates the map at that key.
pub proof fn lemma_text_map_update<V: View>(s: Seq<TextEntry<V>>, i: int, e: TextEntry<V>)
    requires
        text_keys_unique(s),
        0 <= i < s.len(),
        s[i].key@ == e.key@,
    ensures
        text_keys_unique(s.update(i, e)),
        text_map(s.update(i, e)) == text_map(s).insert(e.key@, e.value@),
    decreases s.len(),
{
    let u = s.update(i, e);
    assert forall|a: int, b: int| 0 <= a < b < u.len() implies #[trigger] u[a].key@ != #[trigger] u[b].key@ by {
        assert(s[a].key@ != s[b].key@);
    }
    if i == s.len() - 1 {
        assert(u.drop_last() =~= s.drop_last());
        assert(text_map(u) =~= text_map(s).insert(e.key@, e.value@));
    } else {
        let t = s.drop_last();
        assert(u.drop_last() =~= t.update(i, e));
        assert(text_keys_unique(t));
        lemma_text_map_update(t, i, e);
        assert(s[i].key@ != s[s.len() - 1].key@);
        assert(text_map(u) =~= text_map(s).insert(e.key@, e.value@));
    }
}

/// Position of the entry with key `key`.
pub fn text_find<V>(m: &Vec<TextEntry<V>>, key: &str) -> (r: Option<usize>)
    ensures
        r matches Some(i) ==> i < m@.len() && m@[i as int].key@ == key@,
        r matches Some(i) ==> forall|j: int| 0 <= j < i ==> #[trigger] m@[j].key@ != key@,
        r is None ==> forall|i: int| 0 <= i < m@.len() ==> #[trigger] m@[i].key@ != key@,
{
    let mut i: usize = 0;
    while i < m.len()
        invariant
            i <= m@.len(),
            forall|j: int| 0 <= j < i ==> #[trigger] m@[j].key@ != key@,
        decreases m@.len() - i,
    {
        if crate::text::equals(m[i].key.as_str(), key) {
            return Some(i);
        }
        i = i + 1;
    }
    None
}

/// Sets the value under `key`, replacing the value the key had (`HashMap::insert`).
pub fn text_insert<V: View>(m: &mut Vec<TextEntry<V>>, key: String, value: V)
    requires
        text_keys_unique(old(m)@),
    ensures
        text_keys_unique(final(m)@),
        text_map(final(m)@) == text_map(old(m)@).insert(key@, value@),
{
    let ghost before = m@;
    match text_find(m, key.as_str()) {
        Some(i) => {
            let e = TextEntry { key, value };
            let ghost eg = e;
            m.set(i, e);
            proof {
                lemma_text_map_update(before, i as int, eg);
            }
        },
        None => {
            m.push(TextEntry { key, value });
            proof {
                assert(m@.drop_last() =~= before);
                assert forall|a: int, b: int| 0 <= a < b < m@.len() implies #[trigger] m@[a].key@
                    != #[trigger] m@[b].key@ by {
                    if b == before.len() {
                        assert(before[a].key@ != key@);
                    }
                }
            }
        },
    }
}

/// Sets the value under `key` only when the key has none (`entry(key).or_insert(value)`).
pub fn text_insert_absent<V: View>(m: &mut Vec<TextEntry<V>>, key: String, value: V)
    requires
        text_keys_unique(old(m)@),
    ensures
        text_keys_unique(final(m)@),
        text_map(old(m)@).dom().contains(key@) ==> text_map(final(m)@) == text_map(old(m)@),
        !text_map(old(m)@).dom().contains(key@) ==> text_map(final(m)@) == text_map(old(m)@).insert(
            key@,
            value@,
        ),
{
    let ghost before = m@;
    proof {
        lemma_text_map_dom(before, key@);
    }
    match text_find(m, key.as_str()) {
        Some(i) => {},
        None => {
            m.push(TextEntry { key, value });
            proof {
                assert(m@.drop_last() =~= before);
                assert forall|a: int, b: int| 0 <= a < b < m@.len() implies #[trigger] m@[a].key@
                    != #[trigger] m@[b].key@ by {
                    if b == before.len() {
                        assert(before[a].key@ != key@);
                    }
                }
            }
        },
    }
}

/// A value under an integer key. Integer-keyed maps are kept as entry lists too (not as
/// vstd's `HashMap`): their entries are written out and walked in an order the contracts
/// state (the clan sheets in workbook order, the members of a clan), where a hash map's
/// walk order is left open, and the same entry form serves text and integer keys.
#[derive(Debug)]
pub struct IdEntry<V> {
    pub key: i64,
    pub value: V,
}

/// No two entries have the same key.
pub open spec fn id_keys_unique<V>(s: Seq<IdEntry<V>>) -> bool {
    forall|i: int, j: int| 0 <= i < j < s.len() ==> #[trigger] s[i].key != #[trigger] s[j].key
}

/// The map the entries stand for: later entries win.
pub open spec fn id_map<V: View>(s: Seq<IdEntry<V>>) -> Map<i64, V::V>
    decreases s.len(),
{
    if s.len() == 0 {
        Map::empty()
    } else {
        id_map(s.drop_last()).insert(s.last().key, s.last().value@)
    }
}

/// The keys of the map are the keys of the entries.
pub proof fn lemma_id_map_dom<V: View>(s: Seq<IdEntry<V>>, k: i64)
    ensures
        id_map(s).dom().contains(k) <==> exists|i: int| 0 <= i < s.len() && #[trigger] s[i].key == k,
    decreases s.len(),
{
    if s.len() > 0 {
        let t = s.drop_last();
        lemma_id_map_dom(t, k);
        if id_map(s).dom().contains(k) {
            if s.last().key != k {
                let i = choose|i: int| 0 <= i < t.len() && #[trigger] t[i].key == k;
                assert(s[i].key == k);
            } else {
                assert(s[s.len() - 1].key == k);
            }
        }
        if exists|i: int| 0 <= i < s.len() && #[trigger] s[i].key == k {
            let i = choose|i: int| 0 <= i < s.len() && #[trigger] s[i].key == k;
            if i < t.len() {
                assert(t[i].key == k);
            }
        }
    }
}

/// With distinct keys, the map holds each entry's value under its key.
pub proof fn lemma_id_map_at<V: View>(s: Seq<IdEntry<V>>, i: int)
    requires
        id_keys_unique(s),
        0 <= i < s.len(),
    ensures
        id_map(s).dom().contains(s[i].key),
        id_map(s)[s[i].key] == s[i].value@,
    decreases s.len(),
{
    if i < s.len() - 1 {
        let t = s.drop_last();
        assert(t[i] == s[i]);
        assert(id_keys_unique(t));
        lemma_id_map_at(t, i);
        assert(s[i].key != s[s.len() - 1].key);
    }
}

/// Replacing an entry by one with the same key updates the map at that key.
pub proof fn lemma_id_map_update<V: View>(s: Seq<IdEntry<V>>, i: int, e: IdEntry<V>)
    requires
        id_keys_unique(s),
        0 <= i < s.len(),
        s[i].key == e.key,
    ensures
        id_keys_unique(s.update(i, e)),
        id_map(s.update(i, e)) == id_map(s).insert(e.key, e.value@),
    decreases s.len(),
{
    let u = s.update(i, e);
    assert forall|a: int, b: int| 0 <= a < b < u.len() implies #[trigger] u[a].key != #[trigger] u[b].key by {
        assert(s[a].key != s[b].key);
    }
    if i == s.len() - 1 {
        assert(u.drop_last() =~= s.drop_last());
        assert(id_map(u) =~= id_map(s).insert(e.key, e.value@));
    } else {
        let t = s.drop_last();
        assert(u.drop_last() =~= t.update(i, e));
        assert(id_keys_unique(t));
        lemma_id_map_update(t, i, e);
        assert(s[i].key != s[s.len() - 1].key);
        assert(id_map(u) =~= id_map(s).insert(e.key, e.value@));
    }
}

/// Position of the entry with key `key`.
pub fn id_find<V>(m: &Vec<IdEntry<V>>, key: i64) -> (r: Option<usize>)
    ensures
        r matches Some(i) ==> i < m@.len() && m@[i as int].key == key,
        r is None ==> forall|i: int| 0 <= i < m@.len() ==> #[trigger] m@[i].key != key,
{
    let mut i: usize = 0;
    while i < m.len()
        invariant
            i <= m@.len(),
            forall|j: int| 0 <= j < i ==> #[trigger] m@[j].key != key,
        decreases m@.len() - i,
    {
        if m[i].key == key {
            return Some(i);
        }
        i = i + 1;
    }
    None
}

/// Sets the value under `key`, replacing the value the key had (`HashMap::insert`).
pub fn id_insert<V: View>(m: &mut Vec<IdEntry<V>>, key: i64, value: V)
    requires
        id_keys_unique(old(m)@),
    ensures
        id_keys_unique(final(m)@),
        id_map(final(m)@) == id_map(old(m)@).insert(key, value@),
{
    let ghost before = m@;
    match id_find(m, key) {
        Some(i) => {
            let e = IdEntry { key, value };
            let ghost eg = e;
            m.set(i, e);
            proof {
                lemma_id_map_update(before, i as int, eg);
            }
        },
        None => {
            m.push(IdEntry { key, value });
            proof {
                assert(m@.drop_last() =~= before);
                assert forall|a: int, b: int| 0 <= a < b < m@.len() implies #[trigger] m@[a].key
                    != #[trigger] m@[b].key by {
                    if b == before.len() {
                        assert(before[a].key != key);
                    }
                }
            }
        },
    }
}

/// Sets the value under `key` only when the key has none (`entry(key).or_insert(value)`).
pub fn id_insert_absent<V: View>(m: &mut Vec<IdEntry<V>>, key: i64, value: V)
    requires
        id_keys_unique(old(m)@),
    ensures
        id_keys_unique(final(m)@),
        id_map(old(m)@).dom().contains(key) ==> id_map(final(m)@) == id_map(old(m)@),
        !id_map(old(m)@).dom().contains(key) ==> id_map(final(m)@) == id_map(old(m)@).insert(key, value@),
{
    let ghost before = m@;
    proof {
        lemma_id_map_dom(before, key);
    }
    match id_find(m, key) {
        Some(i) => {},
        None => {
            m.push(IdEntry { key, value });
            proof {
                assert(m@.drop_last() =~= before);
                assert forall|a: int, b: int| 0 <= a < b < m@.len() implies #[trigger] m@[a].key
                    != #[trigger] m@[b].key by {
                    if b == before.len() {
                        assert(before[a].key != key);
                    }
                }
            }
        },
    }
}

} // verus!
