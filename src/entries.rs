//! Lists of named entries that behave as maps: a key stands at most once,
//! and setting a key replaces its entry in place or adds it at the end.

use vstd::prelude::*;

verus! {

/// The map that a list of entries denotes; a later entry wins over an
/// earlier one with the same key.
pub open spec fn entry_map<V>(v: Seq<(String, V)>) -> Map<Seq<char>, V>
    decreases v.len(),
{
    if v.len() == 0 {
        Map::empty()
    } else {
        entry_map(v.drop_last()).insert(v.last().0@, v.last().1)
    }
}

pub open spec fn distinct_keys<V>(v: Seq<(String, V)>) -> bool {
    forall|i: int, j: int| 0 <= i < v.len() && 0 <= j < v.len() && i != j ==> #[trigger] v[i].0@ != #[trigger] v[j].0@
}

pub open spec fn has_key<V>(v: Seq<(String, V)>, k: Seq<char>) -> bool {
    exists|i: int| 0 <= i < v.len() && #[trigger] v[i].0@ == k
}

/// The keys of the map are the keys of the list, and with distinct keys
/// each entry gives the value of its key.
pub proof fn lemma_entry_map<V>(v: Seq<(String, V)>)
    ensures
        forall|k: Seq<char>| #[trigger] entry_map(v).contains_key(k) == has_key(v, k),
        distinct_keys(v) ==> forall|i: int| 0 <= i < v.len() ==> entry_map(v)[#[trigger] v[i].0@] == v[i].1,
    decreases v.len(),
{
    if v.len() > 0 {
        let u = v.drop_last();
        assert(u.len() == v.len() - 1);
        lemma_entry_map(u);
        assert forall|k: Seq<char>| #[trigger] entry_map(v).contains_key(k) == has_key(v, k) by {
            assert(entry_map(v) == entry_map(u).insert(v.last().0@, v.last().1));
            if k == v.last().0@ {
                assert(v[v.len() - 1].0@ == k);
                assert(has_key(v, k));
            }
            if has_key(u, k) {
                let i = choose|i: int| 0 <= i < u.len() && #[trigger] u[i].0@ == k;
                assert(v[i].0@ == k);
            }
            if has_key(v, k) && k != v.last().0@ {
                let i = choose|i: int| 0 <= i < v.len() && #[trigger] v[i].0@ == k;
                assert(i < u.len());
                assert(u[i].0@ == k);
            }
        }
        if distinct_keys(v) {
            assert forall|i: int, j: int| 0 <= i < u.len() && 0 <= j < u.len() && i != j implies #[trigger] u[i].0@ != #[trigger] u[j].0@ by {
                assert(u[i] == v[i] && u[j] == v[j]);
            }
            assert forall|i: int| 0 <= i < v.len() implies entry_map(v)[#[trigger] v[i].0@] == v[i].1 by {
                if i < u.len() {
                    assert(u[i] == v[i]);
                    assert(v[i].0@ != v[v.len() - 1].0@);
                }
            }
        }
    }
}

/// Replacing the entry of a key in a list with distinct keys sets that key
/// in the map.
pub proof fn lemma_entry_map_update<V>(v: Seq<(String, V)>, i: int, e: (String, V))
    requires
        distinct_keys(v),
        0 <= i < v.len(),
        v[i].0@ == e.0@,
    ensures
        entry_map(v.update(i, e)) == entry_map(v).insert(e.0@, e.1),
    decreases v.len(),
{
    let w = v.update(i, e);
    let u = v.drop_last();
    if i == v.len() - 1 {
        assert(w.drop_last() =~= u);
        assert(entry_map(w) =~= entry_map(v).insert(e.0@, e.1));
    } else {
        assert(w.drop_last() =~= u.update(i, e));
        assert forall|a: int, b: int| 0 <= a < u.len() && 0 <= b < u.len() && a != b implies #[trigger] u[a].0@ != #[trigger] u[b].0@ by {
            assert(u[a] == v[a] && u[b] == v[b]);
        }
        lemma_entry_map_update(u, i, e);
        assert(v[v.len() - 1].0@ != v[i].0@);
        assert(entry_map(w) =~= entry_map(v).insert(e.0@, e.1));
    }
}

/// Sets `key` to `val`: its entry is replaced where it stands, or a new
/// entry is added at the end.
pub fn upsert<V>(v: &mut Vec<(String, V)>, key: String, val: V)
    requires
        distinct_keys(old(v)@),
    ensures
        distinct_keys(final(v)@),
        entry_map(final(v)@) == entry_map(old(v)@).insert(key@, val),
        has_key(old(v)@, key@) ==> final(v)@.len() == old(v)@.len(),
        !has_key(old(v)@, key@) ==> final(v)@ == old(v)@.push((key, val)),
{
    let mut i: usize = 0;
    while i < v.len()
        invariant
            i <= v@.len(),
            v@ == old(v)@,
            distinct_keys(v@),
            forall|j: int| 0 <= j < i ==> (#[trigger] v@[j]).0@ != key@,
        decreases v.len() - i,
    {
        if v[i].0 == key {
            let ghost before = v@;
            proof {
                lemma_entry_map_update(before, i as int, (key, val));
            }
            v.set(i, (key, val));
            proof {
                assert forall|a: int, b: int| 0 <= a < v@.len() && 0 <= b < v@.len() && a != b implies #[trigger] v@[a].0@ != #[trigger] v@[b].0@ by {
                    assert(before[a].0@ == v@[a].0@ && before[b].0@ == v@[b].0@);
                }
            }
            return;
        }
        i += 1;
    }
    v.push((key, val));
    proof {
        let w = v@;
        assert(w.drop_last() =~= old(v)@);
        assert forall|a: int, b: int| 0 <= a < w.len() && 0 <= b < w.len() && a != b implies #[trigger] w[a].0@ != #[trigger] w[b].0@ by {
            if a < w.len() - 1 && b < w.len() - 1 {
                assert(w[a] == old(v)@[a] && w[b] == old(v)@[b]);
            } else if a < w.len() - 1 {
                assert(w[a] == old(v)@[a]);
            } else {
                assert(w[b] == old(v)@[b]);
            }
        }
    }
}

} // verus!
