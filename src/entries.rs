//! Named entries kept in insertion order, each name at most once: the
//! representation of the descriptor's group and target tables.

use vstd::prelude::*;

verus! {

/// The views of named entries.
pub open spec fn entry_views<T: View>(s: Seq<(String, T)>) -> Seq<(Seq<char>, T::V)> {
    s.map_values(|e: (String, T)| (e.0@, e.1@))
}

/// No name occurs twice.
pub open spec fn keys_unique<V>(entries: Seq<(Seq<char>, V)>) -> bool {
    forall|i: int, j: int| 0 <= i < j < entries.len() ==> #[trigger] entries[i].0 != #[trigger] entries[j].0
}

pub open spec fn has_key<V>(entries: Seq<(Seq<char>, V)>, key: Seq<char>) -> bool {
    exists|i: int| 0 <= i < entries.len() && #[trigger] entries[i].0 == key
}

/// Inserting under a name: an entry of that name gets the new value in its
/// place; otherwise the entry is appended.
pub open spec fn upsert<V>(entries: Seq<(Seq<char>, V)>, key: Seq<char>, value: V) -> Seq<(Seq<char>, V)> {
    if has_key(entries, key) {
        let i = choose|i: int| 0 <= i < entries.len() && #[trigger] entries[i].0 == key;
        entries.update(i, (key, value))
    } else {
        entries.push((key, value))
    }
}

/// Inserts `value` under `key`, replacing the value of an entry of that name.
pub fn upsert_entry<T: View>(entries: &mut Vec<(String, T)>, key: String, value: T)
    requires
        keys_unique(entry_views(old(entries)@)),
    ensures
        entry_views(final(entries)@) == upsert(entry_views(old(entries)@), key@, value@),
        keys_unique(entry_views(final(entries)@)),
        forall|i: int|
            0 <= i < final(entries)@.len() && (#[trigger] final(entries)@[i]).0@ == key@
                ==> final(entries)@[i].1 == value,
{
    let ghost old_views = entry_views(entries@);
    let mut i: usize = 0;
    while i < entries.len() && entries[i].0 != key
        invariant
            i <= entries.len(),
            entry_views(entries@) == old_views,
            keys_unique(old_views),
            forall|j: int| 0 <= j < i ==> #[trigger] old_views[j].0 != key@,
        decreases entries.len() - i,
    {
        assert(old_views[i as int].0 == entries@[i as int].0@);
        i += 1;
    }
    if i < entries.len() {
        proof {
            assert(old_views[i as int].0 == key@);
            let c = choose|c: int| 0 <= c < old_views.len() && #[trigger] old_views[c].0 == key@;
            assert(c == i);
        }
        let ghost v = value;
        entries.set(i, (key, value));
        assert(entry_views(entries@) =~= old_views.update(i as int, (key@, value@)));
        assert forall|j: int| 0 <= j < entries@.len() && (#[trigger] entries@[j]).0@ == key@ implies entries@[j].1 == v by {
            if j != i {
                assert(old_views[j].0 == entries@[j].0@);
            }
        }
    } else {
        let ghost v = value;
        let ghost n = entries@.len();
        entries.push((key, value));
        assert(entry_views(entries@) =~= old_views.push((key@, value@)));
        assert forall|j: int| 0 <= j < entries@.len() && (#[trigger] entries@[j]).0@ == key@ implies entries@[j].1 == v by {
            if j < n {
                assert(old_views[j].0 == entries@[j].0@);
            }
        }
    }
}

} // verus!

verus! {

/// Every entry after an upsert is the new one or an entry from before.
pub proof fn lemma_upsert_entries<V>(entries: Seq<(Seq<char>, V)>, key: Seq<char>, value: V)
    ensures
        forall|k: int|
            0 <= k < upsert(entries, key, value).len() ==> #[trigger] upsert(entries, key, value)[k]
                == (key, value) || exists|j: int|
                0 <= j < entries.len() && upsert(entries, key, value)[k] == #[trigger] entries[j],
{
    let u = upsert(entries, key, value);
    assert forall|k: int| 0 <= k < u.len() implies #[trigger] u[k] == (key, value) || exists|j: int|
        0 <= j < entries.len() && u[k] == #[trigger] entries[j] by {
        if u[k] != (key, value) {
            assert(u[k] == entries[k]);
        }
    }
}

/// An upsert keeps every name and adds its own.
pub proof fn lemma_upsert_keys<V>(entries: Seq<(Seq<char>, V)>, key: Seq<char>, value: V)
    ensures
        has_key(upsert(entries, key, value), key),
        forall|name: Seq<char>| has_key(entries, name) ==> #[trigger] has_key(upsert(entries, key, value), name),
{
    let u = upsert(entries, key, value);
    if has_key(entries, key) {
        let i = choose|i: int| 0 <= i < entries.len() && #[trigger] entries[i].0 == key;
        assert(u[i].0 == key);
    } else {
        assert(u[entries.len() as int].0 == key);
    }
    assert forall|name: Seq<char>| has_key(entries, name) implies #[trigger] has_key(u, name) by {
        let j = choose|j: int| 0 <= j < entries.len() && #[trigger] entries[j].0 == name;
        assert(u[j].0 == name);
    }
}

} // verus!
