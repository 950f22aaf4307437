//! Sequences of key-carrying values, read as finite maps.
//!
//! Calendars, sources and diff lists all store their entries in vectors whose
//! elements carry a textual key (an item id or a calendar id). Their contracts
//! speak of the map such a vector denotes; the lemmas here connect vector
//! operations to map operations.

use vstd::prelude::*;

verus! {

/// A value stored in a keyed collection; its key is a character sequence.
pub trait HasKey {
    spec fn key(&self) -> Seq<char>;
}

/// The map a sequence of keyed values denotes. Later entries shadow earlier
/// ones; the library keeps its sequences free of duplicate keys.
pub open spec fn as_map<T: HasKey>(s: Seq<T>) -> Map<Seq<char>, T>
    decreases s.len(),
{
    if s.len() == 0 {
        Map::empty()
    } else {
        as_map(s.drop_last()).insert(s.last().key(), s.last())
    }
}

/// No two entries of the sequence share a key.
pub open spec fn uniq_keys<T: HasKey>(s: Seq<T>) -> bool {
    forall|i: int, j: int| 0 <= i < j < s.len() ==> s[i].key() != s[j].key()
}

/// A key is in the map exactly when some entry carries it.
pub proof fn lemma_as_map_contains<T: HasKey>(s: Seq<T>)
    ensures
        forall|k: Seq<char>|
            #[trigger] as_map(s).contains_key(k) <==> (exists|i: int|
                0 <= i < s.len() && #[trigger] s[i].key() == k),
    decreases s.len(),
{
    if s.len() > 0 {
        let s0 = s.drop_last();
        lemma_as_map_contains(s0);
        assert(as_map(s) == as_map(s0).insert(s.last().key(), s.last()));
        assert forall|k: Seq<char>| #[trigger] as_map(s).contains_key(k) implies (exists|i: int|
            0 <= i < s.len() && #[trigger] s[i].key() == k) by {
            if k == s.last().key() {
                assert(s[s.len() - 1].key() == k);
            } else {
                assert(as_map(s0).contains_key(k));
                let i = choose|i: int| 0 <= i < s0.len() && #[trigger] s0[i].key() == k;
                assert(s[i] == s0[i]);
                assert(s[i].key() == k);
            }
        }
        assert forall|k: Seq<char>| (exists|i: int|
            0 <= i < s.len() && #[trigger] s[i].key() == k) implies #[trigger] as_map(
            s,
        ).contains_key(k) by {
            let i = choose|i: int| 0 <= i < s.len() && #[trigger] s[i].key() == k;
            if i < s.len() - 1 {
                assert(s0[i].key() == k);
                assert(as_map(s0).contains_key(k));
            }
        }
    }
}

/// With unique keys, the entry at an index is what the map holds at its key.
pub proof fn lemma_as_map_index<T: HasKey>(s: Seq<T>, i: int)
    requires
        uniq_keys(s),
        0 <= i < s.len(),
    ensures
        as_map(s).contains_key(s[i].key()),
        as_map(s)[s[i].key()] == s[i],
    decreases s.len(),
{
    if i == s.len() - 1 {
    } else {
        assert(uniq_keys(s.drop_last()));
        lemma_as_map_index(s.drop_last(), i);
        assert(s.drop_last()[i] == s[i]);
        assert(s[i].key() != s.last().key());
    }
}

/// Removing the entry at an index from the sequence removes its key from the map.
pub proof fn lemma_as_map_remove_at<T: HasKey>(s: Seq<T>, i: int)
    requires
        uniq_keys(s),
        0 <= i < s.len(),
    ensures
        as_map(s.subrange(0, i) + s.subrange(i + 1, s.len() as int)) == as_map(s).remove(
            s[i].key(),
        ),
        uniq_keys(s.subrange(0, i) + s.subrange(i + 1, s.len() as int)),
    decreases s.len(),
{
    let t = s.subrange(0, i) + s.subrange(i + 1, s.len() as int);
    assert(uniq_keys(t)) by {
        assert forall|a: int, b: int| 0 <= a < b < t.len() implies t[a].key() != t[b].key() by {
            let a0: int = if a < i { a } else { a + 1 };
            let b0: int = if b < i { b } else { b + 1 };
            assert(t[a] == s[a0] && t[b] == s[b0]);
        }
    }
    if i == s.len() - 1 {
        assert(t =~= s.drop_last());
        lemma_as_map_contains(s.drop_last());
        assert(!as_map(s.drop_last()).contains_key(s.last().key()));
        assert(as_map(t) =~= as_map(s).remove(s[i].key()));
    } else {
        let s0 = s.drop_last();
        assert(uniq_keys(s0));
        lemma_as_map_remove_at(s0, i);
        let t0 = s0.subrange(0, i) + s0.subrange(i + 1, s0.len() as int);
        assert(t =~= t0.push(s.last()));
        assert(t.drop_last() =~= t0);
        assert(t.last() == s.last());
        assert(as_map(t) == as_map(t0).insert(s.last().key(), s.last()));
        assert(s[i].key() != s.last().key());
        assert(as_map(t) =~= as_map(s).remove(s[i].key()));
    }
}

/// The set of keys the entries of a sequence carry.
pub open spec fn key_set<T: HasKey>(s: Seq<T>) -> Set<Seq<char>> {
    Set::new(|k: Seq<char>| exists|i: int| 0 <= i < s.len() && #[trigger] s[i].key() == k)
}

/// Appending an entry adds exactly its key to the key set.
pub proof fn lemma_key_set_push<T: HasKey>(s: Seq<T>, x: T)
    ensures
        key_set(s.push(x)) == key_set(s).insert(x.key()),
{
    let t = s.push(x);
    assert forall|k: Seq<char>| key_set(t).contains(k) implies key_set(s).insert(x.key()).contains(
        k,
    ) by {
        let i = choose|i: int| 0 <= i < t.len() && #[trigger] t[i].key() == k;
        if i < s.len() {
            assert(s[i].key() == k);
        }
    }
    assert forall|k: Seq<char>| key_set(s).insert(x.key()).contains(k) implies key_set(t).contains(
        k,
    ) by {
        if k == x.key() {
            assert(t[s.len() as int].key() == k);
        } else {
            let i = choose|i: int| 0 <= i < s.len() && #[trigger] s[i].key() == k;
            assert(t[i].key() == k);
        }
    }
    assert(key_set(t) =~= key_set(s).insert(x.key()));
}

/// The map stores every value under its own key.
pub proof fn lemma_as_map_key_match<T: HasKey>(s: Seq<T>)
    ensures
        forall|k: Seq<char>|
            #[trigger] as_map(s).contains_key(k) ==> as_map(s)[k].key() == k,
    decreases s.len(),
{
    if s.len() > 0 {
        lemma_as_map_key_match(s.drop_last());
        assert forall|k: Seq<char>| #[trigger] as_map(s).contains_key(k) implies as_map(
            s,
        )[k].key() == k by {
            if k != s.last().key() {
                assert(as_map(s.drop_last()).contains_key(k));
            }
        }
    }
}

/// A sequence's key set and its map agree on membership.
pub proof fn lemma_key_set_as_map<T: HasKey>(s: Seq<T>)
    ensures
        forall|k: Seq<char>| #[trigger] key_set(s).contains(k) <==> as_map(s).contains_key(k),
{
    lemma_as_map_contains(s);
}

/// Extending a prefix by one element, as the loops over vectors do.
pub proof fn lemma_subrange_push<T>(s: Seq<T>, i: int)
    requires
        0 <= i < s.len(),
    ensures
        s.subrange(0, i + 1) == s.subrange(0, i).push(s[i]),
{
    assert(s.subrange(0, i + 1) =~= s.subrange(0, i).push(s[i]));
}

} // verus!
