//! A calendar: a collection of items keyed by `ItemId`, with a modification
//! stamp per entry and a log of local deletions awaiting push.

use vstd::prelude::*;
use crate::item::{Item, ItemId};
use crate::keyed::{
    HasKey, as_map, key_set, lemma_as_map_contains, lemma_as_map_index, lemma_as_map_remove_at,
    lemma_subrange_push, uniq_keys,
};

verus! {

/// Identifier of a calendar collection; stable across syncs, used to pair a
/// server calendar with its local counterpart.
#[derive(Debug)]
pub struct CalendarId {
    pub value: String,
}

impl View for CalendarId {
    type V = Seq<char>;

    open spec fn view(&self) -> Seq<char> {
        self.value@
    }
}

impl CalendarId {
    pub fn new(value: String) -> (r: Self)
        ensures
            r@ == value@,
    {
        CalendarId { value }
    }

    pub fn as_str(&self) -> (r: &str)
        ensures
            r@ == self@,
    {
        self.value.as_str()
    }
}

impl Clone for CalendarId {
    fn clone(&self) -> (r: Self)
        ensures
            r == *self,
    {
        CalendarId { value: self.value.clone() }
    }
}

impl PartialEq for CalendarId {
    fn eq(&self, other: &CalendarId) -> (r: bool) {
        self.value == other.value
    }
}

impl vstd::std_specs::cmp::PartialEqSpecImpl for CalendarId {
    open spec fn obeys_eq_spec() -> bool {
        true
    }

    open spec fn eq_spec(&self, other: &CalendarId) -> bool {
        self.value@ == other.value@
    }
}

/// One stored item, with the time it was last added or changed here.
#[derive(Debug)]
pub struct Entry {
    pub item: Item,
    pub modified_at: i64,
}

impl HasKey for Entry {
    open spec fn key(&self) -> Seq<char> {
        self.item.key()
    }
}

impl Clone for Entry {
    fn clone(&self) -> (r: Self)
        ensures
            r == *self,
    {
        let r = Entry { item: self.item.clone(), modified_at: self.modified_at };
        proof {
            assert(r == *self);
        }
        r
    }
}

/// A record of a local deletion awaiting push: which id, and when.
#[derive(Debug)]
pub struct Tombstone {
    pub id: ItemId,
    pub deleted_at: i64,
}

impl HasKey for Tombstone {
    open spec fn key(&self) -> Seq<char> {
        self.id@
    }
}

impl Clone for Tombstone {
    fn clone(&self) -> (r: Self)
        ensures
            r == *self,
    {
        let r = Tombstone { id: self.id.clone(), deleted_at: self.deleted_at };
        proof {
            assert(r == *self);
        }
        r
    }
}

/// A mutable collection of items keyed by `ItemId`. Point queries and the
/// two time-windowed queries of the sync algorithm are supported: items
/// modified after a watermark, and ids deleted after a watermark.
#[derive(Debug)]
pub struct Calendar {
    pub entries: Vec<Entry>,
    pub tombstones: Vec<Tombstone>,
}

impl Calendar {
    /// The entries, read as a map from item id to stored entry.
    pub open spec fn entry_map(&self) -> Map<Seq<char>, Entry> {
        as_map(self.entries@)
    }

    /// The deletion log, read as a map from item id to its record.
    pub open spec fn del_map(&self) -> Map<Seq<char>, Tombstone> {
        as_map(self.tombstones@)
    }

    /// The items, read as a map from item id to item.
    pub open spec fn contents(&self) -> Map<Seq<char>, Item> {
        Map::new(
            |k: Seq<char>| self.entry_map().contains_key(k),
            |k: Seq<char>| self.entry_map()[k].item,
        )
    }

    /// Keys are unique, so the maps above are faithful.
    pub open spec fn wf(&self) -> bool {
        uniq_keys(self.entries@) && uniq_keys(self.tombstones@)
    }

    /// Whether the entry at key `k` counts as modified since `since`
    /// (no watermark means every item does).
    pub open spec fn modified_ok(&self, k: Seq<char>, since: Option<i64>) -> bool {
        match since {
            None => true,
            Some(t) => self.entry_map()[k].modified_at > t,
        }
    }

    pub fn new() -> (r: Calendar)
        ensures
            r.wf(),
            r.entry_map() == Map::<Seq<char>, Entry>::empty(),
            r.del_map() == Map::<Seq<char>, Tombstone>::empty(),
    {
        Calendar { entries: Vec::new(), tombstones: Vec::new() }
    }

    /// The position of the entry holding `id`, if any.
    fn index_of_entry(&self, id: &ItemId) -> (r: Option<usize>)
        ensures
            match r {
                Some(i) => i < self.entries@.len() && self.entries@[i as int].key() == id@,
                None => forall|j: int|
                    0 <= j < self.entries@.len() ==> #[trigger] self.entries@[j].key() != id@,
            },
    {
        let mut j: usize = 0;
        while j < self.entries.len()
            invariant
                j <= self.entries@.len(),
                forall|m: int| 0 <= m < j ==> #[trigger] self.entries@[m].key() != id@,
            decreases self.entries@.len() - j,
        {
            if self.entries[j].item.id().eq(id) {
                return Some(j);
            }
            j += 1;
        }
        None
    }

    fn index_of_tombstone(&self, id: &ItemId) -> (r: Option<usize>)
        ensures
            match r {
                Some(i) => i < self.tombstones@.len() && self.tombstones@[i as int].key() == id@,
                None => forall|j: int|
                    0 <= j < self.tombstones@.len() ==> #[trigger] self.tombstones@[j].key() != id@,
            },
    {
        let mut j: usize = 0;
        while j < self.tombstones.len()
            invariant
                j <= self.tombstones@.len(),
                forall|m: int| 0 <= m < j ==> #[trigger] self.tombstones@[m].key() != id@,
            decreases self.tombstones@.len() - j,
        {
            if self.tombstones[j].id.eq(id) {
                return Some(j);
            }
            j += 1;
        }
        None
    }

    /// Add an item, or replace the stored version under the same id; the
    /// entry is stamped with `at`.
    pub fn add_item(&mut self, item: Item, at: i64)
        requires
            old(self).wf(),
        ensures
            final(self).wf(),
            final(self).entry_map() == old(self).entry_map().insert(
                item.key(),
                Entry { item, modified_at: at },
            ),
            final(self).del_map() == old(self).del_map(),
    {
        let ghost pre = self.entries@;
        let k = item.id().clone();
        let found = self.index_of_entry(&k);
        match found {
            Some(i) => {
                let _ = self.entries.remove(i);
                proof {
                    lemma_as_map_remove_at(pre, i as int);
                    assert(pre.remove(i as int) =~= pre.subrange(0, i as int) + pre.subrange(
                        i as int + 1,
                        pre.len() as int,
                    ));
                    lemma_as_map_contains(self.entries@);
                }
            },
            None => {
                proof {
                    lemma_as_map_contains(pre);
                    assert(!as_map(pre).contains_key(k@));
                    assert(as_map(pre).remove(k@) =~= as_map(pre));
                }
            },
        }
        proof {
            // after the removal pass: no entry carries the key, and the map
            // is the old one with the key removed
            assert(as_map(self.entries@) == as_map(pre).remove(k@));
            assert(uniq_keys(self.entries@));
            lemma_as_map_contains(self.entries@);
            assert(forall|j: int|
                0 <= j < self.entries@.len() ==> #[trigger] self.entries@[j].key() != k@);
        }
        let ghost mid = self.entries@;
        self.entries.push(Entry { item, modified_at: at });
        proof {
            assert(self.entries@.drop_last() =~= mid);
            assert(as_map(self.entries@) == as_map(mid).insert(k@, self.entries@.last()));
            assert(as_map(self.entries@) =~= as_map(pre).insert(
                k@,
                Entry { item, modified_at: at },
            ));
            assert forall|a: int, b: int|
                0 <= a < b < self.entries@.len() implies self.entries@[a].key()
                != self.entries@[b].key() by {
                if b == self.entries@.len() - 1 {
                    assert(mid[a].key() != k@);
                }
            }
        }
    }

    /// Remove an item because the sync applied an authoritative removal:
    /// the item is cleared entirely, and no deletion record is kept.
    pub fn remove_item(&mut self, id: &ItemId)
        requires
            old(self).wf(),
        ensures
            final(self).wf(),
            final(self).entry_map() == old(self).entry_map().remove(id@),
            final(self).del_map() == old(self).del_map(),
    {
        let ghost pre = self.entries@;
        match self.index_of_entry(id) {
            Some(i) => {
                let _ = self.entries.remove(i);
                proof {
                    lemma_as_map_remove_at(pre, i as int);
                    assert(pre.remove(i as int) =~= pre.subrange(0, i as int) + pre.subrange(
                        i as int + 1,
                        pre.len() as int,
                    ));
                }
            },
            None => {
                proof {
                    lemma_as_map_contains(pre);
                    assert(!as_map(pre).contains_key(id@));
                    assert(as_map(pre).remove(id@) =~= as_map(pre));
                }
            },
        }
    }

    /// Delete an item at the user's request: the item leaves the calendar
    /// and a deletion record stamped `at` awaits the next push.
    pub fn delete_item(&mut self, id: &ItemId, at: i64)
        requires
            old(self).wf(),
        ensures
            final(self).wf(),
            final(self).entry_map() == old(self).entry_map().remove(id@),
            final(self).del_map() == old(self).del_map().insert(
                id@,
                Tombstone { id: *id, deleted_at: at },
            ),
    {
        self.remove_item(id);
        let ghost pre = self.tombstones@;
        match self.index_of_tombstone(id) {
            Some(i) => {
                let _ = self.tombstones.remove(i);
                proof {
                    lemma_as_map_remove_at(pre, i as int);
                    assert(pre.remove(i as int) =~= pre.subrange(0, i as int) + pre.subrange(
                        i as int + 1,
                        pre.len() as int,
                    ));
                }
            },
            None => {
                proof {
                    lemma_as_map_contains(pre);
                    assert(!as_map(pre).contains_key(id@));
                    assert(as_map(pre).remove(id@) =~= as_map(pre));
                }
            },
        }
        proof {
            assert(as_map(self.tombstones@) == as_map(pre).remove(id@));
            lemma_as_map_contains(self.tombstones@);
            assert(forall|j: int|
                0 <= j < self.tombstones@.len() ==> #[trigger] self.tombstones@[j].key() != id@);
        }
        let ghost mid = self.tombstones@;
        let stone = Tombstone { id: id.clone(), deleted_at: at };
        proof {
            assert(stone == (Tombstone { id: *id, deleted_at: at }));
        }
        self.tombstones.push(stone);
        proof {
            assert(self.tombstones@.drop_last() =~= mid);
            assert(as_map(self.tombstones@) =~= as_map(pre).insert(
                id@,
                Tombstone { id: *id, deleted_at: at },
            ));
            assert forall|a: int, b: int|
                0 <= a < b < self.tombstones@.len() implies self.tombstones@[a].key()
                != self.tombstones@[b].key() by {
                if b == self.tombstones@.len() - 1 {
                    assert(mid[a].key() != id@);
                }
            }
        }
    }

    /// The stored item under an id, if any.
    pub fn get_item(&self, id: &ItemId) -> (r: Option<&Item>)
        requires
            self.wf(),
        ensures
            match r {
                Some(item) => self.entry_map().contains_key(id@) && *item
                    == self.entry_map()[id@].item,
                None => !self.entry_map().contains_key(id@),
            },
    {
        let found = self.index_of_entry(id);
        proof {
            lemma_as_map_contains(self.entries@);
        }
        match found {
            Some(i) => {
                proof {
                    lemma_as_map_index(self.entries@, i as int);
                }
                Some(&self.entries[i].item)
            },
            None => None,
        }
    }

    /// Every id stored here, one per entry, in storage order.
    pub fn get_item_ids(&self) -> (r: Vec<ItemId>)
        requires
            self.wf(),
        ensures
            r@.len() == self.entries@.len(),
            forall|j: int| 0 <= j < r@.len() ==> #[trigger] r@[j]@ == self.entries@[j].key(),
    {
        let mut r: Vec<ItemId> = Vec::new();
        let mut j: usize = 0;
        while j < self.entries.len()
            invariant
                j <= self.entries@.len(),
                r@.len() == j,
                forall|m: int| 0 <= m < j ==> #[trigger] r@[m]@ == self.entries@[m].key(),
            decreases self.entries@.len() - j,
        {
            r.push(self.entries[j].item.id().clone());
            j += 1;
        }
        r
    }

    /// Every stored item, one per entry, in storage order.
    pub fn get_items(&self) -> (r: Vec<Item>)
        requires
            self.wf(),
        ensures
            r@.len() == self.entries@.len(),
            forall|j: int| 0 <= j < r@.len() ==> #[trigger] r@[j] == self.entries@[j].item,
    {
        let mut r: Vec<Item> = Vec::new();
        let mut j: usize = 0;
        while j < self.entries.len()
            invariant
                j <= self.entries@.len(),
                r@.len() == j,
                forall|m: int| 0 <= m < j ==> #[trigger] r@[m] == self.entries@[m].item,
            decreases self.entries@.len() - j,
        {
            r.push(self.entries[j].item.clone());
            j += 1;
        }
        r
    }

    /// The ids of `known` that are absent from this calendar: with `known`
    /// listing another store's ids, these are the deletions this store has
    /// seen and the other has not.
    pub fn find_deletions_from(&self, known: &Vec<ItemId>) -> (r: Vec<ItemId>)
        requires
            self.wf(),
        ensures
            forall|k: Seq<char>|
                key_set(r@).contains(k) <==> (key_set(known@).contains(k)
                    && !self.entry_map().contains_key(k)),
    {
        proof {
            lemma_as_map_contains(self.entries@);
        }
        let mut r: Vec<ItemId> = Vec::new();
        let mut j: usize = 0;
        while j < known.len()
            invariant
                self.wf(),
                j <= known@.len(),
                forall|k: Seq<char>|
                    key_set(r@).contains(k) <==> (key_set(known@.subrange(0, j as int)).contains(k)
                        && !self.entry_map().contains_key(k)),
            decreases known@.len() - j,
        {
            let ghost rpre = r@;
            let absent = match self.index_of_entry(&known[j]) {
                Some(_) => false,
                None => true,
            };
            proof {
                lemma_as_map_contains(self.entries@);
            }
            if absent {
                r.push(known[j].clone());
                proof {
                    crate::keyed::lemma_key_set_push(rpre, r@.last());
                }
            }
            proof {
                lemma_subrange_push(known@, j as int);
                crate::keyed::lemma_key_set_push(known@.subrange(0, j as int), known@[j as int]);
                assert(forall|k: Seq<char>|
                    key_set(r@).contains(k) <==> (key_set(
                        known@.subrange(0, j as int + 1),
                    ).contains(k) && !self.entry_map().contains_key(k)));
            }
            j += 1;
        }
        proof {
            assert(known@.subrange(0, known@.len() as int) =~= known@);
        }
        r
    }

    /// The items modified strictly after `since` (all items when `since` is
    /// absent, i.e. on a first sync), optionally excluding one uid.
    pub fn get_items_modified_since(&self, since: Option<i64>, exclude_uid: Option<&String>) -> (r:
        Vec<Item>)
        requires
            self.wf(),
        ensures
            uniq_keys(r@),
            forall|k: Seq<char>|
                #[trigger] as_map(r@).contains_key(k) <==> (self.entry_map().contains_key(k)
                    && self.modified_ok(k, since) && (match exclude_uid {
                    Some(u) => self.entry_map()[k].item.spec_uid() != u@,
                    None => true,
                })),
            forall|k: Seq<char>|
                #[trigger] as_map(r@).contains_key(k) ==> as_map(r@)[k]
                    == self.entry_map()[k].item,
    {
        let mut r: Vec<Item> = Vec::new();
        let mut j: usize = 0;
        while j < self.entries.len()
            invariant
                self.wf(),
                j <= self.entries@.len(),
                uniq_keys(r@),
                forall|k: Seq<char>|
                    #[trigger] as_map(r@).contains_key(k) <==> (as_map(
                        self.entries@.subrange(0, j as int),
                    ).contains_key(k) && self.modified_ok(k, since) && (match exclude_uid {
                        Some(u) => self.entry_map()[k].item.spec_uid() != u@,
                        None => true,
                    })),
                forall|k: Seq<char>|
                    #[trigger] as_map(r@).contains_key(k) ==> as_map(r@)[k]
                        == self.entry_map()[k].item,
            decreases self.entries@.len() - j,
        {
            let ghost s = self.entries@;
            let ghost pj = s.subrange(0, j as int);
            let ghost pj1 = s.subrange(0, j as int + 1);
            let e = &self.entries[j];
            proof {
                lemma_as_map_index(s, j as int);
                lemma_subrange_push(s, j as int);
                assert(pj1.drop_last() =~= pj);
                assert(pj1.last() == s[j as int]);
                assert(as_map(pj1) == as_map(pj).insert(s[j as int].key(), s[j as int]));
                lemma_as_map_contains(pj);
                lemma_as_map_contains(pj1);
                lemma_as_map_contains(r@);
            }
            let keep_time = match since {
                None => true,
                Some(t) => e.modified_at > t,
            };
            let keep_uid = match exclude_uid {
                Some(u) => !str_eq(e.item.uid(), u.as_str()),
                None => true,
            };
            proof {
                assert((keep_time && keep_uid) == (self.modified_ok(e.item.key(), since)
                    && (match exclude_uid {
                    Some(u) => self.entry_map()[e.item.key()].item.spec_uid() != u@,
                    None => true,
                })));
            }
            if keep_time && keep_uid {
                let ghost rpre = r@;
                r.push(e.item.clone());
                proof {
                    assert(r@.drop_last() =~= rpre);
                    assert(r@.last() == e.item);
                    assert(as_map(r@) == as_map(rpre).insert(e.item.key(), e.item));
                    lemma_as_map_contains(rpre);
                    assert forall|a: int, b: int|
                        0 <= a < b < r@.len() implies r@[a].key() != r@[b].key() by {
                        if b == r@.len() - 1 {
                            // an entry with this key in the prefix would mean a
                            // duplicate key among the calendar entries
                            if r@[a].key() == r@[b].key() {
                                assert(as_map(rpre).contains_key(r@[a].key()));
                            }
                        }
                    }
                    lemma_as_map_contains(r@);
                }
            }
            j += 1;
        }
        proof {
            assert(self.entries@.subrange(0, self.entries@.len() as int) =~= self.entries@);
        }
        r
    }

    /// The ids deleted locally strictly after `since`.
    pub fn get_items_deleted_since(&self, since: i64) -> (r: Vec<ItemId>)
        requires
            self.wf(),
        ensures
            forall|k: Seq<char>|
                key_set(r@).contains(k) <==> (self.del_map().contains_key(k)
                    && self.del_map()[k].deleted_at > since),
    {
        let mut r: Vec<ItemId> = Vec::new();
        let mut j: usize = 0;
        while j < self.tombstones.len()
            invariant
                self.wf(),
                j <= self.tombstones@.len(),
                forall|k: Seq<char>|
                    key_set(r@).contains(k) <==> (as_map(
                        self.tombstones@.subrange(0, j as int),
                    ).contains_key(k) && self.del_map()[k].deleted_at > since),
            decreases self.tombstones@.len() - j,
        {
            let t = &self.tombstones[j];
            proof {
                lemma_as_map_index(self.tombstones@, j as int);
                lemma_subrange_push(self.tombstones@, j as int);
                lemma_as_map_contains(self.tombstones@.subrange(0, j as int));
                lemma_as_map_contains(self.tombstones@.subrange(0, j as int + 1));
            }
            if t.deleted_at > since {
                let ghost rpre = r@;
                r.push(t.id.clone());
                proof {
                    crate::keyed::lemma_key_set_push(rpre, r@.last());
                }
            }
            j += 1;
        }
        proof {
            assert(self.tombstones@.subrange(0, self.tombstones@.len() as int) =~= self.tombstones@);
        }
        r
    }
}

/// Whether two string slices hold the same text.
pub fn str_eq(a: &str, b: &str) -> (r: bool)
    ensures
        r == (a@ == b@),
{
    let a_owned: String = a.to_owned();
    let b_owned: String = b.to_owned();
    a_owned.eq(&b_owned)
}

} // verus!
