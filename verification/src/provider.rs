//! The sync orchestrator: one server source and one local source are merged
//! calendar by calendar, with a fixed server-wins conflict policy, and the
//! watermark advances only after a whole successful pass.

use vstd::prelude::*;
use crate::calendar::{Calendar, Entry};
use crate::item::{Item, ItemId};
use crate::keyed::{
    as_map, key_set, lemma_as_map_contains, lemma_as_map_key_match, lemma_key_set_as_map, lemma_key_set_push,
    lemma_subrange_push, uniq_keys, HasKey,
};
use crate::source::{now_timestamp, LocalSource, NamedCalendar, Source};

verus! {

/// Why a sync pass failed as a whole. The in-memory sources here never fail;
/// the variant stands for the transport failures a remote collaborator
/// surfaces, which abort the pass before anything is committed.
#[derive(Clone, Copy, Debug)]
pub enum SyncError {
    RemoteUnavailable,
}

/// The ids of a calendar's items counted as modified since the watermark
/// (every id, when there is no watermark).
pub open spec fn mod_set(c: Calendar, w: Option<i64>) -> Set<Seq<char>> {
    c.entry_map().dom().filter(|k: Seq<char>| c.modified_ok(k, w))
}

/// Ids deleted on the server side: present locally but absent on the server.
/// On a first sync nothing counts as remotely deleted.
pub open spec fn remote_del_set(s: Calendar, l: Calendar, w: Option<i64>) -> Set<Seq<char>> {
    match w {
        None => Set::empty(),
        Some(_) => l.entry_map().dom().difference(s.entry_map().dom()),
    }
}

/// Everything the pass removes from the local calendar: remote deletions,
/// plus every server-modified id (those are re-added with the server's
/// content, so the server wins even on a conflict).
pub open spec fn local_removal_set(s: Calendar, l: Calendar, w: Option<i64>) -> Set<Seq<char>> {
    remote_del_set(s, l, w).union(mod_set(s, w))
}

/// Ids the local store deleted since the watermark (none on a first sync).
pub open spec fn local_del_set(l: Calendar, w: Option<i64>) -> Set<Seq<char>> {
    match w {
        None => Set::empty(),
        Some(t) => l.del_map().dom().filter(|k: Seq<char>| l.del_map()[k].deleted_at > t),
    }
}

/// Local deletions that survive the conflict check: a deletion whose id the
/// server also modified is discarded, never pushed.
pub open spec fn server_removal_set(s: Calendar, l: Calendar, w: Option<i64>) -> Set<Seq<char>> {
    local_del_set(l, w).difference(mod_set(s, w))
}

/// Local modifications that survive the conflict check and are pushed to the
/// server: locally dirty ids not touched by a remote deletion or a remote
/// modification.
pub open spec fn local_push_set(s: Calendar, l: Calendar, w: Option<i64>) -> Set<Seq<char>> {
    mod_set(l, w).difference(local_removal_set(s, l, w))
}

/// The local calendar after one merge pass: survivors keep their entries;
/// every server-modified item arrives with the server's content, stamped
/// `now`.
pub open spec fn merged_local_entries(s: Calendar, l: Calendar, w: Option<i64>, now: i64) -> Map<
    Seq<char>,
    Entry,
> {
    Map::new(
        |k: Seq<char>|
            (l.entry_map().contains_key(k) && !local_removal_set(s, l, w).contains(k)) || mod_set(
                s,
                w,
            ).contains(k),
        |k: Seq<char>|
            if mod_set(s, w).contains(k) {
                Entry { item: s.entry_map()[k].item, modified_at: now }
            } else {
                l.entry_map()[k]
            },
    )
}

/// The server calendar after one merge pass: surviving local deletions are
/// applied, and surviving local modifications arrive with the local content,
/// stamped `now`.
pub open spec fn merged_server_entries(s: Calendar, l: Calendar, w: Option<i64>, now: i64) -> Map<
    Seq<char>,
    Entry,
> {
    Map::new(
        |k: Seq<char>|
            (s.entry_map().contains_key(k) && !server_removal_set(s, l, w).contains(k))
                || local_push_set(s, l, w).contains(k),
        |k: Seq<char>|
            if local_push_set(s, l, w).contains(k) {
                Entry { item: l.entry_map()[k].item, modified_at: now }
            } else {
                s.entry_map()[k]
            },
    )
}

/// What one merge pass leaves of the local calendar.
pub open spec fn local_merged(
    pre_s: Calendar,
    pre_l: Calendar,
    post: Calendar,
    w: Option<i64>,
    now: i64,
) -> bool {
    post.wf() && post.entry_map() == merged_local_entries(pre_s, pre_l, w, now) && post.del_map()
        == pre_l.del_map()
}

/// What one merge pass leaves of the server calendar.
pub open spec fn server_merged(
    pre_s: Calendar,
    pre_l: Calendar,
    post: Calendar,
    w: Option<i64>,
    now: i64,
) -> bool {
    post.wf() && post.entry_map() == merged_server_entries(pre_s, pre_l, w, now) && post.del_map()
        == pre_s.del_map()
}

/// The map a list of items denotes once stored, every entry stamped `at`.
pub open spec fn entry_map_of(s: Seq<Item>, at: i64) -> Map<Seq<char>, Entry> {
    Map::new(
        |k: Seq<char>| as_map(s).contains_key(k),
        |k: Seq<char>| Entry { item: as_map(s)[k], modified_at: at },
    )
}

/// Whether some item of the list carries this id.
fn contains_id(items: &Vec<Item>, id: &ItemId) -> (r: bool)
    ensures
        r == key_set(items@).contains(id@),
{
    let mut j: usize = 0;
    while j < items.len()
        invariant
            j <= items@.len(),
            forall|m: int| 0 <= m < j ==> #[trigger] items@[m].key() != id@,
        decreases items@.len() - j,
    {
        if items[j].id().eq(id) {
            proof {
                assert(items@[j as int].key() == id@);
            }
            return true;
        }
        j += 1;
    }
    proof {
        assert(!key_set(items@).contains(id@));
    }
    false
}

/// Move every item of the list into the calendar, stamping each `at`;
/// ownership transfers and the list is drained.
pub fn move_to_calendar(items: &mut Vec<Item>, calendar: &mut Calendar, at: i64)
    requires
        old(calendar).wf(),
        uniq_keys(old(items)@),
    ensures
        final(items)@ == Seq::<Item>::empty(),
        final(calendar).wf(),
        final(calendar).entry_map() == old(calendar).entry_map().union_prefer_right(
            entry_map_of(old(items)@, at),
        ),
        final(calendar).del_map() == old(calendar).del_map(),
{
    let ghost all = items@;
    let ghost m0 = calendar.entry_map();
    let ghost mut done_len: int = 0;
    proof {
        assert(all.subrange(0, 0) =~= Seq::<Item>::empty());
        assert(entry_map_of(all.subrange(0, 0), at) =~= Map::<Seq<char>, Entry>::empty());
        assert(calendar.entry_map() =~= m0.union_prefer_right(
            entry_map_of(all.subrange(0, 0), at),
        ));
    }
    while items.len() > 0
        invariant
            calendar.wf(),
            0 <= done_len <= all.len(),
            items@ =~= all.subrange(done_len, all.len() as int),
            calendar.entry_map() == m0.union_prefer_right(
                entry_map_of(all.subrange(0, done_len), at),
            ),
            calendar.del_map() == old(calendar).del_map(),
        decreases items@.len(),
    {
        let ghost pre_items = items@;
        let ghost dl = done_len;
        let item = items.remove(0);
        proof {
            assert(item == all[dl]);
            assert(items@ =~= all.subrange(dl + 1, all.len() as int));
        }
        let ghost mpre = calendar.entry_map();
        calendar.add_item(item, at);
        proof {
            lemma_subrange_push(all, dl);
            let p0 = all.subrange(0, dl);
            let p1 = all.subrange(0, dl + 1);
            assert(p1.drop_last() =~= p0);
            assert(as_map(p1) == as_map(p0).insert(all[dl].key(), all[dl]));
            assert(calendar.entry_map() =~= m0.union_prefer_right(entry_map_of(p1, at)));
        }
        proof {
            done_len = done_len + 1;
        }
    }
    proof {
        assert(all.subrange(0, done_len) =~= all);
    }
}

/// Remove every listed id from the calendar; this applies an authoritative
/// removal, so no deletion record is kept.
pub fn remove_from_calendar(ids: &Vec<ItemId>, calendar: &mut Calendar)
    requires
        old(calendar).wf(),
    ensures
        final(calendar).wf(),
        final(calendar).entry_map() == old(calendar).entry_map().remove_keys(key_set(ids@)),
        final(calendar).del_map() == old(calendar).del_map(),
{
    let ghost m0 = calendar.entry_map();
    let mut j: usize = 0;
    proof {
        assert(key_set(ids@.subrange(0, 0)) =~= Set::<Seq<char>>::empty());
        assert(calendar.entry_map() =~= m0.remove_keys(key_set(ids@.subrange(0, 0))));
    }
    while j < ids.len()
        invariant
            calendar.wf(),
            j <= ids@.len(),
            calendar.entry_map() == m0.remove_keys(key_set(ids@.subrange(0, j as int))),
            calendar.del_map() == old(calendar).del_map(),
        decreases ids@.len() - j,
    {
        calendar.remove_item(&ids[j]);
        proof {
            lemma_subrange_push(ids@, j as int);
            lemma_key_set_push(ids@.subrange(0, j as int), ids@[j as int]);
            assert(calendar.entry_map() =~= m0.remove_keys(
                key_set(ids@.subrange(0, j as int + 1)),
            ));
        }
        j += 1;
    }
    proof {
        assert(ids@.subrange(0, ids@.len() as int) =~= ids@);
    }
}

/// One calendar pair's merge step, at time `now`, against the watermark
/// `last_sync`: pull remote deletions and modifications, then push the local
/// deletions and modifications that survive the server-wins conflict checks.
pub fn sync_calendar_pair(
    cal_server: &mut Calendar,
    cal_local: &mut Calendar,
    last_sync: Option<i64>,
    now: i64,
)
    requires
        old(cal_server).wf(),
        old(cal_local).wf(),
    ensures
        server_merged(*old(cal_server), *old(cal_local), *final(cal_server), last_sync, now),
        local_merged(*old(cal_server), *old(cal_local), *final(cal_local), last_sync, now),
{
    let ghost s0 = *cal_server;
    let ghost l0 = *cal_local;

    // Pull remote changes: deletions first (none on a first sync) ...
    let mut tasks_id_to_remove_from_local: Vec<ItemId> = match last_sync {
        None => Vec::new(),
        Some(_) => {
            let local_ids = cal_local.get_item_ids();
            proof {
                lemma_key_set_as_map(cal_local.entries@);
                assert forall|k: Seq<char>| key_set(local_ids@).contains(k) implies key_set(
                    cal_local.entries@,
                ).contains(k) by {
                    let i = choose|i: int|
                        0 <= i < local_ids@.len() && #[trigger] local_ids@[i].key() == k;
                    assert(cal_local.entries@[i].key() == k);
                }
                assert forall|k: Seq<char>| key_set(cal_local.entries@).contains(k) implies key_set(
                    local_ids@,
                ).contains(k) by {
                    let i = choose|i: int|
                        0 <= i < cal_local.entries@.len() && #[trigger] cal_local.entries@[i].key()
                            == k;
                    assert(local_ids@[i].key() == k);
                }
                assert(key_set(local_ids@) =~= l0.entry_map().dom());
            }
            cal_server.find_deletions_from(&local_ids)
        },
    };
    proof {
        assert(key_set(tasks_id_to_remove_from_local@) =~= remote_del_set(s0, l0, last_sync));
    }

    // ... then every item the server modified since the watermark. A server
    // modification is applied locally even over a local edit: the server
    // always wins, so its id joins the local removals and its content the
    // local additions.
    let server_mod: Vec<Item> = cal_server.get_items_modified_since(last_sync, None);
    proof {
        lemma_key_set_as_map(server_mod@);
        assert(key_set(server_mod@) =~= mod_set(s0, last_sync));
    }
    let mut tasks_to_add_to_local: Vec<Item> = Vec::new();
    let mut j: usize = 0;
    let ghost rl0 = tasks_id_to_remove_from_local@;
    while j < server_mod.len()
        invariant
            j <= server_mod@.len(),
            tasks_to_add_to_local@ =~= server_mod@.subrange(0, j as int),
            key_set(tasks_id_to_remove_from_local@) =~= key_set(rl0).union(
                key_set(server_mod@.subrange(0, j as int)),
            ),
        decreases server_mod@.len() - j,
    {
        let ghost rpre = tasks_id_to_remove_from_local@;
        tasks_id_to_remove_from_local.push(server_mod[j].id().clone());
        tasks_to_add_to_local.push(server_mod[j].clone());
        proof {
            lemma_subrange_push(server_mod@, j as int);
            lemma_key_set_push(rpre, tasks_id_to_remove_from_local@.last());
            lemma_key_set_push(server_mod@.subrange(0, j as int), server_mod@[j as int]);
            assert(tasks_to_add_to_local@ =~= server_mod@.subrange(0, j as int + 1));
            assert(key_set(tasks_id_to_remove_from_local@) =~= key_set(rl0).union(
                key_set(server_mod@.subrange(0, j as int + 1)),
            ));
        }
        j += 1;
    }
    proof {
        assert(server_mod@.subrange(0, server_mod@.len() as int) =~= server_mod@);
        assert(tasks_to_add_to_local@ == server_mod@);
        assert(key_set(tasks_id_to_remove_from_local@) =~= local_removal_set(s0, l0, last_sync));
    }

    // The server is authoritative, so its deletions and modifications may be
    // applied to the local store at once.
    remove_from_calendar(&tasks_id_to_remove_from_local, cal_local);
    proof {
        assert(cal_local.entry_map() == l0.entry_map().remove_keys(
            local_removal_set(s0, l0, last_sync),
        ));
        assert(cal_local.del_map() == l0.del_map());
    }

    // Push local changes: deletions made locally since the watermark, except
    // where the server modified the same id (the deletion is then dropped).
    let local_del: Vec<ItemId> = match last_sync {
        Some(date) => cal_local.get_items_deleted_since(date),
        None => Vec::new(),
    };
    proof {
        assert(key_set(local_del@) =~= local_del_set(l0, last_sync));
    }
    let mut tasks_id_to_remove_from_server: Vec<ItemId> = Vec::new();
    let mut j2: usize = 0;
    while j2 < local_del.len()
        invariant
            j2 <= local_del@.len(),
            key_set(tasks_id_to_remove_from_server@) =~= key_set(
                local_del@.subrange(0, j2 as int),
            ).difference(key_set(server_mod@)),
        decreases local_del@.len() - j2,
    {
        let ghost rpre = tasks_id_to_remove_from_server@;
        let deleted_id = &local_del[j2];
        if !contains_id(&server_mod, deleted_id) {
            tasks_id_to_remove_from_server.push(deleted_id.clone());
            proof {
                lemma_key_set_push(rpre, tasks_id_to_remove_from_server@.last());
            }
        }
        proof {
            lemma_subrange_push(local_del@, j2 as int);
            lemma_key_set_push(local_del@.subrange(0, j2 as int), local_del@[j2 as int]);
            assert(key_set(tasks_id_to_remove_from_server@) =~= key_set(
                local_del@.subrange(0, j2 as int + 1),
            ).difference(key_set(server_mod@)));
        }
        j2 += 1;
    }
    proof {
        assert(local_del@.subrange(0, local_del@.len() as int) =~= local_del@);
        assert(key_set(tasks_id_to_remove_from_server@) =~= server_removal_set(s0, l0, last_sync));
    }

    // Local modifications, excluding ids the server also modified: on such a
    // conflict the local edit is dropped and the server version kept.
    let local_mod: Vec<Item> = cal_local.get_items_modified_since(last_sync, None);
    let mut tasks_to_add_to_server: Vec<Item> = Vec::new();
    let mut j3: usize = 0;
    while j3 < local_mod.len()
        invariant
            j3 <= local_mod@.len(),
            uniq_keys(local_mod@),
            uniq_keys(tasks_to_add_to_server@),
            forall|k: Seq<char>|
                #[trigger] as_map(tasks_to_add_to_server@).contains_key(k) <==> (as_map(
                    local_mod@.subrange(0, j3 as int),
                ).contains_key(k) && !key_set(server_mod@).contains(k)),
            forall|k: Seq<char>|
                #[trigger] as_map(tasks_to_add_to_server@).contains_key(k) ==> as_map(
                    tasks_to_add_to_server@,
                )[k] == as_map(local_mod@)[k],
        decreases local_mod@.len() - j3,
    {
        let ghost p0 = local_mod@.subrange(0, j3 as int);
        let ghost p1 = local_mod@.subrange(0, j3 as int + 1);
        proof {
            lemma_subrange_push(local_mod@, j3 as int);
            assert(p1.drop_last() =~= p0);
            assert(as_map(p1) == as_map(p0).insert(
                local_mod@[j3 as int].key(),
                local_mod@[j3 as int],
            ));
            lemma_as_map_contains(p0);
            lemma_as_map_contains(p1);
            lemma_as_map_contains(tasks_to_add_to_server@);
            crate::keyed::lemma_as_map_index(local_mod@, j3 as int);
        }
        let new_item = &local_mod[j3];
        if !contains_id(&server_mod, new_item.id()) {
            let ghost rpre = tasks_to_add_to_server@;
            tasks_to_add_to_server.push(new_item.clone());
            proof {
                assert(tasks_to_add_to_server@.drop_last() =~= rpre);
                assert(as_map(tasks_to_add_to_server@) == as_map(rpre).insert(
                    new_item.key(),
                    *new_item,
                ));
                lemma_as_map_contains(rpre);
                assert forall|a: int, b: int|
                    0 <= a < b < tasks_to_add_to_server@.len() implies tasks_to_add_to_server@[a].key()
                    != tasks_to_add_to_server@[b].key() by {
                    if b == tasks_to_add_to_server@.len() - 1 {
                        if tasks_to_add_to_server@[a].key() == tasks_to_add_to_server@[b].key() {
                            assert(as_map(rpre).contains_key(tasks_to_add_to_server@[a].key()));
                        }
                    }
                }
                lemma_as_map_contains(tasks_to_add_to_server@);
            }
        }
        j3 += 1;
    }
    proof {
        assert(local_mod@.subrange(0, local_mod@.len() as int) =~= local_mod@);
    }

    // Apply the surviving pushes: deletions leave the server, pulled items
    // move into the local store, pushed items move into the server, each
    // arrival stamped with this pass's time.
    remove_from_calendar(&tasks_id_to_remove_from_server, cal_server);
    proof {
        assert(uniq_keys(tasks_to_add_to_local@));
    }
    move_to_calendar(&mut tasks_to_add_to_local, cal_local, now);
    move_to_calendar(&mut tasks_to_add_to_server, cal_server, now);

    proof {
        lemma_as_map_contains(server_mod@);
        assert(cal_local.entry_map() =~= merged_local_entries(s0, l0, last_sync, now));
        assert(cal_server.entry_map() =~= merged_server_entries(s0, l0, last_sync, now));
    }
}

/// One processed calendar pair: ids kept, both sides merged.
pub open spec fn pair_done(
    sc0: NamedCalendar,
    lc0: NamedCalendar,
    sc1: NamedCalendar,
    lc1: NamedCalendar,
    w: Option<i64>,
    now: i64,
) -> bool {
    sc1.id == sc0.id && lc1.id == lc0.id && server_merged(sc0.cal, lc0.cal, sc1.cal, w, now)
        && local_merged(sc0.cal, lc0.cal, lc1.cal, w, now)
}

/// What a pass over the stores leaves of them: every server calendar in
/// `processed` that has a local counterpart is merged with it; every other
/// calendar, on either side, is untouched. No calendar appears or vanishes.
pub open spec fn calendars_synced(
    s0: Map<Seq<char>, NamedCalendar>,
    l0: Map<Seq<char>, NamedCalendar>,
    s1: Map<Seq<char>, NamedCalendar>,
    l1: Map<Seq<char>, NamedCalendar>,
    w: Option<i64>,
    now: i64,
    processed: Set<Seq<char>>,
) -> bool {
    &&& s1.dom() == s0.dom()
    &&& l1.dom() == l0.dom()
    &&& forall|k: Seq<char>|
        #[trigger] s0.contains_key(k) ==> if processed.contains(k) && l0.contains_key(k) {
            pair_done(s0[k], l0[k], s1[k], l1[k], w, now)
        } else {
            s1[k] == s0[k]
        }
    &&& forall|k: Seq<char>|
        #[trigger] l0.contains_key(k) ==> if processed.contains(k) && s0.contains_key(k) {
            true
        } else {
            l1[k] == l0[k]
        }
}

/// What one whole sync pass at time `now` does: every calendar known to the
/// server is merged with its local counterpart (a server calendar with no
/// local counterpart is skipped), and the watermark advances to `now`.
pub open spec fn synced_at(pre: Provider, post: Provider, now: i64) -> bool {
    &&& post.local.last_sync == Some(now)
    &&& calendars_synced(
        pre.server.cal_map(),
        pre.local.source.cal_map(),
        post.server.cal_map(),
        post.local.source.cal_map(),
        pre.local.last_sync,
        now,
        pre.server.cal_map().dom(),
    )
}

/// The sync orchestrator: one remote source (the authority) and one local
/// source. In a conflict the server always wins.
#[derive(Debug)]
pub struct Provider {
    pub server: Source,
    pub local: LocalSource,
}

impl Provider {
    pub open spec fn wf(&self) -> bool {
        self.server.wf() && self.local.wf()
    }

    /// Create a provider over a remote store and a local store. The two are
    /// interchangeable but for one thing: `server` wins every sync conflict.
    pub fn new(server: Source, local: LocalSource) -> (r: Provider)
        ensures
            r.server == server,
            r.local == local,
    {
        Provider { server, local }
    }

    /// The data source described as the server.
    pub fn server(&self) -> (r: &Source)
        ensures
            r == &self.server,
    {
        &self.server
    }

    /// The data source described as the local cache.
    pub fn local(&self) -> (r: &LocalSource)
        ensures
            r == &self.local,
    {
        &self.local
    }

    /// The last time the local source was synced, if it ever was.
    pub fn last_sync_timestamp(&self) -> (r: Option<i64>)
        ensures
            r == self.local.last_sync,
    {
        self.local.get_last_sync()
    }

    /// One full synchronization pass, at the clock's current time. The merge
    /// itself is `sync_at`; the `Ok` is unconditional here because the
    /// in-memory sources cannot fail the way a remote transport can.
    pub fn sync(&mut self) -> (r: Result<(), SyncError>)
        requires
            old(self).wf(),
        ensures
            final(self).wf(),
            r is Ok,
            exists|now: i64| #[trigger] synced_at(*old(self), *final(self), now),
    {
        let now = now_timestamp();
        self.sync_at(now);
        proof {
            assert(synced_at(*old(self), *final(self), now));
        }
        Ok(())
    }

    /// One full synchronization pass, taken at time `now`: each calendar
    /// known to the server is merged with its local counterpart (server
    /// before local, deletions before modifications, server wins every
    /// conflict); a server calendar with no local counterpart is skipped.
    /// The watermark advances to `now` only after every calendar is done.
    #[verifier::loop_isolation(false)]
    pub fn sync_at(&mut self, now: i64)
        requires
            old(self).wf(),
        ensures
            final(self).wf(),
            synced_at(*old(self), *final(self), now),
    {
        let ghost s_seq0 = self.server.calendars@;
        let ghost l_seq0 = self.local.source.calendars@;
        let ghost s0 = self.server.cal_map();
        let ghost l0 = self.local.source.cal_map();
        let ghost w0 = self.local.last_sync;
        let last_sync = self.local.get_last_sync();
        let ids = self.server.calendar_ids();
        proof {
            lemma_as_map_contains(s_seq0);
            assert forall|a: int, b: int| 0 <= a < b < ids@.len() implies ids@[a].key()
                != ids@[b].key() by {
                assert(s_seq0[a].key() != s_seq0[b].key());
            }
            assert forall|k: Seq<char>| key_set(ids@).contains(k) implies s0.contains_key(k) by {
                let i = choose|i: int| 0 <= i < ids@.len() && #[trigger] ids@[i].key() == k;
                assert(s_seq0[i].key() == k);
            }
            assert forall|k: Seq<char>| s0.contains_key(k) implies key_set(ids@).contains(k) by {
                let i = choose|i: int| 0 <= i < s_seq0.len() && #[trigger] s_seq0[i].key() == k;
                assert(ids@[i].key() == k);
            }
            assert(key_set(ids@) =~= s0.dom());
            assert(key_set(ids@.subrange(0, 0)) =~= Set::<Seq<char>>::empty());
        }
        let mut m: usize = 0;
        while m < ids.len()
            invariant
                self.server.wf(),
                self.local.wf(),
                m <= ids@.len(),
                self.local.last_sync == w0,
                last_sync == w0,
                now == now,
                ids@.len() == s_seq0.len(),
                forall|j: int| 0 <= j < ids@.len() ==> #[trigger] ids@[j]@ == s_seq0[j].key(),
                forall|a: int, b: int|
                    0 <= a < b < ids@.len() ==> ids@[a].key() != ids@[b].key(),
                key_set(ids@) =~= s0.dom(),
                calendars_synced(
                    s0,
                    l0,
                    self.server.cal_map(),
                    self.local.source.cal_map(),
                    w0,
                    now,
                    key_set(ids@.subrange(0, m as int)),
                ),
            decreases ids@.len() - m,
        {
            let ghost processed = key_set(ids@.subrange(0, m as int));
            let ghost k_star = ids@[m as int]@;
            proof {
                assert(s_seq0[m as int].key() == k_star);
                lemma_as_map_contains(s_seq0);
                assert(exists|i: int|
                    0 <= i < s_seq0.len() && #[trigger] s_seq0[i].key() == k_star) by {
                    assert(s_seq0[m as int].key() == k_star);
                }
                assert(as_map(s_seq0).contains_key(k_star));
                assert(s0 == as_map(s_seq0));
                assert(s0.contains_key(k_star));
                // this id was not processed yet: ids carry unique keys
                assert forall|i: int| 0 <= i < m implies ids@.subrange(0, m as int)[i].key()
                    != k_star by {
                    assert(ids@[i].key() != ids@[m as int].key());
                }
                assert(!processed.contains(k_star));
                lemma_subrange_push(ids@, m as int);
                lemma_key_set_push(ids@.subrange(0, m as int), ids@[m as int]);
            }
            let id = &ids[m];
            let taken_local = self.local.source.take_calendar(id);
            match taken_local {
                None => {
                    // a server calendar with no local counterpart: skipped
                    // (no calendar is created locally; a known gap)
                    proof {
                        assert(!l0.contains_key(k_star));
                        assert(calendars_synced(
                            s0,
                            l0,
                            self.server.cal_map(),
                            self.local.source.cal_map(),
                            w0,
                            now,
                            key_set(ids@.subrange(0, m as int + 1)),
                        ));
                    }
                },
                Some(mut lc) => {
                    proof {
                        assert(l0.contains_key(k_star));
                        assert(lc == l0[k_star]);
                        lemma_as_map_key_match(s_seq0);
                        lemma_as_map_key_match(l_seq0);
                        assert(l0 == as_map(l_seq0));
                        assert(as_map(l_seq0)[k_star].key() == k_star);
                        assert(lc.id@ == k_star);
                    }
                    let taken_server = self.server.take_calendar(id);
                    match taken_server {
                        None => {
                            proof {
                                assert(false);
                            }
                            vstd::pervasive::unreached()
                        },
                        Some(mut sc) => {
                            proof {
                                assert(sc == s0[k_star]);
                                assert(as_map(s_seq0).contains_key(k_star));
                                assert(as_map(s_seq0)[k_star].key() == k_star);
                                assert(sc.key() == k_star);
                                assert(lc.id@ == k_star);
                            }
                            sync_calendar_pair(&mut sc.cal, &mut lc.cal, last_sync, now);
                            proof {
                                assert(sc.id@ == k_star && lc.id@ == k_star);
                                assert(!self.server.cal_map().contains_key(sc.id@));
                                assert(!self.local.source.cal_map().contains_key(lc.id@));
                            }
                            self.server.put_calendar(sc);
                            self.local.source.put_calendar(lc);
                            proof {
                                assert(pair_done(
                                    s0[k_star],
                                    l0[k_star],
                                    self.server.cal_map()[k_star],
                                    self.local.source.cal_map()[k_star],
                                    w0,
                                    now,
                                ));
                                assert(self.server.cal_map().dom() =~= s0.dom());
                                assert(self.local.source.cal_map().dom() =~= l0.dom());
                                assert(calendars_synced(
                                    s0,
                                    l0,
                                    self.server.cal_map(),
                                    self.local.source.cal_map(),
                                    w0,
                                    now,
                                    key_set(ids@.subrange(0, m as int + 1)),
                                ));
                            }
                        },
                    }
                },
            }
            m += 1;
        }
        proof {
            assert(ids@.subrange(0, ids@.len() as int) =~= ids@);
        }
        self.local.update_last_sync(Some(now));
    }
}

} // verus!
