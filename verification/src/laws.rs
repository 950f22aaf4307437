//! The guarantees of the sync pass, proved once and for all over the merge
//! model that `sync_at`'s contract establishes.

use vstd::prelude::*;
use crate::calendar::Calendar;
use crate::provider::{
    local_del_set, local_merged, local_push_set, local_removal_set, merged_local_entries,
    merged_server_entries, mod_set, remote_del_set, server_merged, server_removal_set, synced_at,
    Provider,
};

verus! {

/// Server-wins conflict law: whenever the same id was modified on both sides
/// since the last watermark, both calendars afterwards hold the server's
/// content for it, never the local edit.
pub proof fn lemma_server_wins(
    s: Calendar,
    l: Calendar,
    post_s: Calendar,
    post_l: Calendar,
    w: Option<i64>,
    now: i64,
    k: Seq<char>,
)
    requires
        server_merged(s, l, post_s, w, now),
        local_merged(s, l, post_l, w, now),
        mod_set(s, w).contains(k),
        mod_set(l, w).contains(k),
    ensures
        post_l.contents().contains_key(k),
        post_l.contents()[k] == s.contents()[k],
        post_s.contents().contains_key(k),
        post_s.contents()[k] == s.contents()[k],
{
    assert(s.entry_map().contains_key(k));
    assert(!local_push_set(s, l, w).contains(k));
    assert(!server_removal_set(s, l, w).contains(k));
    assert(merged_local_entries(s, l, w, now).contains_key(k));
    assert(merged_server_entries(s, l, w, now).contains_key(k));
}

/// Deletion propagation, local to server: an id deleted locally since the
/// watermark, and not among the server's modifications, is gone from the
/// server after the pass.
pub proof fn lemma_local_deletion_propagates(
    s: Calendar,
    l: Calendar,
    post_s: Calendar,
    w: Option<i64>,
    now: i64,
    k: Seq<char>,
)
    requires
        server_merged(s, l, post_s, w, now),
        local_del_set(l, w).contains(k),
        !mod_set(s, w).contains(k),
        !l.entry_map().contains_key(k),
    ensures
        !post_s.contents().contains_key(k),
{
    assert(server_removal_set(s, l, w).contains(k));
    assert(!local_push_set(s, l, w).contains(k));
    assert(!merged_server_entries(s, l, w, now).contains_key(k));
}

/// Deletion propagation, server to local: an id present locally but absent
/// from the server is deleted locally by the pass, regardless of local
/// edits, whenever a watermark exists (a first sync deletes nothing).
pub proof fn lemma_remote_deletion_propagates(
    s: Calendar,
    l: Calendar,
    post_l: Calendar,
    w: Option<i64>,
    now: i64,
    k: Seq<char>,
)
    requires
        local_merged(s, l, post_l, w, now),
        w is Some,
        l.entry_map().contains_key(k),
        !s.entry_map().contains_key(k),
    ensures
        !post_l.contents().contains_key(k),
{
    assert(remote_del_set(s, l, w).contains(k));
    assert(local_removal_set(s, l, w).contains(k));
    assert(!mod_set(s, w).contains(k));
    assert(!merged_local_entries(s, l, w, now).contains_key(k));
}

/// Watermark monotonicity: a successful pass sets the watermark to the
/// pass's time, so as long as the clock is not behind the old watermark the
/// watermark never moves backwards. (A pass that fails in a remote
/// collaborator never reaches this model and leaves the watermark as it
/// was.)
pub proof fn lemma_watermark_monotonic(pre: Provider, post: Provider, now: i64)
    requires
        synced_at(pre, post, now),
        match pre.local.last_sync {
            Some(t) => t <= now,
            None => true,
        },
    ensures
        post.local.last_sync == Some(now),
        match (pre.local.last_sync, post.local.last_sync) {
            (Some(t0), Some(t1)) => t0 <= t1,
            (_, Some(_)) => true,
            (_, None) => false,
        },
{
}

/// Idempotence: after one pass at `now1` over a quiescent state (no stamp or
/// deletion record lies in the future, and every deletion pending push is
/// really absent), a second pass at any `now2 >= now1` changes neither
/// calendar: its merge of the once-synced pair is the identity.
pub proof fn lemma_sync_idempotent(
    s: Calendar,
    l: Calendar,
    s1: Calendar,
    l1: Calendar,
    w: Option<i64>,
    now1: i64,
    now2: i64,
)
    requires
        server_merged(s, l, s1, w, now1),
        local_merged(s, l, l1, w, now1),
        forall|k: Seq<char>|
            #[trigger] s.entry_map().contains_key(k) ==> s.entry_map()[k].modified_at <= now1,
        forall|k: Seq<char>|
            #[trigger] l.entry_map().contains_key(k) ==> l.entry_map()[k].modified_at <= now1,
        forall|k: Seq<char>|
            #[trigger] l.del_map().contains_key(k) ==> l.del_map()[k].deleted_at <= now1,
        forall|k: Seq<char>| local_del_set(l, w).contains(k) ==> !l.entry_map().contains_key(k),
        now1 <= now2,
    ensures
        merged_local_entries(s1, l1, Some(now1), now2) == l1.entry_map(),
        merged_server_entries(s1, l1, Some(now1), now2) == s1.entry_map(),
{
    let w2 = Some(now1);
    // nothing counts as modified after the pass: stamps are at most now1
    assert(mod_set(s1, w2) =~= Set::<Seq<char>>::empty()) by {
        assert forall|k: Seq<char>| !(#[trigger] mod_set(s1, w2).contains(k)) by {
            if s1.entry_map().contains_key(k) {
                if local_push_set(s, l, w).contains(k) {
                    assert(s1.entry_map()[k].modified_at == now1);
                } else {
                    assert(s1.entry_map()[k] == s.entry_map()[k]);
                }
            }
        }
    }
    assert(mod_set(l1, w2) =~= Set::<Seq<char>>::empty()) by {
        assert forall|k: Seq<char>| !(#[trigger] mod_set(l1, w2).contains(k)) by {
            if l1.entry_map().contains_key(k) {
                if mod_set(s, w).contains(k) {
                    assert(l1.entry_map()[k].modified_at == now1);
                } else {
                    assert(l1.entry_map()[k] == l.entry_map()[k]);
                }
            }
        }
    }
    // no deletion is pending: the log is untouched and at most now1
    assert(local_del_set(l1, w2) =~= Set::<Seq<char>>::empty()) by {
        assert forall|k: Seq<char>| !(#[trigger] local_del_set(l1, w2).contains(k)) by {
            if l1.del_map().contains_key(k) {
                assert(l.del_map().contains_key(k));
            }
        }
    }
    // nothing counts as remotely deleted: everything local is on the server
    assert(remote_del_set(s1, l1, w2) =~= Set::<Seq<char>>::empty()) by {
        assert forall|k: Seq<char>| #[trigger] l1.entry_map().contains_key(k) implies s1.entry_map().contains_key(
            k,
        ) by {
            if mod_set(s, w).contains(k) {
                // pulled from the server; the server still holds it
                assert(!server_removal_set(s, l, w).contains(k));
                assert(s.entry_map().contains_key(k));
                assert(merged_server_entries(s, l, w, now1).contains_key(k));
            } else {
                // survived locally: not remotely deleted, not server-modified
                assert(l.entry_map().contains_key(k));
                assert(!local_removal_set(s, l, w).contains(k));
                match w {
                    None => {
                        // every local id is dirty on a first sync; the server
                        // did not hold it (else it would count as modified),
                        // so it was pushed
                        assert(!s.entry_map().contains_key(k));
                        assert(mod_set(l, None).contains(k));
                        assert(local_push_set(s, l, w).contains(k));
                        assert(merged_server_entries(s, l, w, now1).contains_key(k));
                    },
                    Some(_) => {
                        // not remotely deleted, so the server holds it; a
                        // pending local deletion would contradict presence
                        assert(s.entry_map().contains_key(k));
                        if server_removal_set(s, l, w).contains(k) {
                            assert(local_del_set(l, w).contains(k));
                            assert(!l.entry_map().contains_key(k));
                            assert(false);
                        }
                        assert(merged_server_entries(s, l, w, now1).contains_key(k));
                    },
                }
            }
        }
    }
    assert(local_removal_set(s1, l1, w2) =~= Set::<Seq<char>>::empty());
    assert(server_removal_set(s1, l1, w2) =~= Set::<Seq<char>>::empty());
    assert(local_push_set(s1, l1, w2) =~= Set::<Seq<char>>::empty());
    assert(merged_local_entries(s1, l1, w2, now2) =~= l1.entry_map());
    assert(merged_server_entries(s1, l1, w2, now2) =~= s1.entry_map());
}

/// No stamp of the calendar lies after `t`: nothing changed since then.
pub open spec fn calendar_settled(c: Calendar, t: i64) -> bool {
    (forall|k: Seq<char>|
        #[trigger] c.entry_map().contains_key(k) ==> c.entry_map()[k].modified_at <= t)
        && (forall|k: Seq<char>|
        #[trigger] c.del_map().contains_key(k) ==> c.del_map()[k].deleted_at <= t)
}

/// Every deletion pending push is really absent from the calendar.
pub open spec fn deletions_applied(c: Calendar, w: Option<i64>) -> bool {
    forall|k: Seq<char>| local_del_set(c, w).contains(k) ==> !c.entry_map().contains_key(k)
}

/// Idempotence of the whole pass: two successive syncs with no intervening
/// change (the first ran over a settled state, and the clock did not go
/// backwards) leave every calendar, on both sides, exactly as the first
/// pass left it.
pub proof fn lemma_sync_twice_changes_nothing(
    p0: Provider,
    p1: Provider,
    p2: Provider,
    now1: i64,
    now2: i64,
)
    requires
        synced_at(p0, p1, now1),
        synced_at(p1, p2, now2),
        now1 <= now2,
        forall|k: Seq<char>|
            #[trigger] p0.server.cal_map().contains_key(k) ==> calendar_settled(
                p0.server.cal_map()[k].cal,
                now1,
            ),
        forall|k: Seq<char>|
            #[trigger] p0.local.source.cal_map().contains_key(k) ==> calendar_settled(
                p0.local.source.cal_map()[k].cal,
                now1,
            ) && deletions_applied(p0.local.source.cal_map()[k].cal, p0.local.last_sync),
    ensures
        forall|k: Seq<char>|
            #[trigger] p1.server.cal_map().contains_key(k) ==> p2.server.cal_map()[k].cal.entry_map()
                == p1.server.cal_map()[k].cal.entry_map(),
        forall|k: Seq<char>|
            #[trigger] p1.local.source.cal_map().contains_key(k)
                ==> p2.local.source.cal_map()[k].cal.entry_map()
                == p1.local.source.cal_map()[k].cal.entry_map(),
{
    let s0 = p0.server.cal_map();
    let l0 = p0.local.source.cal_map();
    let w0 = p0.local.last_sync;
    assert(p1.server.cal_map().dom() == s0.dom());
    assert(p1.local.source.cal_map().dom() == l0.dom());
    assert(p1.local.last_sync == Some(now1));
    assert forall|k: Seq<char>| #[trigger] p1.server.cal_map().contains_key(k) implies p2.server.cal_map()[k].cal.entry_map()
        == p1.server.cal_map()[k].cal.entry_map() by {
        assert(s0.contains_key(k));
        if l0.contains_key(k) {
            lemma_sync_idempotent(
                s0[k].cal,
                l0[k].cal,
                p1.server.cal_map()[k].cal,
                p1.local.source.cal_map()[k].cal,
                w0,
                now1,
                now2,
            );
        } else {
            assert(p1.server.cal_map()[k] == s0[k]);
            assert(p2.server.cal_map()[k] == p1.server.cal_map()[k]);
        }
    }
    assert forall|k: Seq<char>| #[trigger] p1.local.source.cal_map().contains_key(k) implies p2.local.source.cal_map()[k].cal.entry_map()
        == p1.local.source.cal_map()[k].cal.entry_map() by {
        assert(l0.contains_key(k));
        if s0.contains_key(k) {
            lemma_sync_idempotent(
                s0[k].cal,
                l0[k].cal,
                p1.server.cal_map()[k].cal,
                p1.local.source.cal_map()[k].cal,
                w0,
                now1,
                now2,
            );
        } else {
            assert(p1.local.source.cal_map()[k] == l0[k]);
            assert(p2.local.source.cal_map()[k] == p1.local.source.cal_map()[k]);
        }
    }
}

} // verus!
