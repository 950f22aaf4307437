//! Sources: stores of calendars keyed by `CalendarId`. A plain source stands
//! for the remote authority; the local source additionally owns the last-sync
//! watermark.

use vstd::prelude::*;
use crate::calendar::{Calendar, CalendarId};
use crate::keyed::{
    HasKey, as_map, lemma_as_map_contains, lemma_as_map_index, lemma_as_map_remove_at, uniq_keys,
};

verus! {

impl HasKey for CalendarId {
    open spec fn key(&self) -> Seq<char> {
        self@
    }
}

/// Relies on chrono::Utc::now: the current wall-clock time, as seconds
/// since the Unix epoch. Nothing is promised of a clock reading.
#[verifier::external_body]
pub(crate) fn now_timestamp() -> i64 {
    chrono::Utc::now().timestamp()
}

/// A calendar together with its id, as a source stores it.
#[derive(Debug)]
pub struct NamedCalendar {
    pub id: CalendarId,
    pub cal: Calendar,
}

impl HasKey for NamedCalendar {
    open spec fn key(&self) -> Seq<char> {
        self.id@
    }
}

/// A store of calendars keyed by `CalendarId`.
#[derive(Debug)]
pub struct Source {
    pub calendars: Vec<NamedCalendar>,
}

impl Source {
    /// The calendars, read as a map from calendar id to named calendar.
    pub open spec fn cal_map(&self) -> Map<Seq<char>, NamedCalendar> {
        as_map(self.calendars@)
    }

    pub open spec fn wf(&self) -> bool {
        uniq_keys(self.calendars@) && (forall|i: int|
            0 <= i < self.calendars@.len() ==> (#[trigger] self.calendars@[i]).cal.wf())
    }

    pub fn new() -> (r: Source)
        ensures
            r.wf(),
            r.cal_map() == Map::<Seq<char>, NamedCalendar>::empty(),
    {
        Source { calendars: Vec::new() }
    }

    fn index_of(&self, id: &CalendarId) -> (r: Option<usize>)
        ensures
            match r {
                Some(i) => i < self.calendars@.len() && self.calendars@[i as int].key() == id@,
                None => forall|j: int|
                    0 <= j < self.calendars@.len() ==> #[trigger] self.calendars@[j].key() != id@,
            },
    {
        let mut j: usize = 0;
        while j < self.calendars.len()
            invariant
                j <= self.calendars@.len(),
                forall|m: int| 0 <= m < j ==> #[trigger] self.calendars@[m].key() != id@,
            decreases self.calendars@.len() - j,
        {
            if self.calendars[j].id.eq(id) {
                return Some(j);
            }
            j += 1;
        }
        None
    }

    /// The calendar stored under an id, if any.
    pub fn get_calendar(&self, id: &CalendarId) -> (r: Option<&Calendar>)
        requires
            self.wf(),
        ensures
            match r {
                Some(cal) => self.cal_map().contains_key(id@) && *cal == self.cal_map()[id@].cal,
                None => !self.cal_map().contains_key(id@),
            },
    {
        let found = self.index_of(id);
        proof {
            lemma_as_map_contains(self.calendars@);
        }
        match found {
            Some(i) => {
                proof {
                    lemma_as_map_index(self.calendars@, i as int);
                }
                Some(&self.calendars[i].cal)
            },
            None => None,
        }
    }

    /// Every stored calendar with its id, in storage order.
    pub fn get_calendars(&self) -> (r: &Vec<NamedCalendar>)
        ensures
            r == &self.calendars,
    {
        &self.calendars
    }

    /// The id of every stored calendar, in storage order.
    pub fn calendar_ids(&self) -> (r: Vec<CalendarId>)
        requires
            self.wf(),
        ensures
            r@.len() == self.calendars@.len(),
            forall|j: int| 0 <= j < r@.len() ==> #[trigger] r@[j]@ == self.calendars@[j].key(),
    {
        let mut r: Vec<CalendarId> = Vec::new();
        let mut j: usize = 0;
        while j < self.calendars.len()
            invariant
                j <= self.calendars@.len(),
                r@.len() == j,
                forall|m: int| 0 <= m < j ==> #[trigger] r@[m]@ == self.calendars@[m].key(),
            decreases self.calendars@.len() - j,
        {
            r.push(self.calendars[j].id.clone());
            j += 1;
        }
        r
    }

    /// Take the named calendar under an id out of the store.
    pub fn take_calendar(&mut self, id: &CalendarId) -> (r: Option<NamedCalendar>)
        requires
            old(self).wf(),
        ensures
            final(self).wf(),
            match r {
                Some(nc) => old(self).cal_map().contains_key(id@) && nc == old(self).cal_map()[id@]
                    && nc.cal.wf() && final(self).cal_map() == old(self).cal_map().remove(id@),
                None => !old(self).cal_map().contains_key(id@) && *final(self) == *old(self),
            },
    {
        let ghost pre = self.calendars@;
        let found = self.index_of(id);
        proof {
            lemma_as_map_contains(pre);
        }
        match found {
            Some(i) => {
                proof {
                    lemma_as_map_index(pre, i as int);
                    lemma_as_map_remove_at(pre, i as int);
                    assert(pre.remove(i as int) =~= pre.subrange(0, i as int) + pre.subrange(
                        i as int + 1,
                        pre.len() as int,
                    ));
                }
                let nc = self.calendars.remove(i);
                Some(nc)
            },
            None => None,
        }
    }

    /// Put a calendar back under an id not currently stored.
    pub fn put_calendar(&mut self, nc: NamedCalendar)
        requires
            old(self).wf(),
            nc.cal.wf(),
            !old(self).cal_map().contains_key(nc.id@),
        ensures
            final(self).wf(),
            final(self).cal_map() == old(self).cal_map().insert(nc.id@, nc),
    {
        let ghost pre = self.calendars@;
        proof {
            lemma_as_map_contains(pre);
            assert(forall|j: int| 0 <= j < pre.len() ==> #[trigger] pre[j].key() != nc.id@);
        }
        self.calendars.push(nc);
        proof {
            assert(self.calendars@.drop_last() =~= pre);
            assert forall|a: int, b: int|
                0 <= a < b < self.calendars@.len() implies self.calendars@[a].key()
                != self.calendars@[b].key() by {
                if b == self.calendars@.len() - 1 {
                    assert(pre[a].key() != nc.id@);
                }
            }
        }
    }

    /// Add a calendar, or replace the one stored under the same id.
    pub fn add_calendar(&mut self, id: CalendarId, cal: Calendar)
        requires
            old(self).wf(),
            cal.wf(),
        ensures
            final(self).wf(),
            final(self).cal_map() == old(self).cal_map().insert(
                id@,
                NamedCalendar { id, cal },
            ),
    {
        let ghost pre_map = self.cal_map();
        let taken = self.take_calendar(&id);
        proof {
            if taken is Some {
                assert(self.cal_map() == pre_map.remove(id@));
            } else {
                assert(pre_map.remove(id@) =~= pre_map);
                assert(self.cal_map() == pre_map.remove(id@));
            }
        }
        self.put_calendar(NamedCalendar { id, cal });
        proof {
            assert(final(self).cal_map() =~= pre_map.insert(id@, NamedCalendar { id, cal }));
        }
    }
}

/// The local store: calendars plus the last-sync watermark. The watermark is
/// absent before the first successful sync pass.
#[derive(Debug)]
pub struct LocalSource {
    pub source: Source,
    pub last_sync: Option<i64>,
}

impl LocalSource {
    pub open spec fn wf(&self) -> bool {
        self.source.wf()
    }

    pub fn new() -> (r: LocalSource)
        ensures
            r.wf(),
            r.source.cal_map() == Map::<Seq<char>, NamedCalendar>::empty(),
            r.last_sync is None,
    {
        LocalSource { source: Source::new(), last_sync: None }
    }

    /// The last time this store was synced, if it ever was.
    pub fn get_last_sync(&self) -> (r: Option<i64>)
        ensures
            r == self.last_sync,
    {
        self.last_sync
    }

    /// Record a sync time; an absent timestamp means "now". The watermark
    /// only ever moves this way.
    pub fn update_last_sync(&mut self, timestamp: Option<i64>)
        ensures
            final(self).source == old(self).source,
            final(self).last_sync is Some,
            timestamp matches Some(t) ==> final(self).last_sync == Some(t),
    {
        match timestamp {
            Some(t) => {
                self.last_sync = Some(t);
            },
            None => {
                self.last_sync = Some(now_timestamp());
            },
        }
    }

    pub fn get_calendar(&self, id: &CalendarId) -> (r: Option<&Calendar>)
        requires
            self.wf(),
        ensures
            match r {
                Some(cal) => self.source.cal_map().contains_key(id@) && *cal
                    == self.source.cal_map()[id@].cal,
                None => !self.source.cal_map().contains_key(id@),
            },
    {
        self.source.get_calendar(id)
    }

    pub fn add_calendar(&mut self, id: CalendarId, cal: Calendar)
        requires
            old(self).wf(),
            cal.wf(),
        ensures
            final(self).wf(),
            final(self).source.cal_map() == old(self).source.cal_map().insert(
                id@,
                NamedCalendar { id, cal },
            ),
            final(self).last_sync == old(self).last_sync,
    {
        self.source.add_calendar(id, cal);
    }
}

} // verus!
