//! Calendar events (`VEVENT` items): modeled, but not yet synchronizable.
//!
//! Times are plain values: an all-day boundary is a day number, an exact
//! boundary a Unix timestamp in seconds.

use vstd::prelude::*;
use crate::item::{ItemId, SyncStatus};

verus! {

/// A point on the calendar: a whole day, or an exact moment.
#[derive(Clone, Copy, Debug, PartialEq, Eq, Structural)]
pub enum EventTime {
    /// A day number (days since the calendar's epoch).
    Date(i32),
    /// A Unix timestamp in seconds.
    DateTime(i64),
}

impl EventTime {
    pub fn as_date(&self) -> (r: Option<i32>)
        ensures
            r == (match self {
                EventTime::Date(d) => Some(*d),
                _ => None::<i32>,
            }),
    {
        match self {
            EventTime::Date(date) => Some(*date),
            _ => None,
        }
    }

    pub fn as_datetime(&self) -> (r: Option<i64>)
        ensures
            r == (match self {
                EventTime::DateTime(t) => Some(*t),
                _ => None::<i64>,
            }),
    {
        match self {
            EventTime::DateTime(datetime) => Some(*datetime),
            _ => None,
        }
    }
}

/// A calendar appointment. The sync algorithm does not yet move events; the
/// parser produces an empty placeholder for a `VEVENT` payload.
#[derive(Debug)]
pub struct Event {
    pub uid: String,
    pub name: String,
    pub dtstart: EventTime,
    pub dtend: EventTime,
    pub location: Option<String>,
    pub description: Option<String>,
    pub sync_status: SyncStatus,
    pub last_modified: i64,
    pub creation_date: Option<i64>,
    pub ical_prod_id: String,
    pub url: ItemId,
}

impl Event {
    /// The empty placeholder that stands for a not-yet-supported `VEVENT`.
    pub fn new() -> (r: Event)
        ensures
            r.uid@ == Seq::<char>::empty(),
            r.name@ == Seq::<char>::empty(),
            r.dtstart == EventTime::DateTime(0i64),
            r.dtend == EventTime::DateTime(0i64),
            r.location is None,
            r.description is None,
            r.sync_status is NotSynced,
            r.last_modified == 0i64,
            r.creation_date is None,
            r.ical_prod_id@ == Seq::<char>::empty(),
            r.url@ == Seq::<char>::empty(),
    {
        Event {
            uid: String::new(),
            name: String::new(),
            dtstart: EventTime::DateTime(0),
            dtend: EventTime::DateTime(0),
            location: None,
            description: None,
            sync_status: SyncStatus::NotSynced,
            last_modified: 0,
            creation_date: None,
            ical_prod_id: String::new(),
            url: ItemId::new(String::new()),
        }
    }

    pub fn new_timed(
        name: String,
        uid: String,
        dtstart: i64,
        dtend: i64,
        location: Option<String>,
        description: Option<String>,
        url: ItemId,
        sync_status: SyncStatus,
        last_modified: i64,
        creation_date: Option<i64>,
        ical_prod_id: String,
    ) -> (r: Self)
        ensures
            r == (Event {
                name,
                uid,
                dtstart: EventTime::DateTime(dtstart),
                dtend: EventTime::DateTime(dtend),
                location,
                description,
                sync_status,
                last_modified,
                creation_date,
                ical_prod_id,
                url,
            }),
    {
        Self {
            name,
            uid,
            dtstart: EventTime::DateTime(dtstart),
            dtend: EventTime::DateTime(dtend),
            location,
            description,
            sync_status,
            last_modified,
            creation_date,
            ical_prod_id,
            url,
        }
    }

    pub fn new_all_day(
        name: String,
        uid: String,
        dtstart: i32,
        dtend: i32,
        location: Option<String>,
        description: Option<String>,
        url: ItemId,
        sync_status: SyncStatus,
        last_modified: i64,
        creation_date: Option<i64>,
        ical_prod_id: String,
    ) -> (r: Self)
        ensures
            r == (Event {
                name,
                uid,
                dtstart: EventTime::Date(dtstart),
                dtend: EventTime::Date(dtend),
                location,
                description,
                sync_status,
                last_modified,
                creation_date,
                ical_prod_id,
                url,
            }),
    {
        Self {
            name,
            uid,
            dtstart: EventTime::Date(dtstart),
            dtend: EventTime::Date(dtend),
            location,
            description,
            sync_status,
            last_modified,
            creation_date,
            ical_prod_id,
            url,
        }
    }

    pub fn url(&self) -> (r: &ItemId)
        ensures
            r == &self.url,
    {
        &self.url
    }

    pub open spec fn spec_url(&self) -> ItemId {
        self.url
    }

    pub fn uid(&self) -> (r: &str)
        ensures
            r@ == self.uid@,
    {
        self.uid.as_str()
    }

    pub fn name(&self) -> (r: &str)
        ensures
            r@ == self.name@,
    {
        self.name.as_str()
    }

    pub open spec fn spec_name(&self) -> Seq<char> {
        self.name@
    }

    pub fn dtstart(&self) -> (r: &EventTime)
        ensures
            r == &self.dtstart,
    {
        &self.dtstart
    }

    pub fn dtend(&self) -> (r: &EventTime)
        ensures
            r == &self.dtend,
    {
        &self.dtend
    }

    pub fn location(&self) -> (r: Option<&String>)
        ensures
            r == (match self.location {
                Some(ref l) => Some(l),
                None => None::<&String>,
            }),
    {
        self.location.as_ref()
    }

    pub fn description(&self) -> (r: Option<&String>)
        ensures
            r == (match self.description {
                Some(ref d) => Some(d),
                None => None::<&String>,
            }),
    {
        self.description.as_ref()
    }

    pub fn ical_prod_id(&self) -> (r: &str)
        ensures
            r@ == self.ical_prod_id@,
    {
        self.ical_prod_id.as_str()
    }

    pub fn last_modified(&self) -> (r: i64)
        ensures
            r == self.last_modified,
    {
        self.last_modified
    }

    pub fn creation_date(&self) -> (r: Option<i64>)
        ensures
            r == self.creation_date,
    {
        self.creation_date
    }

    pub fn sync_status(&self) -> (r: &SyncStatus)
        ensures
            r == &self.sync_status,
    {
        &self.sync_status
    }

    pub open spec fn spec_sync_status(&self) -> SyncStatus {
        self.sync_status
    }

    pub fn set_sync_status(&mut self, new_status: SyncStatus)
        ensures
            *final(self) == (Event { sync_status: new_status, ..*old(self) }),
    {
        self.sync_status = new_status;
    }

    /// Whether two events carry the same user-visible content (identity,
    /// times, text), ignoring sync bookkeeping.
    pub fn has_same_observable_content_as(&self, other: &Event) -> (r: bool)
        ensures
            r == (self.uid@ == other.uid@ && self.name@ == other.name@ && self.dtstart
                == other.dtstart && self.dtend == other.dtend && opt_string_view(self.location)
                == opt_string_view(other.location) && opt_string_view(self.description)
                == opt_string_view(other.description) && self.last_modified == other.last_modified
                && self.ical_prod_id@ == other.ical_prod_id@),
    {
        self.uid == other.uid && self.name == other.name && self.dtstart == other.dtstart
            && self.dtend == other.dtend && opt_string_eq(&self.location, &other.location)
            && opt_string_eq(&self.description, &other.description) && self.last_modified
            == other.last_modified && self.ical_prod_id == other.ical_prod_id
    }
}

/// The text an optional string holds, if any.
pub open spec fn opt_string_view(o: Option<String>) -> Option<Seq<char>> {
    match o {
        Some(s) => Some(s@),
        None => None,
    }
}

fn opt_string_eq(a: &Option<String>, b: &Option<String>) -> (r: bool)
    ensures
        r == (opt_string_view(*a) == opt_string_view(*b)),
{
    match (a, b) {
        (Some(x), Some(y)) => x.eq(y),
        (None, None) => true,
        _ => false,
    }
}

pub fn opt_string_clone(o: &Option<String>) -> (r: Option<String>)
    ensures
        r == *o,
{
    match o {
        Some(s) => Some(s.clone()),
        None => None,
    }
}

impl Clone for Event {
    fn clone(&self) -> (r: Self)
        ensures
            r == *self,
    {
        let r = Event {
            uid: self.uid.clone(),
            name: self.name.clone(),
            dtstart: self.dtstart,
            dtend: self.dtend,
            location: opt_string_clone(&self.location),
            description: opt_string_clone(&self.description),
            sync_status: self.sync_status.clone(),
            last_modified: self.last_modified,
            creation_date: self.creation_date,
            ical_prod_id: self.ical_prod_id.clone(),
            url: self.url.clone(),
        };
        proof {
            assert(r == *self);
        }
        r
    }
}

} // verus!
