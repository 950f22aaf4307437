//! Item identity and versioning: `ItemId`, `VersionTag`, `SyncStatus`, the
//! `Task` item kind and the `Item` union.

use vstd::prelude::*;
use crate::event::Event;
use crate::keyed::HasKey;

verus! {

/// A globally unique, stable identifier for one item inside one calendar
/// (a URL-shaped key, held here as its textual form).
#[derive(Debug)]
pub struct ItemId {
    pub value: String,
}

impl View for ItemId {
    type V = Seq<char>;

    open spec fn view(&self) -> Seq<char> {
        self.value@
    }
}

impl ItemId {
    pub fn new(value: String) -> (r: Self)
        ensures
            r@ == value@,
    {
        ItemId { value }
    }

    pub fn as_str(&self) -> (r: &str)
        ensures
            r@ == self@,
    {
        self.value.as_str()
    }
}

impl Clone for ItemId {
    fn clone(&self) -> (r: Self)
        ensures
            r == *self,
    {
        ItemId { value: self.value.clone() }
    }
}

impl PartialEq for ItemId {
    fn eq(&self, other: &ItemId) -> (r: bool) {
        self.value == other.value
    }
}

impl vstd::std_specs::cmp::PartialEqSpecImpl for ItemId {
    open spec fn obeys_eq_spec() -> bool {
        true
    }

    open spec fn eq_spec(&self, other: &ItemId) -> bool {
        self.value@ == other.value@
    }
}

/// An opaque, source-supplied version marker (an ETag equivalent). Two items
/// are the same version exactly when their tags compare equal; tags carry no
/// order.
#[derive(Debug)]
pub struct VersionTag {
    pub value: String,
}

impl View for VersionTag {
    type V = Seq<char>;

    open spec fn view(&self) -> Seq<char> {
        self.value@
    }
}

impl VersionTag {
    pub fn as_str(&self) -> (r: &str)
        ensures
            r@ == self@,
    {
        self.value.as_str()
    }
}

impl Clone for VersionTag {
    fn clone(&self) -> (r: Self)
        ensures
            r == *self,
    {
        VersionTag { value: self.value.clone() }
    }
}

impl PartialEq for VersionTag {
    fn eq(&self, other: &VersionTag) -> (r: bool) {
        self.value == other.value
    }
}

impl vstd::std_specs::cmp::PartialEqSpecImpl for VersionTag {
    open spec fn obeys_eq_spec() -> bool {
        true
    }

    open spec fn eq_spec(&self, other: &VersionTag) -> bool {
        self.value@ == other.value@
    }
}

impl From<String> for VersionTag {
    fn from(value: String) -> (r: VersionTag) {
        VersionTag { value }
    }
}

impl vstd::std_specs::convert::FromSpecImpl<String> for VersionTag {
    open spec fn obeys_from_spec() -> bool {
        true
    }

    open spec fn from_spec(value: String) -> VersionTag {
        VersionTag { value }
    }
}

/// The per-item sync state machine. Creation starts at `NotSynced`, a
/// successful push or pull moves to `Synced`, a local edit to
/// `LocallyModified`, a local delete to `LocallyDeleted`; a removal applied
/// on both sides clears the item entirely. Transitions are caller-driven:
/// the sync core trusts the tag and never diffs content.
#[derive(Debug)]
pub enum SyncStatus {
    /// Created locally, never pushed.
    NotSynced,
    /// Content matches the tagged remote version.
    Synced(VersionTag),
    /// Content changed locally since the tagged remote version.
    LocallyModified(VersionTag),
    /// Deletion pending push; the remote version is known.
    LocallyDeleted(VersionTag),
}

impl Clone for SyncStatus {
    fn clone(&self) -> (r: Self)
        ensures
            r == *self,
    {
        match self {
            SyncStatus::NotSynced => SyncStatus::NotSynced,
            SyncStatus::Synced(t) => SyncStatus::Synced(t.clone()),
            SyncStatus::LocallyModified(t) => SyncStatus::LocallyModified(t.clone()),
            SyncStatus::LocallyDeleted(t) => SyncStatus::LocallyDeleted(t.clone()),
        }
    }
}

impl PartialEq for SyncStatus {
    fn eq(&self, other: &SyncStatus) -> (r: bool) {
        match (self, other) {
            (SyncStatus::NotSynced, SyncStatus::NotSynced) => true,
            (SyncStatus::Synced(a), SyncStatus::Synced(b)) => a == b,
            (SyncStatus::LocallyModified(a), SyncStatus::LocallyModified(b)) => a == b,
            (SyncStatus::LocallyDeleted(a), SyncStatus::LocallyDeleted(b)) => a == b,
            _ => false,
        }
    }
}

impl vstd::std_specs::cmp::PartialEqSpecImpl for SyncStatus {
    open spec fn obeys_eq_spec() -> bool {
        true
    }

    open spec fn eq_spec(&self, other: &SyncStatus) -> bool {
        match (self, other) {
            (SyncStatus::NotSynced, SyncStatus::NotSynced) => true,
            (SyncStatus::Synced(a), SyncStatus::Synced(b)) => a@ == b@,
            (SyncStatus::LocallyModified(a), SyncStatus::LocallyModified(b)) => a@ == b@,
            (SyncStatus::LocallyDeleted(a), SyncStatus::LocallyDeleted(b)) => a@ == b@,
            _ => false,
        }
    }
}

/// A to-do item: the one item kind the sync layer fully supports.
#[derive(Debug)]
pub struct Task {
    pub id: ItemId,
    pub uid: String,
    pub name: String,
    pub completed: bool,
    pub sync_status: SyncStatus,
}

impl Task {
    pub fn new_with_parameters(
        name: String,
        completed: bool,
        uid: String,
        id: ItemId,
        sync_status: SyncStatus,
    ) -> (r: Task)
        ensures
            r.name@ == name@,
            r.completed == completed,
            r.uid@ == uid@,
            r.id == id,
            r.sync_status == sync_status,
    {
        Task { id, uid, name, completed, sync_status }
    }

    pub fn id(&self) -> (r: &ItemId)
        ensures
            r == &self.id,
    {
        &self.id
    }

    pub fn uid(&self) -> (r: &str)
        ensures
            r@ == self.uid@,
    {
        self.uid.as_str()
    }

    pub fn name(&self) -> (r: &str)
        ensures
            r@ == self.name@,
    {
        self.name.as_str()
    }

    pub fn completed(&self) -> (r: bool)
        ensures
            r == self.completed,
    {
        self.completed
    }

    pub fn sync_status(&self) -> (r: &SyncStatus)
        ensures
            r == &self.sync_status,
    {
        &self.sync_status
    }

    pub fn set_sync_status(&mut self, new_status: SyncStatus)
        ensures
            final(self).sync_status == new_status,
            final(self).id == old(self).id,
            final(self).uid == old(self).uid,
            final(self).name == old(self).name,
            final(self).completed == old(self).completed,
    {
        self.sync_status = new_status;
    }
}

impl Clone for Task {
    fn clone(&self) -> (r: Self)
        ensures
            r == *self,
    {
        let r = Task {
            id: self.id.clone(),
            uid: self.uid.clone(),
            name: self.name.clone(),
            completed: self.completed,
            sync_status: self.sync_status.clone(),
        };
        proof {
            assert(r == *self);
        }
        r
    }
}

/// A calendar item: a closed variant over the supported kinds. A task is
/// fully synchronizable; an event is modeled but not yet synchronizable.
#[derive(Debug)]
pub enum Item {
    Task(Task),
    Event(Event),
}

impl Item {
    /// The identifier of the item, equal to its canonical URL-shaped key.
    pub fn id(&self) -> (r: &ItemId)
        ensures
            r == &self.spec_id(),
    {
        match self {
            Item::Task(t) => t.id(),
            Item::Event(e) => e.url(),
        }
    }

    pub open spec fn spec_id(&self) -> ItemId {
        match self {
            Item::Task(t) => t.id,
            Item::Event(e) => e.spec_url(),
        }
    }

    pub fn name(&self) -> (r: &str)
        ensures
            r@ == self.spec_name(),
    {
        match self {
            Item::Task(t) => t.name(),
            Item::Event(e) => e.name(),
        }
    }

    pub open spec fn spec_name(&self) -> Seq<char> {
        match self {
            Item::Task(t) => t.name@,
            Item::Event(e) => e.spec_name(),
        }
    }

    pub fn uid(&self) -> (r: &str)
        ensures
            r@ == self.spec_uid(),
    {
        match self {
            Item::Task(t) => t.uid(),
            Item::Event(e) => e.uid(),
        }
    }

    pub open spec fn spec_uid(&self) -> Seq<char> {
        match self {
            Item::Task(t) => t.uid@,
            Item::Event(e) => e.uid@,
        }
    }

    pub fn is_task(&self) -> (r: bool)
        ensures
            r == (self is Task),
    {
        match self {
            Item::Task(_) => true,
            Item::Event(_) => false,
        }
    }

    /// The item as a task; callers must know it is one.
    pub fn unwrap_task(&self) -> (r: &Task)
        requires
            self is Task,
        ensures
            r == &self->Task_0,
    {
        match self {
            Item::Task(t) => t,
            Item::Event(_) => vstd::pervasive::unreached(),
        }
    }

    pub fn sync_status(&self) -> (r: &SyncStatus)
        ensures
            r == &self.spec_sync_status(),
    {
        match self {
            Item::Task(t) => t.sync_status(),
            Item::Event(e) => e.sync_status(),
        }
    }

    pub open spec fn spec_sync_status(&self) -> SyncStatus {
        match self {
            Item::Task(t) => t.sync_status,
            Item::Event(e) => e.spec_sync_status(),
        }
    }

    /// Record a status transition; transitions are caller-driven, and the
    /// sync core trusts them instead of diffing content.
    pub fn set_sync_status(&mut self, new_status: SyncStatus)
        ensures
            final(self).spec_sync_status() == new_status,
            (*final(self)) is Task <==> (*old(self)) is Task,
            final(self).spec_id() == old(self).spec_id(),
            final(self).spec_uid() == old(self).spec_uid(),
            final(self).spec_name() == old(self).spec_name(),
    {
        match self {
            Item::Task(t) => t.set_sync_status(new_status),
            Item::Event(e) => e.set_sync_status(new_status),
        }
    }
}

impl Clone for Item {
    fn clone(&self) -> (r: Self)
        ensures
            r == *self,
    {
        match self {
            Item::Task(t) => Item::Task(t.clone()),
            Item::Event(e) => Item::Event(e.clone()),
        }
    }
}

impl HasKey for Item {
    open spec fn key(&self) -> Seq<char> {
        self.spec_id()@
    }
}

impl HasKey for ItemId {
    open spec fn key(&self) -> Seq<char> {
        self@
    }
}

} // verus!
