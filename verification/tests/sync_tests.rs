//! Tests for the sync orchestrator and its data model.

use caldav_sync::calendar::{Calendar, CalendarId};
use caldav_sync::ical::parser::parse;
use caldav_sync::item::{Item, ItemId, SyncStatus, Task, VersionTag};
use caldav_sync::provider::Provider;
use caldav_sync::source::{LocalSource, Source};

fn id(s: &str) -> ItemId {
    ItemId::new(String::from(s))
}

fn cal_id(s: &str) -> CalendarId {
    CalendarId::new(String::from(s))
}

fn tag(s: &str) -> VersionTag {
    VersionTag::from(String::from(s))
}

fn task(url: &str, name: &str, status: SyncStatus) -> Item {
    Item::Task(Task::new_with_parameters(
        String::from(name),
        false,
        format!("{}-uid", name),
        id(url),
        status,
    ))
}

/// The observable content of one calendar, sorted: (id, name, completed).
fn snapshot(cal: &Calendar) -> Vec<(String, String, bool)> {
    let mut v: Vec<(String, String, bool)> = cal
        .get_items()
        .iter()
        .map(|it| {
            let t = it.unwrap_task();
            (
                t.id().as_str().to_string(),
                t.name().to_string(),
                t.completed(),
            )
        })
        .collect();
    v.sort();
    v
}

fn provider_with(server_cal: Calendar, local_cal: Calendar, watermark: Option<i64>) -> Provider {
    let mut server = Source::new();
    server.add_calendar(cal_id("cal"), server_cal);
    let mut local = LocalSource::new();
    local.add_calendar(cal_id("cal"), local_cal);
    if let Some(t) = watermark {
        local.update_last_sync(Some(t));
    }
    Provider::new(server, local)
}

fn local_snapshot(p: &Provider) -> Vec<(String, String, bool)> {
    snapshot(p.local().get_calendar(&cal_id("cal")).unwrap())
}

fn server_snapshot(p: &Provider) -> Vec<(String, String, bool)> {
    snapshot(p.server().get_calendar(&cal_id("cal")).unwrap())
}

#[test]
fn first_sync_pulls_server_items_and_pushes_local_items() {
    let mut server_cal = Calendar::new();
    server_cal.add_item(task("http://x/a", "a", SyncStatus::Synced(tag("t1"))), 1);
    let mut local_cal = Calendar::new();
    local_cal.add_item(task("http://x/b", "b", SyncStatus::NotSynced), 1);
    let mut p = provider_with(server_cal, local_cal, None);

    p.sync_at(10);

    let expect = vec![
        (String::from("http://x/a"), String::from("a"), false),
        (String::from("http://x/b"), String::from("b"), false),
    ];
    assert_eq!(local_snapshot(&p), expect);
    assert_eq!(server_snapshot(&p), expect);
    assert_eq!(p.last_sync_timestamp(), Some(10));
}

#[test]
fn sync_twice_changes_nothing() {
    let mut server_cal = Calendar::new();
    server_cal.add_item(task("http://x/a", "a", SyncStatus::Synced(tag("t1"))), 1);
    server_cal.add_item(task("http://x/c", "c", SyncStatus::Synced(tag("t2"))), 2);
    let mut local_cal = Calendar::new();
    local_cal.add_item(task("http://x/b", "b", SyncStatus::NotSynced), 1);
    let mut p = provider_with(server_cal, local_cal, None);

    p.sync_at(10);
    let local_1 = local_snapshot(&p);
    let server_1 = server_snapshot(&p);

    p.sync_at(20);
    assert_eq!(local_snapshot(&p), local_1);
    assert_eq!(server_snapshot(&p), server_1);
}

#[test]
fn server_wins_when_both_sides_modified() {
    // local has task A (synced at tag t1), then modified locally; the server
    // reports A modified with tag t2
    let mut server_cal = Calendar::new();
    server_cal.add_item(task("http://x/a", "a server version", SyncStatus::Synced(tag("t2"))), 5);
    let mut local_cal = Calendar::new();
    local_cal.add_item(
        task("http://x/a", "a local edit", SyncStatus::LocallyModified(tag("t1"))),
        5,
    );
    let mut p = provider_with(server_cal, local_cal, Some(3));

    p.sync_at(10);

    let expect = vec![(
        String::from("http://x/a"),
        String::from("a server version"),
        false,
    )];
    assert_eq!(local_snapshot(&p), expect);
    assert_eq!(server_snapshot(&p), expect);

    // both sides carry the server's tag
    let local_cal = p.local().get_calendar(&cal_id("cal")).unwrap();
    let item = local_cal.get_item(&id("http://x/a")).unwrap();
    assert_eq!(
        item.unwrap_task().sync_status(),
        &SyncStatus::Synced(tag("t2"))
    );
}

#[test]
fn local_deletion_reaches_the_server() {
    let mut server_cal = Calendar::new();
    server_cal.add_item(task("http://x/a", "a", SyncStatus::Synced(tag("t1"))), 1);
    server_cal.add_item(task("http://x/b", "b", SyncStatus::Synced(tag("t2"))), 1);
    let mut local_cal = Calendar::new();
    local_cal.add_item(task("http://x/a", "a", SyncStatus::Synced(tag("t1"))), 1);
    local_cal.add_item(task("http://x/b", "b", SyncStatus::Synced(tag("t2"))), 1);
    // deleted locally after the watermark
    local_cal.delete_item(&id("http://x/a"), 5);
    let mut p = provider_with(server_cal, local_cal, Some(3));

    p.sync_at(10);

    let expect = vec![(String::from("http://x/b"), String::from("b"), false)];
    assert_eq!(server_snapshot(&p), expect);
    assert_eq!(local_snapshot(&p), expect);
}

#[test]
fn remote_deletion_reaches_the_local_store() {
    // the server no longer has A; the local store still does
    let mut server_cal = Calendar::new();
    server_cal.add_item(task("http://x/b", "b", SyncStatus::Synced(tag("t2"))), 1);
    let mut local_cal = Calendar::new();
    local_cal.add_item(task("http://x/a", "a", SyncStatus::Synced(tag("t1"))), 1);
    local_cal.add_item(task("http://x/b", "b", SyncStatus::Synced(tag("t2"))), 1);
    let mut p = provider_with(server_cal, local_cal, Some(3));

    p.sync_at(10);

    let expect = vec![(String::from("http://x/b"), String::from("b"), false)];
    assert_eq!(local_snapshot(&p), expect);
    assert_eq!(server_snapshot(&p), expect);
}

#[test]
fn local_deletion_of_server_modified_item_is_discarded() {
    // deleted locally, but the server modified it since the watermark: the
    // server version comes back
    let mut server_cal = Calendar::new();
    server_cal.add_item(task("http://x/a", "a v2", SyncStatus::Synced(tag("t2"))), 5);
    let mut local_cal = Calendar::new();
    local_cal.add_item(task("http://x/a", "a", SyncStatus::Synced(tag("t1"))), 1);
    local_cal.delete_item(&id("http://x/a"), 6);
    let mut p = provider_with(server_cal, local_cal, Some(3));

    p.sync_at(10);

    let expect = vec![(String::from("http://x/a"), String::from("a v2"), false)];
    assert_eq!(local_snapshot(&p), expect);
    assert_eq!(server_snapshot(&p), expect);
}

#[test]
fn watermark_advances_only_to_the_pass_time() {
    let mut p = provider_with(Calendar::new(), Calendar::new(), Some(3));
    assert_eq!(p.last_sync_timestamp(), Some(3));
    p.sync_at(10);
    assert_eq!(p.last_sync_timestamp(), Some(10));
    p.sync_at(15);
    assert_eq!(p.last_sync_timestamp(), Some(15));
}

#[test]
fn server_calendar_without_local_counterpart_is_skipped() {
    let mut server = Source::new();
    let mut server_cal = Calendar::new();
    server_cal.add_item(task("http://x/a", "a", SyncStatus::Synced(tag("t1"))), 1);
    server.add_calendar(cal_id("only-on-server"), server_cal);
    let local = LocalSource::new();
    let mut p = Provider::new(server, local);

    p.sync_at(10);

    // the server calendar is untouched, and none was created locally
    let sc = p.server().get_calendar(&cal_id("only-on-server")).unwrap();
    assert_eq!(sc.get_items().len(), 1);
    assert!(p.local().get_calendar(&cal_id("only-on-server")).is_none());
    assert_eq!(p.last_sync_timestamp(), Some(10));
}

#[test]
fn first_sync_with_parsed_vtodo_lands_locally() {
    // first-ever sync against a server calendar holding one parsed VTODO
    let payload = "BEGIN:VCALENDAR\nVERSION:2.0\nBEGIN:VTODO\nUID:0633de27-8c32-42be-bcb8-63bc879c6185@some-domain.com\nSUMMARY:Do not forget to do this\nEND:VTODO\nEND:VCALENDAR\n";
    let item_id = id("http://server/calendar/item1.ics");
    let item = parse(payload, item_id.clone(), SyncStatus::Synced(tag("etag-1"))).unwrap();

    let mut server_cal = Calendar::new();
    server_cal.add_item(item, 1);
    let mut p = provider_with(server_cal, Calendar::new(), None);

    p.sync_at(10);

    let local_cal = p.local().get_calendar(&cal_id("cal")).unwrap();
    let got = local_cal.get_item(&item_id).unwrap();
    let t = got.unwrap_task();
    assert_eq!(t.name(), "Do not forget to do this");
    assert_eq!(t.uid(), "0633de27-8c32-42be-bcb8-63bc879c6185@some-domain.com");
    assert_eq!(t.completed(), false);
}

#[test]
fn sync_with_the_real_clock_succeeds_and_sets_a_watermark() {
    let mut server_cal = Calendar::new();
    server_cal.add_item(task("http://x/a", "a", SyncStatus::Synced(tag("t1"))), 1);
    let mut p = provider_with(server_cal, Calendar::new(), None);
    assert!(p.last_sync_timestamp().is_none());

    let r = p.sync();

    assert!(r.is_ok());
    let watermark = p.last_sync_timestamp().expect("a successful pass sets the watermark");
    // the clock reading is a plausible wall-clock time, not a constant
    assert!(watermark > 1_600_000_000);
    assert_eq!(
        local_snapshot(&p),
        vec![(String::from("http://x/a"), String::from("a"), false)]
    );
}

#[test]
fn update_last_sync_without_timestamp_means_now() {
    let mut local = LocalSource::new();
    assert!(local.get_last_sync().is_none());
    local.update_last_sync(None);
    let t = local.get_last_sync().expect("the watermark is set");
    assert!(t > 1_600_000_000);
    local.update_last_sync(Some(42));
    assert_eq!(local.get_last_sync(), Some(42));
}

#[test]
fn calendar_queries_answer_exactly() {
    let mut cal = Calendar::new();
    cal.add_item(task("http://x/a", "a", SyncStatus::NotSynced), 2);
    cal.add_item(task("http://x/b", "b", SyncStatus::NotSynced), 5);
    cal.delete_item(&id("http://x/b"), 6);

    // point query
    assert!(cal.get_item(&id("http://x/a")).is_some());
    assert!(cal.get_item(&id("http://x/b")).is_none());

    // modified-since: strict, and None means everything
    let m = cal.get_items_modified_since(Some(2), None);
    assert_eq!(m.len(), 0);
    let m = cal.get_items_modified_since(Some(1), None);
    assert_eq!(m.len(), 1);
    assert_eq!(m[0].unwrap_task().name(), "a");
    let m = cal.get_items_modified_since(None, None);
    assert_eq!(m.len(), 1);

    // deleted-since: strict
    let d = cal.get_items_deleted_since(6);
    assert_eq!(d.len(), 0);
    let d = cal.get_items_deleted_since(5);
    assert_eq!(d.len(), 1);
    assert_eq!(d[0].as_str(), "http://x/b");

    // absent ids of a known list
    let known = vec![id("http://x/a"), id("http://x/z")];
    let missing = cal.find_deletions_from(&known);
    assert_eq!(missing.len(), 1);
    assert_eq!(missing[0].as_str(), "http://x/z");
}

#[test]
fn modified_since_can_exclude_a_uid() {
    let mut cal = Calendar::new();
    cal.add_item(task("http://x/a", "a", SyncStatus::NotSynced), 2);
    cal.add_item(task("http://x/b", "b", SyncStatus::NotSynced), 2);
    let excluded = String::from("a-uid");
    let m = cal.get_items_modified_since(None, Some(&excluded));
    assert_eq!(m.len(), 1);
    assert_eq!(m[0].unwrap_task().name(), "b");
}
