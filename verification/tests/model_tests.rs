//! Tests for the item and event model and the XML tree walks.

use caldav_sync::event::{Event, EventTime};
use caldav_sync::item::{Item, ItemId, SyncStatus, Task, VersionTag};
use caldav_sync::utils::{find_elem, find_elems, XmlNode};

#[test]
fn event_time_accessors() {
    let d = EventTime::Date(18700);
    assert_eq!(d.as_date(), Some(18700));
    assert_eq!(d.as_datetime(), None);
    let t = EventTime::DateTime(1616284560);
    assert_eq!(t.as_date(), None);
    assert_eq!(t.as_datetime(), Some(1616284560));
}

fn sample_timed_event(name: &str, last_modified: i64) -> Event {
    Event::new_timed(
        String::from(name),
        String::from("uid-1"),
        1616284560,
        1616288160,
        Some(String::from("somewhere")),
        None,
        ItemId::new(String::from("http://x/ev")),
        SyncStatus::NotSynced,
        last_modified,
        Some(1616280000),
        String::from("-//test//"),
    )
}

#[test]
fn event_builders_fill_every_field() {
    let e = sample_timed_event("party", 1616284560);
    assert_eq!(e.name(), "party");
    assert_eq!(e.uid(), "uid-1");
    assert_eq!(e.dtstart(), &EventTime::DateTime(1616284560));
    assert_eq!(e.dtend(), &EventTime::DateTime(1616288160));
    assert_eq!(e.location(), Some(&String::from("somewhere")));
    assert_eq!(e.description(), None);
    assert_eq!(e.ical_prod_id(), "-//test//");
    assert_eq!(e.last_modified(), 1616284560);
    assert_eq!(e.creation_date(), Some(1616280000));
    assert_eq!(e.url().as_str(), "http://x/ev");
    assert_eq!(e.sync_status(), &SyncStatus::NotSynced);

    let a = Event::new_all_day(
        String::from("holiday"),
        String::from("uid-2"),
        18700,
        18701,
        None,
        None,
        ItemId::new(String::from("http://x/ev2")),
        SyncStatus::NotSynced,
        0,
        None,
        String::from(""),
    );
    assert_eq!(a.dtstart(), &EventTime::Date(18700));
    assert_eq!(a.dtend(), &EventTime::Date(18701));
}

#[test]
fn event_observable_content_ignores_sync_status() {
    let mut e1 = sample_timed_event("party", 7);
    let e2 = sample_timed_event("party", 7);
    e1.set_sync_status(SyncStatus::Synced(VersionTag::from(String::from("v"))));
    assert!(e1.has_same_observable_content_as(&e2));
    let e3 = sample_timed_event("other party", 7);
    assert!(!e1.has_same_observable_content_as(&e3));
    let e4 = sample_timed_event("party", 8);
    assert!(!e1.has_same_observable_content_as(&e4));
}

#[test]
fn item_accessors_cover_both_kinds() {
    let t = Item::Task(Task::new_with_parameters(
        String::from("name"),
        true,
        String::from("uid"),
        ItemId::new(String::from("http://x/t")),
        SyncStatus::NotSynced,
    ));
    assert!(t.is_task());
    assert_eq!(t.name(), "name");
    assert_eq!(t.uid(), "uid");
    assert_eq!(t.id().as_str(), "http://x/t");
    assert_eq!(t.unwrap_task().completed(), true);

    let e = Item::Event(sample_timed_event("party", 7));
    assert!(!e.is_task());
    assert_eq!(e.name(), "party");
    assert_eq!(e.uid(), "uid-1");
    assert_eq!(e.id().as_str(), "http://x/ev");
}

#[test]
fn version_tags_compare_by_text() {
    assert_eq!(VersionTag::from(String::from("a")), VersionTag::from(String::from("a")));
    assert_ne!(VersionTag::from(String::from("a")), VersionTag::from(String::from("b")));
    assert_eq!(VersionTag::from(String::from("a")).as_str(), "a");
    assert_eq!(
        SyncStatus::Synced(VersionTag::from(String::from("a"))),
        SyncStatus::Synced(VersionTag::from(String::from("a")))
    );
    assert_ne!(
        SyncStatus::Synced(VersionTag::from(String::from("a"))),
        SyncStatus::LocallyModified(VersionTag::from(String::from("a")))
    );
}

fn leaf(name: &str) -> XmlNode {
    XmlNode { name: String::from(name), children: Vec::new() }
}

fn node(name: &str, children: Vec<XmlNode>) -> XmlNode {
    XmlNode { name: String::from(name), children }
}

#[test]
fn find_elems_collects_matches_without_descending_into_them() {
    let tree = node(
        "root",
        vec![
            leaf("a"),
            node("b", vec![leaf("a"), node("a", vec![leaf("a")])]),
            leaf("c"),
        ],
    );
    let found = find_elems(&tree, "a");
    // the "a" nested inside a matching "a" is not reported
    assert_eq!(found.len(), 3);
    for el in &found {
        assert_eq!(el.name, "a");
    }
    // the root name never matches
    let roots = find_elems(&tree, "root");
    assert_eq!(roots.len(), 0);
}

#[test]
fn find_elem_returns_first_match_in_preorder() {
    let tree = node(
        "root",
        vec![node("b", vec![leaf("x")]), leaf("x"), leaf("y")],
    );
    let found = find_elem(&tree, "x").unwrap();
    assert_eq!(found.name, "x");
    assert!(find_elem(&tree, "missing").is_none());
    // the root itself counts
    assert_eq!(find_elem(&tree, "root").unwrap().name, "root");
    // the nested "x" under "b" comes before the sibling "x"
    let under_b = find_elem(&tree, "b").unwrap();
    assert_eq!(under_b.children.len(), 1);
}
