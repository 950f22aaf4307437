//! Tests for the iCalendar payload parser.

use caldav_sync::ical::parser::{parse, ParseErrorKind};
use caldav_sync::item::{ItemId, SyncStatus, VersionTag};

const EXAMPLE_ICAL: &str = r#"BEGIN:VCALENDAR
VERSION:2.0
PRODID:-//Nextcloud Tasks v0.13.6
BEGIN:VTODO
UID:0633de27-8c32-42be-bcb8-63bc879c6185@some-domain.com
CREATED:20210321T001600
LAST-MODIFIED:20210321T001600
DTSTAMP:20210321T001600
SUMMARY:Do not forget to do this
END:VTODO
END:VCALENDAR
"#;

const EXAMPLE_ICAL_COMPLETED: &str = r#"BEGIN:VCALENDAR
VERSION:2.0
PRODID:-//Nextcloud Tasks v0.13.6
BEGIN:VTODO
UID:19960401T080045Z-4000F192713-0052@example.com
CREATED:20210321T001600
LAST-MODIFIED:20210402T081557
DTSTAMP:20210402T081557
SUMMARY:Clean up your room or Mom will be angry
PERCENT-COMPLETE:100
COMPLETED:20210402T081557
STATUS:COMPLETED
END:VTODO
END:VCALENDAR
"#;

const EXAMPLE_MULTIPLE_ICAL: &str = r#"BEGIN:VCALENDAR
VERSION:2.0
PRODID:-//Nextcloud Tasks v0.13.6
BEGIN:VTODO
UID:0633de27-8c32-42be-bcb8-63bc879c6185
CREATED:20210321T001600
LAST-MODIFIED:20210321T001600
DTSTAMP:20210321T001600
SUMMARY:Call Mom
END:VTODO
END:VCALENDAR
BEGIN:VCALENDAR
BEGIN:VTODO
UID:0633de27-8c32-42be-bcb8-63bc879c6185
CREATED:20210321T001600
LAST-MODIFIED:20210321T001600
DTSTAMP:20210321T001600
SUMMARY:Buy a gift for Mom
END:VTODO
END:VCALENDAR
"#;

fn test_id() -> ItemId {
    ItemId::new(String::from("http://some.id/for/testing"))
}

#[test]
fn test_ical_parsing() {
    let version_tag = VersionTag::from(String::from("test-tag"));
    let sync_status = SyncStatus::Synced(version_tag);
    let item_id: ItemId = test_id();

    let item = parse(EXAMPLE_ICAL, item_id.clone(), sync_status.clone()).unwrap();
    let task = item.unwrap_task();

    assert_eq!(task.name(), "Do not forget to do this");
    assert_eq!(task.id(), &item_id);
    assert_eq!(task.uid(), "0633de27-8c32-42be-bcb8-63bc879c6185@some-domain.com");
    assert_eq!(task.completed(), false);
    assert_eq!(task.sync_status(), &sync_status);
}

#[test]
fn test_ical_completion_parsing() {
    let version_tag = VersionTag::from(String::from("test-tag"));
    let sync_status = SyncStatus::Synced(version_tag);
    let item_id: ItemId = test_id();

    let item = parse(EXAMPLE_ICAL_COMPLETED, item_id.clone(), sync_status.clone()).unwrap();
    let task = item.unwrap_task();

    assert_eq!(task.completed(), true);
}

#[test]
fn test_multiple_items_in_ical() {
    let version_tag = VersionTag::from(String::from("test-tag"));
    let sync_status = SyncStatus::Synced(version_tag);
    let item_id: ItemId = test_id();

    let item = parse(EXAMPLE_MULTIPLE_ICAL, item_id.clone(), sync_status.clone());
    assert!(item.is_err());
}

#[test]
fn test_empty_envelope_rejected() {
    let payload = "BEGIN:VCALENDAR\nVERSION:2.0\nEND:VCALENDAR\n";
    let r = parse(payload, test_id(), SyncStatus::NotSynced);
    let e = r.unwrap_err();
    assert_eq!(e.kind, ParseErrorKind::NotASingleItem);
    assert_eq!(e.item_id, test_id());
}

#[test]
fn test_todo_and_event_together_rejected() {
    let payload = "BEGIN:VCALENDAR\nBEGIN:VTODO\nSUMMARY:x\nUID:u\nEND:VTODO\nBEGIN:VEVENT\nEND:VEVENT\nEND:VCALENDAR\n";
    let e = parse(payload, test_id(), SyncStatus::NotSynced).unwrap_err();
    assert_eq!(e.kind, ParseErrorKind::NotASingleItem);
}

#[test]
fn test_no_envelope_rejected() {
    let e = parse("hello world\n", test_id(), SyncStatus::NotSynced).unwrap_err();
    assert_eq!(e.kind, ParseErrorKind::InvalidData);
    let e2 = parse("", test_id(), SyncStatus::NotSynced).unwrap_err();
    assert_eq!(e2.kind, ParseErrorKind::InvalidData);
}

#[test]
fn test_unterminated_envelope_rejected() {
    let payload = "BEGIN:VCALENDAR\nBEGIN:VTODO\nSUMMARY:x\nUID:u\nEND:VTODO\n";
    let e = parse(payload, test_id(), SyncStatus::NotSynced).unwrap_err();
    assert_eq!(e.kind, ParseErrorKind::InvalidData);
}

#[test]
fn test_missing_summary_rejected() {
    let payload = "BEGIN:VCALENDAR\nBEGIN:VTODO\nUID:u\nEND:VTODO\nEND:VCALENDAR\n";
    let e = parse(payload, test_id(), SyncStatus::NotSynced).unwrap_err();
    assert_eq!(e.kind, ParseErrorKind::MissingName);
}

#[test]
fn test_missing_uid_rejected() {
    let payload = "BEGIN:VCALENDAR\nBEGIN:VTODO\nSUMMARY:s\nEND:VTODO\nEND:VCALENDAR\n";
    let e = parse(payload, test_id(), SyncStatus::NotSynced).unwrap_err();
    assert_eq!(e.kind, ParseErrorKind::MissingUid);
}

#[test]
fn test_second_envelope_rejected_after_event() {
    let payload =
        "BEGIN:VCALENDAR\nBEGIN:VEVENT\nEND:VEVENT\nEND:VCALENDAR\nBEGIN:VCALENDAR\nEND:VCALENDAR\n";
    let e = parse(payload, test_id(), SyncStatus::NotSynced).unwrap_err();
    assert_eq!(e.kind, ParseErrorKind::MultipleItems);
}

#[test]
fn test_event_payload_gives_placeholder_event() {
    let payload = "BEGIN:VCALENDAR\nBEGIN:VEVENT\nSUMMARY:party\nEND:VEVENT\nEND:VCALENDAR\n";
    let item = parse(payload, test_id(), SyncStatus::NotSynced).unwrap();
    assert!(!item.is_task());
}

#[test]
fn test_crlf_line_endings_accepted() {
    let payload =
        "BEGIN:VCALENDAR\r\nBEGIN:VTODO\r\nSUMMARY:crlf task\r\nUID:u1\r\nEND:VTODO\r\nEND:VCALENDAR\r\n";
    let item = parse(payload, test_id(), SyncStatus::NotSynced).unwrap();
    let task = item.unwrap_task();
    assert_eq!(task.name(), "crlf task");
    assert_eq!(task.uid(), "u1");
}

#[test]
fn test_status_other_than_completed_is_not_completed() {
    let payload =
        "BEGIN:VCALENDAR\nBEGIN:VTODO\nSUMMARY:s\nUID:u\nSTATUS:NEEDS-ACTION\nEND:VTODO\nEND:VCALENDAR\n";
    let item = parse(payload, test_id(), SyncStatus::NotSynced).unwrap();
    assert_eq!(item.unwrap_task().completed(), false);
}

#[test]
fn test_later_summary_overrides_earlier() {
    let payload =
        "BEGIN:VCALENDAR\nBEGIN:VTODO\nSUMMARY:first\nSUMMARY:second\nUID:u\nEND:VTODO\nEND:VCALENDAR\n";
    let item = parse(payload, test_id(), SyncStatus::NotSynced).unwrap();
    assert_eq!(item.unwrap_task().name(), "second");
}
