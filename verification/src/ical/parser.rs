//! Parsing an iCalendar payload into an `Item`.
//!
//! A payload is a `BEGIN:VCALENDAR`/`END:VCALENDAR` envelope holding exactly
//! one `VTODO` or exactly one `VEVENT` block; anything else is rejected. A
//! `VTODO` must carry a `SUMMARY` and a `UID`; a `STATUS` of `COMPLETED`
//! sets the completion flag. A second envelope is rejected, never ignored.

use vstd::prelude::*;
use vstd::string::StrSliceExecFns;
use crate::calendar::str_eq;
use crate::event::{opt_string_clone, opt_string_view, Event};
use crate::item::{Item, ItemId, SyncStatus, Task};

verus! {

/// Why a payload was rejected.
#[derive(Clone, Copy, Debug, PartialEq, Eq, Structural)]
pub enum ParseErrorKind {
    /// No complete calendar envelope, or a broken component inside one.
    InvalidData,
    /// Not exactly one `VTODO` or exactly one `VEVENT`.
    NotASingleItem,
    /// The `VTODO` carries no `SUMMARY` value.
    MissingName,
    /// The `VTODO` carries no `UID` value.
    MissingUid,
    /// A second calendar envelope follows the first.
    MultipleItems,
}

/// A rejected payload, named after the item it was fetched for.
#[derive(Debug)]
pub struct ParseError {
    pub kind: ParseErrorKind,
    pub item_id: ItemId,
}

// --- the grammar, as functions over the payload's characters ---

/// The index of the first newline of `s` (the length when there is none),
/// clamped into range so that callers may slice with it.
pub open spec fn nl_index(s: Seq<char>) -> int {
    clamp_index(first_nl(s), s.len() as int)
}

pub open spec fn clamp_index(i: int, len: int) -> int {
    if 0 <= i <= len {
        i
    } else {
        len
    }
}

pub open spec fn first_nl(s: Seq<char>) -> int
    decreases s.len(),
{
    if s.len() == 0 {
        0
    } else if s[0] == '\n' {
        0
    } else {
        1 + first_nl(s.subrange(1, s.len() as int))
    }
}

/// A line with a trailing carriage return loses it.
pub open spec fn strip_cr(l: Seq<char>) -> Seq<char> {
    if l.len() > 0 && l.last() == '\r' {
        l.drop_last()
    } else {
        l
    }
}

/// The payload split at newlines, each line stripped of a trailing carriage
/// return; a trailing newline does not open an empty final line.
pub open spec fn split_lines(s: Seq<char>) -> Seq<Seq<char>>
    decreases s.len(),
{
    if s.len() == 0 {
        Seq::empty()
    } else {
        let i = nl_index(s);
        if i == s.len() {
            seq![strip_cr(s)]
        } else {
            seq![strip_cr(s.subrange(0, i))] + split_lines(s.subrange(i + 1, s.len() as int))
        }
    }
}

/// The first index at or after `from` whose line equals `x`; the number of
/// lines when none does.
pub open spec fn find_line(lines: Seq<Seq<char>>, x: Seq<char>, from: int) -> int
    decreases lines.len() - from
        when from >= 0
{
    if from >= lines.len() {
        lines.len() as int
    } else if lines[from] == x {
        from
    } else {
        find_line(lines, x, from + 1)
    }
}

/// How many lines equal `x`.
pub open spec fn count_eq(lines: Seq<Seq<char>>, x: Seq<char>) -> int
    decreases lines.len(),
{
    if lines.len() == 0 {
        0int
    } else {
        count_eq(lines.drop_last(), x) + if lines.last() == x {
            1int
        } else {
            0int
        }
    }
}

/// The first index of `s` holding `a` or `b` (the length when none does),
/// clamped into range.
pub open spec fn stop_index(s: Seq<char>, a: char, b: char) -> int {
    clamp_index(first_stop(s, a, b), s.len() as int)
}

pub open spec fn first_stop(s: Seq<char>, a: char, b: char) -> int
    decreases s.len(),
{
    if s.len() == 0 {
        0
    } else if s[0] == a || s[0] == b {
        0
    } else {
        1 + first_stop(s.subrange(1, s.len() as int), a, b)
    }
}

/// A property line's name: what stands before the first `:` or `;`.
pub open spec fn prop_name(l: Seq<char>) -> Seq<char> {
    l.subrange(0, stop_index(l, ':', ';'))
}

/// A property line's value: what stands after the first `:`, if any.
pub open spec fn prop_value(l: Seq<char>) -> Option<Seq<char>> {
    if stop_index(l, ':', ':') == l.len() {
        None
    } else {
        Some(l.subrange(stop_index(l, ':', ':') + 1, l.len() as int))
    }
}

/// The value of the last property line named `n` in a block (`None` when no
/// such line exists, or when the last one carries no value): a later
/// occurrence overrides an earlier one.
pub open spec fn last_prop(block: Seq<Seq<char>>, n: Seq<char>) -> Option<Seq<char>>
    decreases block.len(),
{
    if block.len() == 0 {
        None
    } else if prop_name(block.last()) == n {
        prop_value(block.last())
    } else {
        last_prop(block.drop_last(), n)
    }
}

/// Whether any line of the block reads `STATUS` with the value `COMPLETED`.
pub open spec fn has_completed(block: Seq<Seq<char>>) -> bool
    decreases block.len(),
{
    block.len() > 0 && ((prop_name(block.last()) == "STATUS"@ && prop_value(block.last()) == Some(
        "COMPLETED"@,
    )) || has_completed(block.drop_last()))
}

// --- the payload's structure ---

pub open spec fn lines_of(s: Seq<char>) -> Seq<Seq<char>> {
    split_lines(s)
}

pub open spec fn cal_open(s: Seq<char>) -> int {
    find_line(lines_of(s), "BEGIN:VCALENDAR"@, 0)
}

pub open spec fn cal_close(s: Seq<char>) -> int {
    find_line(lines_of(s), "END:VCALENDAR"@, cal_open(s) + 1)
}

/// Whether the payload holds a complete calendar envelope.
pub open spec fn has_envelope(s: Seq<char>) -> bool {
    cal_open(s) < lines_of(s).len() && cal_close(s) < lines_of(s).len()
}

/// The lines strictly inside the first envelope.
pub open spec fn envelope(s: Seq<char>) -> Seq<Seq<char>> {
    lines_of(s).subrange(cal_open(s) + 1, cal_close(s))
}

/// Whether a second calendar envelope opens after the first closes.
pub open spec fn extra_calendar(s: Seq<char>) -> bool {
    find_line(lines_of(s), "BEGIN:VCALENDAR"@, cal_close(s) + 1) < lines_of(s).len()
}

pub open spec fn n_events(s: Seq<char>) -> int {
    count_eq(envelope(s), "BEGIN:VEVENT"@)
}

pub open spec fn n_todos(s: Seq<char>) -> int {
    count_eq(envelope(s), "BEGIN:VTODO"@)
}

pub open spec fn n_journals(s: Seq<char>) -> int {
    count_eq(envelope(s), "BEGIN:VJOURNAL"@)
}

/// Exactly one `VEVENT` and nothing else.
pub open spec fn single_event(s: Seq<char>) -> bool {
    n_events(s) == 1 && n_todos(s) == 0 && n_journals(s) == 0
}

/// Exactly one `VTODO` and nothing else.
pub open spec fn single_todo(s: Seq<char>) -> bool {
    n_todos(s) == 1 && n_events(s) == 0 && n_journals(s) == 0
}

pub open spec fn todo_open(s: Seq<char>) -> int {
    find_line(envelope(s), "BEGIN:VTODO"@, 0)
}

pub open spec fn todo_close(s: Seq<char>) -> int {
    find_line(envelope(s), "END:VTODO"@, todo_open(s) + 1)
}

/// Whether the first `VTODO` block is closed by an `END:VTODO`.
pub open spec fn todo_closed(s: Seq<char>) -> bool {
    todo_close(s) < envelope(s).len()
}

/// The property lines of the first `VTODO` block.
pub open spec fn todo_block(s: Seq<char>) -> Seq<Seq<char>> {
    envelope(s).subrange(todo_open(s) + 1, todo_close(s))
}

/// The task name the payload carries (its last `SUMMARY` value).
pub open spec fn summary_of(s: Seq<char>) -> Option<Seq<char>> {
    last_prop(todo_block(s), "SUMMARY"@)
}

/// The stable identifier the payload carries (its last `UID` value).
pub open spec fn uid_of(s: Seq<char>) -> Option<Seq<char>> {
    last_prop(todo_block(s), "UID"@)
}

/// Whether the payload marks the task completed.
pub open spec fn completed_of(s: Seq<char>) -> bool {
    has_completed(todo_block(s))
}

// --- lemmas tying scans to the grammar functions ---

/// `first_nl` is characterized by "no newline before, a newline at" (with
/// the length standing for "none at all").
pub proof fn lemma_first_nl_at(s: Seq<char>, i: int)
    requires
        0 <= i <= s.len(),
        forall|j: int| 0 <= j < i ==> s[j] != '\n',
        i < s.len() ==> s[i] == '\n',
    ensures
        first_nl(s) == i,
        nl_index(s) == i,
    decreases s.len(),
{
    if s.len() == 0 {
    } else if i == 0 {
    } else {
        let t = s.subrange(1, s.len() as int);
        assert forall|j: int| 0 <= j < i - 1 implies t[j] != '\n' by {
            assert(t[j] == s[j + 1]);
        }
        assert(i - 1 < t.len() ==> t[i - 1] == s[i]);
        lemma_first_nl_at(t, i - 1);
    }
}

/// `first_stop` is characterized the same way.
pub proof fn lemma_first_stop_at(s: Seq<char>, a: char, b: char, i: int)
    requires
        0 <= i <= s.len(),
        forall|j: int| 0 <= j < i ==> s[j] != a && s[j] != b,
        i < s.len() ==> (s[i] == a || s[i] == b),
    ensures
        first_stop(s, a, b) == i,
        stop_index(s, a, b) == i,
    decreases s.len(),
{
    if s.len() == 0 {
    } else if i == 0 {
    } else {
        let t = s.subrange(1, s.len() as int);
        assert forall|j: int| 0 <= j < i - 1 implies t[j] != a && t[j] != b by {
            assert(t[j] == s[j + 1]);
        }
        assert(i - 1 < t.len() ==> t[i - 1] == s[i]);
        lemma_first_stop_at(t, a, b, i - 1);
    }
}

/// `find_line` is characterized by "no match before, a match at".
pub proof fn lemma_find_line_at(lines: Seq<Seq<char>>, x: Seq<char>, from: int, i: int)
    requires
        0 <= from <= i <= lines.len(),
        forall|j: int| from <= j < i ==> lines[j] != x,
        i < lines.len() ==> lines[i] == x,
    ensures
        find_line(lines, x, from) == i,
    decreases lines.len() - from,
{
    if from < lines.len() && from < i {
        lemma_find_line_at(lines, x, from + 1, i);
    }
}

/// A block with no line equal to `x` counts none.
pub proof fn lemma_count_none(lines: Seq<Seq<char>>, x: Seq<char>)
    requires
        forall|j: int| 0 <= j < lines.len() ==> lines[j] != x,
    ensures
        count_eq(lines, x) == 0,
    decreases lines.len(),
{
    if lines.len() > 0 {
        assert forall|j: int| 0 <= j < lines.drop_last().len() implies lines.drop_last()[j]
            != x by {
            assert(lines.drop_last()[j] == lines[j]);
        }
        lemma_count_none(lines.drop_last(), x);
    }
}

/// One splitting step: with no newline between `start` and a newline at `i`,
/// the suffix's lines are the line `[start, i)` followed by the lines of the
/// suffix past the newline.
pub proof fn lemma_split_step(s: Seq<char>, start: int, i: int)
    requires
        0 <= start <= i < s.len(),
        forall|j: int| start <= j < i ==> s[j] != '\n',
        s[i] == '\n',
    ensures
        split_lines(s.subrange(start, s.len() as int)) == seq![
            strip_cr(s.subrange(start, i)),
        ] + split_lines(s.subrange(i + 1, s.len() as int)),
{
    let t = s.subrange(start, s.len() as int);
    assert forall|j: int| 0 <= j < i - start implies t[j] != '\n' by {
        assert(t[j] == s[j + start]);
    }
    assert(t[i - start] == '\n');
    lemma_first_nl_at(t, i - start);
    assert(t.subrange(0, i - start) =~= s.subrange(start, i));
    assert(t.subrange(i - start + 1, t.len() as int) =~= s.subrange(i + 1, s.len() as int));
}

// --- the executable parser ---

/// The text of each line of a list.
pub open spec fn views_of(lines: Seq<String>) -> Seq<Seq<char>> {
    lines.map_values(|l: String| l@)
}

/// Split a payload into lines, as `split_lines` reads it.
#[verifier::loop_isolation(false)]
fn split_into_lines(content: &str) -> (r: Vec<String>)
    ensures
        views_of(r@) == split_lines(content@),
{
    let ghost s = content@;
    let n = content.unicode_len();
    let mut acc: Vec<String> = Vec::new();
    let mut start: usize = 0;
    let mut i: usize = 0;
    proof {
        assert(s.subrange(0, s.len() as int) =~= s);
        assert(views_of(acc@) =~= Seq::<Seq<char>>::empty());
        assert(split_lines(s) =~= views_of(acc@) + split_lines(s.subrange(0, s.len() as int)));
    }
    while i < n
        invariant
            n == s.len(),
            start <= i <= n,
            forall|j: int| start <= j < i ==> s[j] != '\n',
            split_lines(s) == views_of(acc@) + split_lines(s.subrange(start as int, s.len() as int)),
        decreases n - i,
    {
        let c = content.get_char(i);
        if c == '\n' {
            let end: usize = if i > start && content.get_char(i - 1) == '\r' {
                i - 1
            } else {
                i
            };
            let line: String = content.substring_char(start, end).to_owned();
            proof {
                let raw = s.subrange(start as int, i as int);
                if i > start && s[i as int - 1] == '\r' {
                    assert(raw.len() > 0 && raw.last() == '\r');
                    assert(raw.drop_last() =~= s.subrange(start as int, i as int - 1));
                    assert(line@ == strip_cr(raw));
                } else {
                    if raw.len() > 0 {
                        assert(raw.last() == s[i as int - 1]);
                    }
                    assert(line@ == strip_cr(raw));
                }
            }
            let ghost acc_pre = acc@;
            acc.push(line);
            proof {
                lemma_split_step(s, start as int, i as int);
                assert(views_of(acc@) =~= views_of(acc_pre).push(line@));
                assert(split_lines(s) =~= views_of(acc@) + split_lines(
                    s.subrange(i as int + 1, s.len() as int),
                ));
            }
            start = i + 1;
        }
        i += 1;
    }
    if start < n {
        let end: usize = if content.get_char(n - 1) == '\r' {
            n - 1
        } else {
            n
        };
        let line: String = content.substring_char(start, end).to_owned();
        proof {
            let raw = s.subrange(start as int, s.len() as int);
            assert(raw.last() == s[s.len() - 1]);
            if s[s.len() - 1] == '\r' {
                assert(raw.drop_last() =~= s.subrange(start as int, s.len() as int - 1));
                assert(line@ == strip_cr(raw));
            } else {
                assert(line@ == strip_cr(raw));
            }
        }
        let ghost acc_pre = acc@;
        acc.push(line);
        proof {
            lemma_split_end(s, start as int);
            assert(views_of(acc@) =~= views_of(acc_pre).push(line@));
            assert(views_of(acc@) =~= split_lines(s));
        }
    } else {
        proof {
            lemma_split_end(s, start as int);
            assert(views_of(acc@) + split_lines(s.subrange(start as int, s.len() as int))
                =~= views_of(acc@));
        }
    }
    acc
}

/// The first line at or after `from` equal to `lit` (the line count when
/// none is).
#[verifier::loop_isolation(false)]
fn find_line_from(lines: &Vec<String>, lit: &str, from: usize) -> (r: usize)
    requires
        from <= lines@.len(),
    ensures
        from <= r <= lines@.len(),
        forall|j: int| from <= j < r ==> views_of(lines@)[j] != lit@,
        r < lines@.len() ==> views_of(lines@)[r as int] == lit@,
        find_line(views_of(lines@), lit@, from as int) == r,
{
    let mut j: usize = from;
    while j < lines.len()
        invariant
            from <= j <= lines@.len(),
            forall|m: int| from <= m < j ==> views_of(lines@)[m] != lit@,
        decreases lines@.len() - j,
    {
        if str_eq(lines[j].as_str(), lit) {
            proof {
                lemma_find_line_at(views_of(lines@), lit@, from as int, j as int);
            }
            return j;
        }
        j += 1;
    }
    proof {
        lemma_find_line_at(views_of(lines@), lit@, from as int, lines@.len() as int);
    }
    lines.len()
}

/// How many lines equal `lit`.
#[verifier::loop_isolation(false)]
fn count_line(lines: &Vec<String>, lit: &str) -> (r: usize)
    ensures
        r == count_eq(views_of(lines@), lit@),
{
    let mut r: usize = 0;
    let mut j: usize = 0;
    proof {
        assert(views_of(lines@).subrange(0, 0) =~= Seq::<Seq<char>>::empty());
    }
    while j < lines.len()
        invariant
            j <= lines@.len(),
            r <= j,
            r == count_eq(views_of(lines@).subrange(0, j as int), lit@),
        decreases lines@.len() - j,
    {
        let ghost pv = views_of(lines@);
        proof {
            assert(pv.subrange(0, j as int + 1).drop_last() =~= pv.subrange(0, j as int));
            assert(pv.subrange(0, j as int + 1).last() == pv[j as int]);
        }
        if str_eq(lines[j].as_str(), lit) {
            r += 1;
        }
        j += 1;
    }
    proof {
        assert(views_of(lines@).subrange(0, lines@.len() as int) =~= views_of(lines@));
    }
    r
}

/// The lines of the half-open range `[from, to)`, copied out.
#[verifier::loop_isolation(false)]
fn slice_lines(lines: &Vec<String>, from: usize, to: usize) -> (r: Vec<String>)
    requires
        from <= to <= lines@.len(),
    ensures
        views_of(r@) == views_of(lines@).subrange(from as int, to as int),
{
    let mut r: Vec<String> = Vec::new();
    let mut j: usize = from;
    while j < to
        invariant
            from <= j <= to <= lines@.len(),
            r@.len() == j - from,
            forall|m: int| 0 <= m < r@.len() ==> #[trigger] r@[m]@ == lines@[m + from]@,
        decreases to - j,
    {
        r.push(lines[j].clone());
        j += 1;
    }
    proof {
        assert(views_of(r@) =~= views_of(lines@).subrange(from as int, to as int));
    }
    r
}

/// The first position of `a` or `b` in the line (its length when absent).
#[verifier::loop_isolation(false)]
fn find_stop(l: &str, a: char, b: char) -> (r: usize)
    ensures
        r == stop_index(l@, a, b),
        r <= l@.len(),
{
    let n = l.unicode_len();
    let mut j: usize = 0;
    while j < n
        invariant
            j <= n,
            forall|m: int| 0 <= m < j ==> l@[m] != a && l@[m] != b,
        decreases n - j,
    {
        let c = l.get_char(j);
        if c == a || c == b {
            proof {
                lemma_first_stop_at(l@, a, b, j as int);
            }
            return j;
        }
        j += 1;
    }
    proof {
        lemma_first_stop_at(l@, a, b, n as int);
    }
    n
}

/// A property line's name and value.
#[verifier::loop_isolation(false)]
fn prop_parts(l: &str) -> (r: (String, Option<String>))
    ensures
        r.0@ == prop_name(l@),
        opt_string_view(r.1) == prop_value(l@),
{
    let n = l.unicode_len();
    let e1 = find_stop(l, ':', ';');
    let name: String = l.substring_char(0, e1).to_owned();
    let e2 = find_stop(l, ':', ':');
    let value: Option<String> = if e2 < n {
        Some(l.substring_char(e2 + 1, n).to_owned())
    } else {
        None
    };
    (name, value)
}

/// Parse an iCalendar payload into an `Item` for `item_id`, carrying
/// `sync_status`. The payload must hold one complete envelope with exactly
/// one `VTODO` (parsed into a task: last `SUMMARY` as name, last `UID` as
/// identifier, completed exactly when a `STATUS:COMPLETED` line occurs) or
/// exactly one `VEVENT` (a placeholder event, events being unsupported);
/// every other shape is rejected with the kind the clauses below give.
#[verifier::loop_isolation(false)]
pub fn parse(content: &str, item_id: ItemId, sync_status: SyncStatus) -> (r: Result<
    Item,
    ParseError,
>)
    ensures
        r is Err ==> (r->Err_0).item_id == item_id,
        !has_envelope(content@) ==> (r matches Err(e) && e.kind is InvalidData),
        has_envelope(content@) && !single_event(content@) && !single_todo(content@) ==> (r matches Err(
            e,
        ) && e.kind is NotASingleItem),
        has_envelope(content@) && single_event(content@) && extra_calendar(content@) ==> (r matches Err(
            e,
        ) && e.kind is MultipleItems),
        has_envelope(content@) && single_event(content@) && !extra_calendar(content@) ==> (r matches Ok(
            item,
        ) && item is Event),
        has_envelope(content@) && single_todo(content@) && !todo_closed(content@) ==> (r matches Err(
            e,
        ) && e.kind is InvalidData),
        has_envelope(content@) && single_todo(content@) && todo_closed(content@) && summary_of(
            content@,
        ) is None ==> (r matches Err(e) && e.kind is MissingName),
        has_envelope(content@) && single_todo(content@) && todo_closed(content@) && summary_of(
            content@,
        ) is Some && uid_of(content@) is None ==> (r matches Err(e) && e.kind is MissingUid),
        has_envelope(content@) && single_todo(content@) && todo_closed(content@) && summary_of(
            content@,
        ) is Some && uid_of(content@) is Some && extra_calendar(content@) ==> (r matches Err(e)
            && e.kind is MultipleItems),
        has_envelope(content@) && single_todo(content@) && todo_closed(content@) && summary_of(
            content@,
        ) is Some && uid_of(content@) is Some && !extra_calendar(content@) ==> (r matches Ok(item)
            && item matches Item::Task(t) && summary_of(content@) == Some(t.name@) && uid_of(
            content@,
        ) == Some(t.uid@) && t.completed == completed_of(content@) && t.id == item_id
            && t.sync_status == sync_status),
{
    let ghost s = content@;
    let lines = split_into_lines(content);
    proof {
        assert(views_of(lines@) == lines_of(s));
    }
    let open_idx = find_line_from(&lines, "BEGIN:VCALENDAR", 0);
    if open_idx == lines.len() {
        return Err(ParseError { kind: ParseErrorKind::InvalidData, item_id });
    }
    let close_idx = find_line_from(&lines, "END:VCALENDAR", open_idx + 1);
    if close_idx == lines.len() {
        return Err(ParseError { kind: ParseErrorKind::InvalidData, item_id });
    }
    let env = slice_lines(&lines, open_idx + 1, close_idx);
    proof {
        assert(views_of(env@) == envelope(s));
    }
    let n_ev = count_line(&env, "BEGIN:VEVENT");
    let n_td = count_line(&env, "BEGIN:VTODO");
    let n_jn = count_line(&env, "BEGIN:VJOURNAL");

    if n_ev == 1 {
        if n_td != 0 || n_jn != 0 {
            return Err(ParseError { kind: ParseErrorKind::NotASingleItem, item_id });
        }
        let another = find_line_from(&lines, "BEGIN:VCALENDAR", close_idx + 1);
        if another < lines.len() {
            return Err(ParseError { kind: ParseErrorKind::MultipleItems, item_id });
        }
        return Ok(Item::Event(Event::new()));
    }
    if n_td == 1 {
        if n_ev != 0 || n_jn != 0 {
            return Err(ParseError { kind: ParseErrorKind::NotASingleItem, item_id });
        }
        let t_open = find_line_from(&env, "BEGIN:VTODO", 0);
        if t_open == env.len() {
            proof {
                lemma_count_none(views_of(env@), "BEGIN:VTODO"@);
                assert(false);
            }
            return vstd::pervasive::unreached();
        }
        let t_close = find_line_from(&env, "END:VTODO", t_open + 1);
        if t_close == env.len() {
            return Err(ParseError { kind: ParseErrorKind::InvalidData, item_id });
        }
        let block = slice_lines(&env, t_open + 1, t_close);
        let ghost b = todo_block(s);
        proof {
            assert(views_of(block@) == b);
            assert(b.subrange(0, 0) =~= Seq::<Seq<char>>::empty());
        }
        let mut name: Option<String> = None;
        let mut uid: Option<String> = None;
        let mut completed: bool = false;
        let mut j: usize = 0;
        while j < block.len()
            invariant
                j <= block@.len(),
                views_of(block@) == b,
                opt_string_view(name) == last_prop(b.subrange(0, j as int), "SUMMARY"@),
                opt_string_view(uid) == last_prop(b.subrange(0, j as int), "UID"@),
                completed == has_completed(b.subrange(0, j as int)),
            decreases block@.len() - j,
        {
            proof {
                assert(b.subrange(0, j as int + 1).drop_last() =~= b.subrange(0, j as int));
                assert(b.subrange(0, j as int + 1).last() == b[j as int]);
            }
            let parts = prop_parts(block[j].as_str());
            let pname = parts.0;
            let pvalue = parts.1;
            if str_eq(pname.as_str(), "SUMMARY") {
                name = opt_string_clone(&pvalue);
            }
            if str_eq(pname.as_str(), "STATUS") {
                let is_done = match &pvalue {
                    Some(v) => str_eq(v.as_str(), "COMPLETED"),
                    None => false,
                };
                if is_done {
                    completed = true;
                }
            }
            if str_eq(pname.as_str(), "UID") {
                uid = opt_string_clone(&pvalue);
            }
            j += 1;
        }
        proof {
            assert(b.subrange(0, b.len() as int) =~= b);
        }
        let name = match name {
            Some(name) => name,
            None => {
                return Err(ParseError { kind: ParseErrorKind::MissingName, item_id });
            },
        };
        let uid = match uid {
            Some(uid) => uid,
            None => {
                return Err(ParseError { kind: ParseErrorKind::MissingUid, item_id });
            },
        };
        let another = find_line_from(&lines, "BEGIN:VCALENDAR", close_idx + 1);
        if another < lines.len() {
            return Err(ParseError { kind: ParseErrorKind::MultipleItems, item_id });
        }
        return Ok(Item::Task(Task::new_with_parameters(name, completed, uid, item_id, sync_status)));
    }
    Err(ParseError { kind: ParseErrorKind::NotASingleItem, item_id })
}

/// The last splitting step: a suffix with no newline is one line (or none,
/// when it is empty).
pub proof fn lemma_split_end(s: Seq<char>, start: int)
    requires
        0 <= start <= s.len(),
        forall|j: int| start <= j < s.len() ==> s[j] != '\n',
    ensures
        start == s.len() ==> split_lines(s.subrange(start, s.len() as int)) == Seq::<
            Seq<char>,
        >::empty(),
        start < s.len() ==> split_lines(s.subrange(start, s.len() as int)) == seq![
            strip_cr(s.subrange(start, s.len() as int)),
        ],
{
    let t = s.subrange(start, s.len() as int);
    if start < s.len() {
        assert forall|j: int| 0 <= j < t.len() implies t[j] != '\n' by {
            assert(t[j] == s[j + start]);
        }
        lemma_first_nl_at(t, t.len() as int);
    }
}

} // verus!
