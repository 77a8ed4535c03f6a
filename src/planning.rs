//! Planning lines: the `SCHEDULED:`, `DEADLINE:` and `CLOSED:` timestamps
//! written on the line after a headline.

use vstd::prelude::*;
use crate::props::{next_line, next_line_exec};
use crate::scan::{find_byte, find_from, is_space, run_end, space_run_end};
use crate::text::Text;

verus! {

/// A timestamp, as written between its brackets (`<...>` or `[...]`).
#[derive(Debug)]
pub struct Timestamp<'a> {
    pub raw: Text<'a>,
}

/// The timestamps of a planning line.
#[derive(Debug)]
pub struct Planning<'a> {
    pub deadline: Option<Timestamp<'a>>,
    pub scheduled: Option<Timestamp<'a>>,
    pub closed: Option<Timestamp<'a>>,
}

/// Whether `w` stands at `i` of `s`.
pub open spec fn stands_at(s: Seq<u8>, i: int, w: Seq<u8>) -> bool {
    0 <= i && i + w.len() <= s.len() && s.subrange(i, i + w.len()) == w
}

pub open spec fn scheduled_word() -> Seq<u8> {
    seq![0x53u8, 0x43, 0x48, 0x45, 0x44, 0x55, 0x4c, 0x45, 0x44, 0x3a]
}

pub open spec fn deadline_word() -> Seq<u8> {
    seq![0x44u8, 0x45, 0x41, 0x44, 0x4c, 0x49, 0x4e, 0x45, 0x3a]
}

pub open spec fn closed_word() -> Seq<u8> {
    seq![0x43u8, 0x4c, 0x4f, 0x53, 0x45, 0x44, 0x3a]
}

/// The timestamps of a planning line, as bytes: deadline, scheduled, closed.
pub type PlanningView = (Option<Seq<u8>>, Option<Seq<u8>>, Option<Seq<u8>>);

/// Which keyword stands at `pos` of `line`: 0 for `SCHEDULED:`, 1 for
/// `DEADLINE:`, 2 for `CLOSED:`, -1 for none.
pub open spec fn keyword_at(line: Seq<u8>, pos: int) -> int {
    if stands_at(line, pos, scheduled_word()) {
        0
    } else if stands_at(line, pos, deadline_word()) {
        1
    } else if stands_at(line, pos, closed_word()) {
        2
    } else {
        -1
    }
}

/// The length of the keyword of the given kind.
pub open spec fn keyword_len(kind: int) -> int {
    if kind == 0 {
        10
    } else if kind == 1 {
        9
    } else {
        7
    }
}

/// The item at `pos` of a planning line: a keyword, spaces, and a timestamp in
/// `<...>` or `[...]`. Gives its kind, the timestamp's text, and where the next
/// item starts (spaces skipped).
pub open spec fn item_at(line: Seq<u8>, pos: int) -> Option<(int, Seq<u8>, int)> {
    let kind = keyword_at(line, pos);
    let p = run_end(line, pos + keyword_len(kind), |b: u8| is_space(b));
    let close: u8 = if p < line.len() && line[p] == 0x3c {
        0x3e
    } else {
        0x5d
    };
    let q = find_from(line, p + 1, close);
    if kind >= 0 && p < line.len() && (line[p] == 0x3c || line[p] == 0x5b) && q < line.len() {
        Some((kind, line.subrange(p + 1, q), run_end(line, q + 1, |b: u8| is_space(b))))
    } else {
        None
    }
}

/// `acc` with the timestamp of the given kind set to `ts`.
pub open spec fn set_kind(acc: PlanningView, kind: int, ts: Seq<u8>) -> PlanningView {
    if kind == 0 {
        (acc.0, Some(ts), acc.2)
    } else if kind == 1 {
        (Some(ts), acc.1, acc.2)
    } else {
        (acc.0, acc.1, Some(ts))
    }
}

/// The items of a planning line from `pos` to its end, each later one
/// replacing an earlier one of its kind; `None` where one is malformed.
pub open spec fn items_from(line: Seq<u8>, pos: int, acc: PlanningView) -> Option<PlanningView>
    decreases line.len() - pos,
{
    if pos < 0 || pos >= line.len() {
        Some(acc)
    } else {
        match item_at(line, pos) {
            Some((kind, ts, next)) => if pos < next <= line.len() {
                items_from(line, next, set_kind(acc, kind, ts))
            } else {
                None
            },
            None => None,
        }
    }
}

/// The planning line at the start of `s`: its first line, leading spaces
/// skipped, is one or more items.
pub open spec fn planning_line(s: Seq<u8>) -> Option<PlanningView> {
    let line = s.subrange(0, find_from(s, 0, 0x0a));
    let first = run_end(line, 0, |b: u8| is_space(b));
    if keyword_at(line, first) >= 0 {
        items_from(line, first, (None, None, None))
    } else {
        None
    }
}

/// The bytes of a planning's timestamps.
pub open spec fn planning_view(p: Planning) -> PlanningView {
    (opt_ts_view(p.deadline), opt_ts_view(p.scheduled), opt_ts_view(p.closed))
}

fn word_at(s: &[u8], i: usize, w: &[u8]) -> (r: bool)
    requires
        i <= s@.len(),
    ensures
        r == stands_at(s@, i as int, w@),
{
    if w.len() > s.len() - i {
        return false;
    }
    let r = crate::scan::bytes_eq(&s[i..i + w.len()], w);
    r
}

impl<'a> Timestamp<'a> {
    /// A copy that owns its text.
    pub fn into_owned(self) -> (r: Timestamp<'static>)
        ensures
            r.raw@ == self.raw@,
            r.raw is Owned,
    {
        Timestamp { raw: self.raw.into_owned() }
    }
}

/// The bytes of an optional timestamp.
pub open spec fn opt_ts_view(o: Option<Timestamp>) -> Option<Seq<u8>> {
    match o {
        Some(t) => Some(t.raw@),
        None => None,
    }
}

/// Whether an optional timestamp owns its text.
pub open spec fn ts_owned(o: Option<Timestamp>) -> bool {
    o matches Some(t) ==> t.raw is Owned
}

fn ts_into_owned(o: Option<Timestamp>) -> (r: Option<Timestamp<'static>>)
    ensures
        opt_ts_view(r) == opt_ts_view(o),
        ts_owned(r),
{
    match o {
        Some(t) => Some(t.into_owned()),
        None => None,
    }
}

impl<'a> Planning<'a> {
    /// A copy that owns its text.
    pub fn into_owned(self) -> (r: Planning<'static>)
        ensures
            opt_ts_view(r.deadline) == opt_ts_view(self.deadline),
            opt_ts_view(r.scheduled) == opt_ts_view(self.scheduled),
            opt_ts_view(r.closed) == opt_ts_view(self.closed),
            ts_owned(r.deadline) && ts_owned(r.scheduled) && ts_owned(r.closed),
    {
        Planning {
            deadline: ts_into_owned(self.deadline),
            scheduled: ts_into_owned(self.scheduled),
            closed: ts_into_owned(self.closed),
        }
    }

    /// Reads a planning line at the start of `s`: one or more `KEYWORD: <...>`
    /// items (`SCHEDULED:`, `DEADLINE:` or `CLOSED:`, then a timestamp in angle
    /// or square brackets) separated by spaces, up to the end of the line. Gives
    /// the text after that line and the timestamps.
    pub fn parse(s: &'a [u8]) -> (r: Option<(&'a [u8], Planning<'a>)>)
        ensures
            r matches Some(t) ==> planning_line(s@) == Some(planning_view(t.1)) && t.0@
                == s@.subrange(next_line(s@, 0), s@.len() as int),
            r is None ==> planning_line(s@) is None,
    {
        let sched: &[u8] = &[0x53u8, 0x43, 0x48, 0x45, 0x44, 0x55, 0x4c, 0x45, 0x44, 0x3a];
        let dead: &[u8] = &[0x44u8, 0x45, 0x41, 0x44, 0x4c, 0x49, 0x4e, 0x45, 0x3a];
        let clos: &[u8] = &[0x43u8, 0x4c, 0x4f, 0x53, 0x45, 0x44, 0x3a];
        assert(sched@ =~= scheduled_word());
        assert(dead@ =~= deadline_word());
        assert(clos@ =~= closed_word());
        let end = find_byte(s, 0, 0x0a);
        let line = &s[0..end];
        let mut planning = Planning { deadline: None, scheduled: None, closed: None };
        let mut pos = space_run_end(line, 0);
        if !(word_at(line, pos, sched) || word_at(line, pos, dead) || word_at(line, pos, clos)) {
            return None;
        }
        let ghost first = pos;
        assert(keyword_at(line@, first as int) >= 0);
        assert(line@ == s@.subrange(0, find_from(s@, 0, 0x0a)));
        assert(planning_line(s@) == items_from(line@, first as int, (None, None, None)));
        while pos < line.len()
            invariant
                pos <= line@.len(),
                planning_line(s@) == items_from(line@, first as int, (None, None, None)),
                sched@ == scheduled_word(),
                dead@ == deadline_word(),
                clos@ == closed_word(),
                items_from(line@, first as int, (None, None, None)) == items_from(
                    line@,
                    pos as int,
                    planning_view(planning),
                ),
            decreases line@.len() - pos,
        {
            let kind: u8;
            let mut p = pos;
            if word_at(line, p, sched) {
                kind = 0;
                p = p + sched.len();
            } else if word_at(line, p, dead) {
                kind = 1;
                p = p + dead.len();
            } else if word_at(line, p, clos) {
                kind = 2;
                p = p + clos.len();
            } else {
                return None;
            }
            p = space_run_end(line, p);
            if p >= line.len() || (line[p] != 0x3c && line[p] != 0x5b) {
                return None;
            }
            let close: u8 = if line[p] == 0x3c {
                0x3e
            } else {
                0x5d
            };
            let q = find_byte(line, p + 1, close);
            if q >= line.len() {
                return None;
            }
            let ts = Timestamp { raw: Text::Borrowed(&line[p + 1..q]) };
            let ghost acc = planning_view(planning);
            if kind == 0 {
                planning.scheduled = Some(ts);
            } else if kind == 1 {
                planning.deadline = Some(ts);
            } else {
                planning.closed = Some(ts);
            }
            assert(planning_view(planning) == set_kind(acc, kind as int, line@.subrange(p + 1, q as int)));
            pos = space_run_end(line, q + 1);
        }
        let rest = next_line_exec(s, 0);
        Some((&s[rest..s.len()], planning))
    }
}

} // verus!
