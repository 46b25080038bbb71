//! Notifications: what is reported of one detected change, and how it is
//! written for the console and for the wire.

use crate::diff::{entries, DiffLine, Tag};
use crate::text::{decimal, decimal_text, pad_start, pad_start_text, text_of, texts};
use vstd::prelude::*;
use vstd::string::StringExecFns;

verus! {

/// An instant, counted from the start of 1970 in UTC.
#[derive(Clone, Copy, Debug, PartialEq, Eq, Structural)]
pub struct Timestamp {
    /// Whole seconds.
    pub secs: i64,
    /// Nanoseconds beyond them.
    pub nanos: u32,
}

/// One detected change.
#[derive(Clone, Debug, PartialEq, Eq)]
pub struct Notification {
    /// When the change was seen.
    pub time: Timestamp,
    /// The path of the file that changed.
    pub path: String,
    /// The lines that turn its old content into the new.
    pub diff: Vec<DiffLine>,
}

/// A notification as a value of mathematics.
pub struct Notice {
    pub time: Timestamp,
    pub path: Seq<char>,
    pub diff: Seq<(Tag, Seq<char>)>,
}

impl View for Notification {
    type V = Notice;

    open spec fn view(&self) -> Notice {
        Notice { time: self.time, path: self.path@, diff: entries(self.diff@) }
    }
}

/// The views of a sequence of notifications, in order.
pub open spec fn notices(v: Seq<Notification>) -> Seq<Notice> {
    v.map_values(|n: Notification| n@)
}

/// The first line of a report: the time, as `stamp` writes it, and the path.
pub open spec fn headline(stamp: Seq<char>, path: Seq<char>) -> Seq<char> {
    "["@ + stamp + "] - "@ + path
}

/// What stands between the number and the text of a reported line.
pub open spec fn mark(tag: Tag) -> Seq<char> {
    match tag {
        Tag::Removed => " - |  "@,
        _ => " + |  "@,
    }
}

/// The lines that a report gives to a diff: one for each removed and each
/// added line, none for a common one. A line starts with its number in the
/// diff, counted from one over all its lines and written with five digits at
/// least.
pub open spec fn change_rows(d: Seq<(Tag, Seq<char>)>) -> Seq<Seq<char>>
    decreases d.len(),
{
    if d.len() == 0 {
        Seq::empty()
    } else if d.last().0 == Tag::Common {
        change_rows(d.drop_last())
    } else {
        change_rows(d.drop_last()).push(
            pad_start(decimal(d.len()), 5, '0') + mark(d.last().0) + d.last().1,
        )
    }
}

/// The report of a notification for the console, line by line.
pub open spec fn report_rows(n: Notice, stamp: Seq<char>) -> Seq<Seq<char>> {
    seq![headline(stamp, n.path)] + change_rows(n.diff)
}

/// The text that `serde_json` writes for a string: the string between double
/// quotes, with the characters escaped that JSON wants escaped.
pub uninterp spec fn json_text(s: Seq<char>) -> Seq<char>;

/// The text that `chrono` writes for an instant in UTC as RFC 3339 has it,
/// where the instant is one that `chrono` can hold.
pub uninterp spec fn rfc3339_utc(secs: i64, nanos: u32) -> Option<Seq<char>>;

/// A line of a diff on the wire.
pub open spec fn change_json(e: (Tag, Seq<char>)) -> Seq<char> {
    "{\"change\":"@ + json_text(e.1) + ",\"direction\":"@ + match e.0 {
        Tag::Removed => "-1"@,
        Tag::Common => "0"@,
        Tag::Added => "1"@,
    } + "}"@
}

/// The lines of a diff on the wire, with a comma between each two.
pub open spec fn changes_json(d: Seq<(Tag, Seq<char>)>) -> Seq<char>
    decreases d.len(),
{
    if d.len() == 0 {
        Seq::empty()
    } else if d.len() == 1 {
        change_json(d[0])
    } else {
        changes_json(d.drop_last()) + ","@ + change_json(d.last())
    }
}

/// A notification on the wire: one JSON object without white space, its
/// members in the order of their names.
pub open spec fn payload_text(n: Notice, stamp: Seq<char>) -> Seq<char> {
    "{\"diff\":["@ + changes_json(n.diff) + "],\"path\":"@ + json_text(n.path) + ",\"time\":"@
        + json_text(stamp) + "}"@
}

/// A notification on the wire with its time as `stamp` writes it, where there
/// is such a writing.
pub open spec fn stamped(n: Notice, stamp: Option<Seq<char>>) -> Option<Seq<char>> {
    match stamp {
        Some(text) => Some(payload_text(n, text)),
        None => None,
    }
}

/// `serde_json`'s writing of a string value: the JSON text that `to_string`
/// gives for a `serde_json::Value::String`. How the crate quotes and escapes
/// is left to it; all that is relied on is that the same string gives the
/// same text.
#[verifier::external_body]
fn quote(s: &str) -> (out: String)
    ensures
        out@ == json_text(s@),
{
    serde_json::Value::String(s.to_owned()).to_string()
}

/// `chrono::DateTime::to_rfc3339` on the instant that
/// `chrono::DateTime::from_timestamp` makes of the seconds and nanoseconds:
/// the instant in UTC as the crate writes it, and nothing where the crate
/// cannot hold the instant. All that is relied on is that the same instant
/// gives the same answer.
#[verifier::external_body]
fn utc_stamp(secs: i64, nanos: u32) -> (out: Option<String>)
    ensures
        text_of(out) == rfc3339_utc(secs, nanos),
{
    chrono::DateTime::from_timestamp(secs, nanos).map(|t| t.to_rfc3339())
}

fn change_text(line: &DiffLine) -> (out: String)
    ensures
        out@ == change_json(line@),
{
    let mut out = String::from_str("{\"change\":");
    out.append(quote(line.text.as_str()).as_str());
    out.append(",\"direction\":");
    match line.tag {
        Tag::Removed => out.append("-1"),
        Tag::Common => out.append("0"),
        Tag::Added => out.append("1"),
    }
    out.append("}");
    out
}

fn changes_text(diff: &Vec<DiffLine>) -> (out: String)
    ensures
        out@ == changes_json(entries(diff@)),
{
    let ghost d = entries(diff@);
    let mut out = String::new();
    let mut i: usize = 0;
    assert(d.take(0) =~= Seq::empty());
    while i < diff.len()
        invariant
            d == entries(diff@),
            i <= diff.len(),
            out@ == changes_json(d.take(i as int)),
        decreases diff.len() - i,
    {
        proof {
            assert(d.take(i + 1).drop_last() =~= d.take(i as int));
            assert(d.take(i + 1).last() == diff[i as int]@);
        }
        if i > 0 {
            out.append(",");
        }
        out.append(change_text(&diff[i]).as_str());
        i += 1;
    }
    assert(d.take(i as int) =~= d);
    out
}

impl Notification {
    /// A notification of a change of the file at `path` that was seen at
    /// `time`, without a diff yet.
    pub fn new(path: &str, time: Timestamp) -> (n: Notification)
        ensures
            n@ == (Notice { time: time, path: path@, diff: Seq::empty() }),
    {
        let n = Notification { time: time, path: String::from_str(path), diff: Vec::new() };
        assert(entries(n.diff@) =~= Seq::empty());
        n
    }

    /// The report for the console, line by line: the time, as `stamp` writes
    /// it, and the path; then each removed and each added line of the diff
    /// with its number in the diff.
    pub fn display(&self, stamp: &str) -> (out: Vec<String>)
        ensures
            texts(out@) == report_rows(self@, stamp@),
    {
        let ghost d = entries(self.diff@);
        let mut head = String::from_str("[");
        head.append(stamp);
        head.append("] - ");
        head.append(self.path.as_str());
        let mut out: Vec<String> = Vec::new();
        out.push(head);
        let ghost first = texts(out@);
        let mut i: usize = 0;
        proof {
            assert(first =~= seq![headline(stamp@, self.path@)]);
            assert(d.take(0) =~= Seq::empty());
            assert(first + change_rows(d.take(0)) =~= first);
        }
        while i < self.diff.len()
            invariant
                d == entries(self.diff@),
                i <= self.diff.len(),
                texts(out@) == first + change_rows(d.take(i as int)),
            decreases self.diff.len() - i,
        {
            let line = &self.diff[i];
            let ghost before = texts(out@);
            proof {
                assert(d.take(i + 1).drop_last() =~= d.take(i as int));
                assert(d.take(i + 1).last() == line@);
            }
            let sign: Option<&str> = match line.tag {
                Tag::Removed => Some(" - |  "),
                Tag::Common => None,
                Tag::Added => Some(" + |  "),
            };
            if let Some(sign) = sign {
                let number = decimal_text((i + 1) as u128);
                let mut row = pad_start_text(number.as_str(), 5, '0');
                row.append(sign);
                row.append(line.text.as_str());
                let ghost r = row@;
                out.push(row);
                assert(texts(out@) =~= before.push(r));
                assert(before.push(r) =~= first + change_rows(d.take(i as int)).push(r));
            }
            i += 1;
        }
        assert(d.take(i as int) =~= d);
        out
    }

    /// The notification on the wire, with its time as `stamp` writes it: one
    /// JSON object with the members `diff`, `path` and `time`; each line of
    /// the diff is an object with the text as `change` and -1, 0 or 1 as
    /// `direction`.
    pub fn payload(&self, stamp: &str) -> (out: String)
        ensures
            out@ == payload_text(self@, stamp@),
    {
        let mut out = String::from_str("{\"diff\":[");
        out.append(changes_text(&self.diff).as_str());
        out.append("],\"path\":");
        out.append(quote(self.path.as_str()).as_str());
        out.append(",\"time\":");
        out.append(quote(stamp).as_str());
        out.append("}");
        out
    }

    /// The notification on the wire, with its time in UTC as RFC 3339 writes
    /// it; nothing for a time that cannot be written so.
    pub fn json(&self) -> (out: Option<String>)
        ensures
            text_of(out) == stamped(self@, rfc3339_utc(self.time.secs, self.time.nanos)),
    {
        match utc_stamp(self.time.secs, self.time.nanos) {
            Some(stamp) => Some(self.payload(stamp.as_str())),
            None => None,
        }
    }
}

} // verus!
