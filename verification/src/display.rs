//! What the reader shows of a message: the line in the inbox list and the
//! text of the opened message.

use std::fmt::Write;
use vstd::prelude::*;
use vstd::string::StringExecFns;
use vstd::utf8::{decode_utf8, valid_utf8};
use crate::content::{parsed_message, resolution_or, resolve_body, resolved_text};
use crate::headers::{field_text, parse_headers};
use crate::inbox::{MailSummary, ReceivedAt};
use crate::text::lossy_text;

verus! {

/// An opened message: the three header fields that are shown and the text
/// that the message resolves to.
#[derive(Debug, Clone)]
pub struct MailDetail {
    pub from: String,
    pub subject: String,
    pub date: String,
    pub body: String,
}

/// The text that `chrono` writes for the moment `at`, shown in the zone of
/// its offset, in the layout `layout` (in `strftime` notation); `None` where
/// `chrono` cannot represent the moment or the offset, or rejects the layout.
pub uninterp spec fn moment_text(at: ReceivedAt, layout: Seq<char>) -> Option<Seq<char>>;

/// Builds the moment with `chrono::DateTime::from_timestamp`, moves it to
/// the zone given by `chrono::FixedOffset::east_opt`, and writes it with
/// `chrono::DateTime::format`.  The result is named `moment_text`.
#[verifier::external_body]
fn format_moment(at: &ReceivedAt, layout: &str) -> (text: Option<String>)
    ensures
        match text {
            Some(t) => moment_text(*at, layout@) == Some(t@),
            None => moment_text(*at, layout@).is_none(),
        },
{
    let zone = chrono::FixedOffset::east_opt(at.offset)?;
    let moment = chrono::DateTime::from_timestamp(at.timestamp, at.nanos)?.with_timezone(&zone);
    let mut text = String::new();
    write!(text, "{}", moment.format(layout)).ok()?;
    Some(text)
}

/// The text of an optional string; the empty text for `None`.
pub open spec fn or_empty(text: Option<Seq<char>>) -> Seq<char> {
    match text {
        Some(t) => t,
        None => Seq::empty(),
    }
}

/// The date of an inbox line: day of the week, day, month, year, time and
/// offset, as in `Tue,  3 Jun 2025 14:05:09 +0200`.  Empty where the moment
/// cannot be written.
pub open spec fn date_text(at: ReceivedAt) -> Seq<char> {
    or_empty(moment_text(at, "%a, %e %b %Y %T %z"@))
}

/// The text of an inbox line: the sender, four spaces, the date.
pub open spec fn entry_text(from: Seq<char>, at: ReceivedAt) -> Seq<char> {
    from + "    "@ + date_text(at)
}

/// Writes an inbox line: the sender, four spaces, and the date if there is
/// one.
pub fn entry_line(from: &str, date: &Option<String>) -> (line: String)
    ensures
        line@ == from@ + "    "@ + or_empty(
            match *date {
                Some(d) => Some(d@),
                None => None,
            },
        ),
{
    let mut line = from.to_owned();
    line.append("    ");
    match date {
        Some(d) => {
            line.append(d.as_str());
        },
        None => {
            assert(line@ + Seq::<char>::empty() == line@);
        },
    }
    line
}

/// The inbox line of a message as it is listed: the message's identifier and
/// the line's text.
pub fn list_entry(summary: &MailSummary) -> (entry: (u32, String))
    ensures
        entry.0 == summary.uid,
        entry.1@ == entry_text(summary.from@, summary.date),
{
    let date = format_moment(&summary.date, "%a, %e %b %Y %T %z");
    (summary.uid, entry_line(summary.from.as_str(), &date))
}

/// The inbox lines of a view, in its order.
pub fn list_entries(view: &Vec<MailSummary>) -> (entries: Vec<(u32, String)>)
    ensures
        entries@.len() == view@.len(),
        forall|i: int|
            0 <= i < view@.len() ==> (#[trigger] entries@[i]).0 == view@[i].uid && entries@[i].1@
                == entry_text(view@[i].from@, view@[i].date),
{
    let mut entries: Vec<(u32, String)> = Vec::new();
    let mut i: usize = 0;
    while i < view.len()
        invariant
            i <= view.len(),
            entries@.len() == i,
            forall|j: int|
                0 <= j < i ==> (#[trigger] entries@[j]).0 == view@[j].uid && entries@[j].1@
                    == entry_text(view@[j].from@, view@[j].date),
        decreases view.len() - i,
    {
        entries.push(list_entry(&view[i]));
        i += 1;
    }
    entries
}

/// The text of an opened message: its three header fields, one to a line
/// under the labels `From`, `Subject` and `Date`, an empty line, the body.
pub open spec fn detail_text(
    from: Seq<char>,
    subject: Seq<char>,
    date: Seq<char>,
    body: Seq<char>,
) -> Seq<char> {
    "From: "@ + from + "\nSubject: "@ + subject + "\nDate: "@ + date + "\n\n"@ + body
}

impl MailDetail {
    /// Opens a message: its From, Subject and Date fields from the header
    /// block, its body resolved from the raw message.  A header block of
    /// well-formed UTF-8 is read as the text that it encodes.
    pub fn open(header_block: &[u8], raw_message: &[u8]) -> (detail: MailDetail)
        ensures
            detail.from@ == field_text(lossy_text(header_block@), "from"@),
            detail.subject@ == field_text(lossy_text(header_block@), "subject"@),
            detail.date@ == field_text(lossy_text(header_block@), "date"@),
            valid_utf8(header_block@) ==> {
                &&& detail.from@ == field_text(decode_utf8(header_block@), "from"@)
                &&& detail.subject@ == field_text(decode_utf8(header_block@), "subject"@)
                &&& detail.date@ == field_text(decode_utf8(header_block@), "date"@)
            },
            detail.body@ == resolved_text(raw_message@),
            valid_utf8(raw_message@) ==> detail.body@ == resolution_or(
                parsed_message(raw_message@),
                decode_utf8(raw_message@),
            ),
    {
        let fields = parse_headers(header_block);
        MailDetail {
            from: fields.0,
            subject: fields.1,
            date: fields.2,
            body: resolve_body(raw_message),
        }
    }

    /// The text in which the message is shown.
    pub fn text(&self) -> (out: String)
        ensures
            out@ == detail_text(self.from@, self.subject@, self.date@, self.body@),
    {
        let mut out = "From: ".to_owned();
        out.append(self.from.as_str());
        out.append("\nSubject: ");
        out.append(self.subject.as_str());
        out.append("\nDate: ");
        out.append(self.date.as_str());
        out.append("\n\n");
        out.append(self.body.as_str());
        out
    }
}

} // verus!
