use vstd::prelude::*;
use vstd::utf8::{decode_utf8, valid_utf8};

use crate::error::{CsvError, CsvFault};
use crate::models::{before_first, EventLogEntry, EventLogRecord};
use crate::reader::{parse_timestamp, timestamp_outcome};
use crate::text::{to_owned_text, trim, trim_str};

verus! {

/// The bytes of `d` before its first line feed, or all of `d`.
pub open spec fn until_newline(d: Seq<u8>) -> Seq<u8>
    decreases d.len(),
{
    if d.len() == 0 || d[0] == 10 {
        Seq::empty()
    } else {
        seq![d[0]] + until_newline(d.drop_first())
    }
}

/// A line without the carriage return that ends it, if it has one.
pub open spec fn without_cr(line: Seq<u8>) -> Seq<u8> {
    if line.len() > 0 && line.last() == 13 {
        line.drop_last()
    } else {
        line
    }
}

/// The lines of `d` as `BufRead::lines` yields them: split at each line
/// feed, which is dropped together with a carriage return just before it;
/// text after the last line feed is a line when it is not empty.
pub open spec fn lines_of(d: Seq<u8>) -> Seq<Seq<u8>>
    decreases d.len(),
{
    if d.len() == 0 {
        Seq::empty()
    } else {
        let first = until_newline(d);
        if first.len() >= d.len() {
            seq![d]
        } else {
            seq![without_cr(first)] + lines_of(d.skip(first.len() as int + 1))
        }
    }
}

/// The message of the error that reading a line gives where its bytes are
/// no UTF-8.
pub open spec fn invalid_utf8_message() -> Seq<char> {
    "stream did not contain valid UTF-8"@
}

/// What one line of an event log gives: nothing for a blank line or a line
/// without `;`; otherwise the date-time before the first `;` (of the
/// trimmed line) and the event text after it.
pub open spec fn event_of_line(line: Seq<u8>) -> Result<Option<EventLogEntry>, CsvFault> {
    if !valid_utf8(line) {
        Err(CsvFault::Io(invalid_utf8_message()))
    } else {
        let t = trim(decode_utf8(line));
        if t.len() == 0 || !t.contains(';') {
            Ok(None)
        } else {
            let head = before_first(t, ';');
            match timestamp_outcome(trim(head)) {
                Err(f) => Err(f),
                Ok(ts) => Ok(Some(EventLogEntry { timestamp: ts, event: t.skip(head.len() as int + 1) })),
            }
        }
    }
}

/// The events of the lines `lines`, in order; or the fault of the first
/// line that cannot be read.
pub open spec fn events_of(lines: Seq<Seq<u8>>) -> Result<Seq<EventLogEntry>, CsvFault>
    decreases lines.len(),
{
    if lines.len() == 0 {
        Ok(Seq::empty())
    } else {
        match events_of(lines.drop_last()) {
            Err(f) => Err(f),
            Ok(es) => match event_of_line(lines.last()) {
                Err(f) => Err(f),
                Ok(None) => Ok(es),
                Ok(Some(e)) => Ok(es.push(e)),
            },
        }
    }
}

/// Turns the bytes of a line into text.
/// Calls `std::str::from_utf8`, which the standard library documents to
/// succeed exactly on valid UTF-8; the contract claims that and that the
/// text is the UTF-8 decoding of the bytes.
#[verifier::external_body]
fn utf8_text(bytes: &[u8]) -> (r: Option<String>)
    ensures
        r is Some <==> valid_utf8(bytes@),
        r matches Some(s) ==> s@ == decode_utf8(bytes@),
{
    std::str::from_utf8(bytes).ok().map(|s| s.to_string())
}

proof fn lemma_until_newline(d: Seq<u8>, k: int)
    requires
        0 <= k <= d.len(),
        forall|t: int| 0 <= t < k ==> #[trigger] d[t] != 10,
        k == d.len() || d[k] == 10,
    ensures
        until_newline(d) =~= d.take(k),
    decreases k,
{
    if k > 0 {
        lemma_until_newline(d.drop_first(), k - 1);
        assert(d.take(k) =~= seq![d[0]] + d.drop_first().take(k - 1));
    }
}

proof fn lemma_events_error_sticks(lines: Seq<Seq<u8>>, k: int)
    requires
        0 <= k <= lines.len(),
        events_of(lines.take(k)) is Err,
    ensures
        events_of(lines) == events_of(lines.take(k)),
    decreases lines.len(),
{
    if k < lines.len() {
        assert(lines.drop_last().take(k) =~= lines.take(k));
        lemma_events_error_sticks(lines.drop_last(), k);
    } else {
        assert(lines.take(k) =~= lines);
    }
}

proof fn lemma_events_append(a: Seq<Seq<u8>>, l: Seq<u8>)
    ensures
        events_of(a.push(l)) == (match events_of(a) {
            Err(f) => Err(f),
            Ok(es) => match event_of_line(l) {
                Err(f) => Err(f),
                Ok(None) => Ok(es),
                Ok(Some(e)) => Ok(es.push(e)),
            },
        }),
{
    assert(a.push(l).drop_last() =~= a);
}

/// Splits `line` at its first `;`, if it has one.
fn split_at_semicolon(line: &str) -> (r: Option<(&str, &str)>)
    ensures
        !line@.contains(';') ==> r is None,
        line@.contains(';') ==> (r matches Some((h, t)) && h@ == before_first(line@, ';') && t@
            == line@.skip(before_first(line@, ';').len() as int + 1)),
{
    let n = line.unicode_len();
    let mut k: usize = 0;
    while k < n && line.get_char(k) != ';'
        invariant
            n == line@.len(),
            k <= n,
            forall|t: int| 0 <= t < k ==> #[trigger] line@[t] != ';',
        decreases n - k,
    {
        k = k + 1;
    }
    proof {
        crate::models::lemma_before_first_prefix(line@, ';', k as int);
    }
    if k == n {
        assert(!line@.contains(';'));
        return None;
    }
    assert(line@[k as int] == ';');
    Some((line.substring_char(0, k), line.substring_char(k + 1, n)))
}

/// What one line gives (see `event_of_line`).
fn event_line(bytes: &[u8]) -> (r: Result<Option<EventLogRecord>, CsvError>)
    ensures
        match event_of_line(bytes@) {
            Ok(None) => r matches Ok(None),
            Ok(Some(e)) => r matches Ok(Some(x)) && x@ == e,
            Err(f) => r matches Err(x) && x@ == f,
        },
{
    let text = match utf8_text(bytes) {
        Some(t) => t,
        None => return Err(CsvError::Io(String::from_str("stream did not contain valid UTF-8"))),
    };
    let t = trim_str(text.as_str());
    if t.unicode_len() == 0 {
        return Ok(None);
    }
    match split_at_semicolon(t) {
        None => Ok(None),
        Some((head, rest)) => {
            let ts = parse_timestamp(head)?;
            Ok(Some(EventLogRecord { timestamp: ts, event: to_owned_text(rest) }))
        },
    }
}

/// Reads the bytes of an NCU event log: lines of the form
/// `timestamp;event` (the event may itself hold `;`), without a header.
/// Blank lines and lines without `;` are passed over; the first line that is
/// no UTF-8 or whose date-time cannot be read ends the reading with its
/// error.
pub fn read_event_log_csv(data: &[u8]) -> (r: Result<Vec<EventLogRecord>, CsvError>)
    ensures
        match events_of(lines_of(data@)) {
            Ok(es) => r matches Ok(v) && v@.map_values(|x: EventLogRecord| x@) == es,
            Err(f) => r matches Err(e) && e@ == f,
        },
{
    let n = data.len();
    let mut out: Vec<EventLogRecord> = Vec::new();
    let mut pos: usize = 0;
    let ghost mut done: Seq<Seq<u8>> = Seq::empty();
    assert(data@.skip(0) =~= data@);
    assert(out@.map_values(|x: EventLogRecord| x@) =~= Seq::<EventLogEntry>::empty());
    while pos < n
        invariant
            n == data@.len(),
            pos <= n,
            lines_of(data@) == done + lines_of(data@.skip(pos as int)),
            events_of(done) == Ok::<Seq<EventLogEntry>, CsvFault>(
                out@.map_values(|x: EventLogRecord| x@),
            ),
        decreases n - pos,
    {
        let mut end: usize = pos;
        while end < n && data[end] != 10
            invariant
                n == data@.len(),
                pos <= end <= n,
                forall|t: int| pos <= t < end ==> #[trigger] data@[t] != 10,
            decreases n - end,
        {
            end = end + 1;
        }
        let ghost rest = data@.skip(pos as int);
        proof {
            assert forall|t: int| 0 <= t < end - pos implies #[trigger] rest[t] != 10 by {
                assert(rest[t] == data@[t + pos]);
            }
            if end < n {
                assert(rest[end - pos] == data@[end as int]);
            }
            lemma_until_newline(rest, end - pos);
        }
        let line_end: usize = if end < n && end > pos && data[end - 1] == 13 {
            end - 1
        } else {
            end
        };
        let line = vstd::slice::slice_subrange(data, pos, line_end);
        proof {
            if end < n {
                assert(line@ =~= without_cr(rest.take(end - pos)));
                assert(rest.skip(end - pos + 1) =~= data@.skip(end + 1));
                assert(lines_of(rest) == seq![line@] + lines_of(data@.skip(end + 1)));
            } else {
                assert(line@ =~= rest);
                assert(lines_of(rest) == seq![line@]);
                assert(data@.skip(n as int).len() == 0);
            }
            lemma_events_append(done, line@);
        }
        let ghost prev = out@;
        match event_line(line) {
            Ok(None) => {},
            Ok(Some(rec)) => {
                out.push(rec);
                assert(out@.map_values(|x: EventLogRecord| x@) =~= prev.map_values(
                    |x: EventLogRecord| x@,
                ).push(out@.last()@));
            },
            Err(e) => {
                proof {
                    let all = lines_of(data@);
                    let k = done.len() as int + 1;
                    assert(all.take(k) =~= done.push(line@));
                    lemma_events_error_sticks(all, k);
                }
                return Err(e);
            },
        }
        proof {
            if end < n {
                assert(done + lines_of(rest) =~= done.push(line@) + lines_of(data@.skip(end + 1)));
            } else {
                assert(done + lines_of(rest) =~= done.push(line@) + lines_of(data@.skip(n as int)));
            }
            done = done.push(line@);
        }
        pos = if end < n {
            end + 1
        } else {
            n
        };
    }
    proof {
        assert(data@.skip(n as int).len() == 0);
        assert(done + Seq::<Seq<u8>>::empty() =~= done);
    }
    Ok(out)
}

} // verus!
