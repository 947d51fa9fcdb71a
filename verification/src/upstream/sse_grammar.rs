//! The grammar of event streams, stated of all byte strings: how lines end, what
//! makes an event, what its data is, and which data is put up for usage
//! accounting. Bytes are given by their numbers: 10 is a line feed, 13 a carriage
//! return.
use super::sse;
use super::sse::{ScannerView, Term, Usage};
use super::sse_laws;
use vstd::prelude::*;

verus! {

/// The bytes hold no line terminator.
pub open spec fn is_plain(bytes: Seq<u8>) -> bool {
    forall|i: int| 0 <= i < bytes.len() ==> #[trigger] bytes[i] != 10 && bytes[i] != 13
}

/// `end` is a line terminator that is complete with `rest` behind it: `\n`,
/// `\r\n`, or a `\r` that something other than `\n` follows.
pub open spec fn is_end(end: Seq<u8>, rest: Seq<u8>) -> bool {
    ||| end == seq![10u8]
    ||| end == seq![13u8, 10u8]
    ||| end == seq![13u8] && rest.len() > 0 && rest[0] != 10
}

/// What stands at a position depends on the byte there and the one behind it.
pub proof fn lemma_terminators(a: Seq<u8>, b: Seq<u8>, c: u8)
    ensures
        sse::term(a + seq![10u8] + b, a.len() as int) == Term::Len(1),
        sse::term(a + seq![13u8, 10u8] + b, a.len() as int) == Term::Len(2),
        c != 10 ==> sse::term(a + seq![13u8, c] + b, a.len() as int) == Term::Len(1),
        sse::term(a + seq![13u8], a.len() as int) == Term::Incomplete,
        c != 10 && c != 13 ==> sse::term(a + seq![c] + b, a.len() as int) == Term::Not,
        sse::term(a, a.len() as int) == Term::Not,
        forall|i: int| i < 0 || i >= a.len() ==> sse::term(a, i) == Term::Not,
{
}

proof fn lemma_end_is_term(before: Seq<u8>, end: Seq<u8>, rest: Seq<u8>)
    requires
        is_end(end, rest),
    ensures
        end.len() == 1 || end.len() == 2,
        sse::term(before + (end + rest), before.len() as int) == Term::Len(end.len() as usize),
{
    let all = before + (end + rest);
    let i = before.len() as int;
    assert(all[i] == end[0]);
    if end == seq![13u8, 10u8] {
        assert(all[i + 1] == end[1]);
    } else if end == seq![13u8] {
        assert(all[i + 1] == rest[0]);
    }
}

proof fn lemma_skip_plain(buf: Seq<u8>, i: int, k: int)
    requires
        0 <= i <= k <= buf.len(),
        forall|j: int| i <= j < k ==> #[trigger] buf[j] != 10 && buf[j] != 13,
    ensures
        sse::boundary_from(buf, i) == sse::boundary_from(buf, k),
    decreases k - i,
{
    if i < k {
        assert(buf[i] != 10 && buf[i] != 13);
        lemma_skip_plain(buf, i + 1, k);
    }
}

/// A line of an event that is not its last, and how it ends.
pub struct Part {
    pub line: Seq<u8>,
    pub end: Seq<u8>,
}

/// The part is a line that is not empty, and an end.
pub open spec fn is_part(part: Part) -> bool {
    &&& part.line.len() > 0
    &&& is_plain(part.line)
    &&& part.end == seq![10u8] || part.end == seq![13u8, 10u8] || part.end == seq![13u8]
}

/// An event: lines with their ends, and a last line.
pub open spec fn written(parts: Seq<Part>, last: Seq<u8>) -> Seq<u8>
    decreases parts.len(),
{
    if parts.len() == 0 {
        last
    } else {
        parts[0].line + parts[0].end + written(parts.drop_first(), last)
    }
}

proof fn lemma_written_starts_plain(parts: Seq<Part>, last: Seq<u8>)
    requires
        forall|i: int| 0 <= i < parts.len() ==> is_part(#[trigger] parts[i]),
        last.len() > 0,
        is_plain(last),
    ensures
        written(parts, last).len() > 0,
        written(parts, last)[0] != 10,
        written(parts, last)[0] != 13,
{
    if parts.len() > 0 {
        assert(is_part(parts[0]));
        assert(written(parts, last)[0] == parts[0].line[0]);
    } else {
        assert(last[0] != 10);
    }
}

/// A line and its end, with more of the event behind them, are passed over.
proof fn lemma_line_is_passed(before: Seq<u8>, line: Seq<u8>, end: Seq<u8>, more: Seq<u8>)
    requires
        is_plain(line),
        is_end(end, more),
        more.len() > 0,
        more[0] != 10,
        more[0] != 13,
    ensures
        sse::boundary_from(before + (line + (end + more)), before.len() as int)
            == sse::boundary_from(
            before + (line + (end + more)),
            (before.len() + line.len() + end.len()) as int,
        ),
{
    let buf = before + (line + (end + more));
    let i = before.len() as int;
    let k = i + line.len();
    assert forall|j: int| i <= j < k implies #[trigger] buf[j] != 10 && buf[j] != 13 by {
        assert(buf[j] == line[j - i]);
    }
    lemma_skip_plain(buf, i, k);
    lemma_end_is_term(before + line, end, more);
    assert(buf == (before + line) + (end + more));
    assert(buf[k + end.len()] == more[0]);
}

/// The last line, its end and the blank line's end make the boundary.
proof fn lemma_last_line_is_followed_by_the_boundary(
    before: Seq<u8>,
    last: Seq<u8>,
    end: Seq<u8>,
    blank: Seq<u8>,
    rest: Seq<u8>,
)
    requires
        is_plain(last),
        is_end(end, blank + rest),
        is_end(blank, rest),
    ensures
        sse::boundary_from(before + (last + (end + (blank + rest))), before.len() as int) == Some(
            (
                (before.len() + last.len()) as int,
                (before.len() + last.len() + end.len() + blank.len()) as int,
            ),
        ),
{
    let buf = before + (last + (end + (blank + rest)));
    let i = before.len() as int;
    let k = i + last.len();
    assert forall|j: int| i <= j < k implies #[trigger] buf[j] != 10 && buf[j] != 13 by {
        assert(buf[j] == last[j - i]);
    }
    lemma_skip_plain(buf, i, k);
    lemma_end_is_term(before + last, end, blank + rest);
    assert(buf == (before + last) + (end + (blank + rest)));
    lemma_end_is_term(before + last + end, blank, rest);
    assert(buf == (before + last + end) + (blank + rest));
}

proof fn lemma_written_boundary(
    before: Seq<u8>,
    parts: Seq<Part>,
    last: Seq<u8>,
    end: Seq<u8>,
    blank: Seq<u8>,
    rest: Seq<u8>,
)
    requires
        forall|i: int| 0 <= i < parts.len() ==> is_part(#[trigger] parts[i]),
        last.len() > 0,
        is_plain(last),
        is_end(end, blank + rest),
        is_end(blank, rest),
    ensures
        ({
            let event = written(parts, last);
            let buf = before + (event + (end + (blank + rest)));
            sse::boundary_from(buf, before.len() as int) == Some(
                (
                    (before.len() + event.len()) as int,
                    (before.len() + event.len() + end.len() + blank.len()) as int,
                ),
            )
        }),
    decreases parts.len(),
{
    if parts.len() == 0 {
        lemma_last_line_is_followed_by_the_boundary(before, last, end, blank, rest);
    } else {
        let part = parts[0];
        let more = parts.drop_first();
        assert(is_part(part));
        assert forall|j: int| 0 <= j < more.len() implies is_part(#[trigger] more[j]) by {
            assert(more[j] == parts[j + 1]);
        }
        let tail = end + (blank + rest);
        let following = written(more, last);
        lemma_written_starts_plain(more, last);
        assert((following + tail)[0] == following[0]);
        lemma_line_is_passed(before, part.line, part.end, following + tail);
        lemma_written_boundary(before + part.line + part.end, more, last, end, blank, rest);
        assert(before + (written(parts, last) + tail) == before + (part.line + (part.end + (following
            + tail))));
        assert(before + (written(parts, last) + tail) == (before + part.line + part.end) + (
        following + tail));
    }
}

/// However its lines end, an event followed by a blank line is found, whole and
/// first; what follows the blank line is scanned as if it stood alone.
pub proof fn lemma_written_event_is_found(
    parts: Seq<Part>,
    last: Seq<u8>,
    end: Seq<u8>,
    blank: Seq<u8>,
    rest: Seq<u8>,
)
    requires
        forall|i: int| 0 <= i < parts.len() ==> is_part(#[trigger] parts[i]),
        last.len() > 0,
        is_plain(last),
        is_end(end, blank + rest),
        is_end(blank, rest),
    ensures
        sse::events(written(parts, last) + (end + (blank + rest))) == seq![written(parts, last)]
            + sse::events(rest),
        sse::remainder(written(parts, last) + (end + (blank + rest))) == sse::remainder(rest),
{
    let event = written(parts, last);
    let buf = event + (end + (blank + rest));
    lemma_written_boundary(Seq::empty(), parts, last, end, blank, rest);
    assert(Seq::<u8>::empty() + buf == buf);
    let n = (event.len() + end.len() + blank.len()) as int;
    assert(buf.take(event.len() as int) == event);
    assert(buf.skip(n) == rest);
}

/// Scanning peels events off the front: while there is a boundary, the bytes up
/// to it are the first event and the rest is scanned on; without one there is no
/// event, and everything is left over.
pub proof fn lemma_events_are_peeled_off(buf: Seq<u8>)
    ensures
        match sse::boundary(buf) {
            Some((end, next)) => 0 <= end < next <= buf.len() && sse::events(buf) == seq![
                buf.take(end),
            ] + sse::events(buf.skip(next)) && sse::remainder(buf) == sse::remainder(
                buf.skip(next),
            ),
            None => sse::events(buf) == Seq::<Seq<u8>>::empty() && sse::remainder(buf) == buf,
        },
        sse::boundary(sse::remainder(buf)) is None,
        sse::boundary(buf) == sse::boundary_from(buf, 0),
{
    sse::lemma_boundary_bounds(buf, 0);
    sse_laws::lemma_remainder_has_no_event(buf);
}

/// A separator, byte for byte: what ends a line and what ends the blank line
/// behind it are each `\n`, `\r\n`, or a `\r` that another byte than `\n` follows;
/// and it does not begin inside a `\r\n`.
pub proof fn lemma_separators(a: Seq<u8>, end: Seq<u8>, blank: Seq<u8>, rest: Seq<u8>)
    requires
        is_end(end, blank + rest),
        is_end(blank, rest),
        a.len() > 0 && a.last() == 13 ==> end[0] != 10,
    ensures
        sse::is_separator(
            a + (end + (blank + rest)),
            a.len() as int,
            (a.len() + end.len() + blank.len()) as int,
        ),
{
    lemma_end_is_term(a, end, blank + rest);
    lemma_end_is_term(a + end, blank, rest);
    let all = a + (end + (blank + rest));
    assert(all == (a + end) + (blank + rest));
    assert(all[a.len() as int] == end[0]);
    if a.len() > 0 {
        assert(all[a.len() - 1] == a.last());
    }
}

/// Nothing else is a separator.
pub proof fn lemma_only_separators(buf: Seq<u8>, i: int, next: int)
    requires
        sse::is_separator(buf, i, next),
    ensures
        0 <= i < next <= buf.len(),
        i > 0 && buf[i - 1] == 13 ==> buf[i] != 10,
        exists|j: int| #[trigger]
            is_cut(buf, i, j, next),
{
    let j = match sse::term(buf, i) {
        Term::Len(first) => i + first,
        _ => i,
    };
    let end = buf.subrange(i, j);
    let blank = buf.subrange(j, next);
    let rest = buf.skip(next);
    assert(buf[i] == 10 || buf[i] == 13);
    assert(buf[j] == 10 || buf[j] == 13);
    assert(end =~= seq![10u8] || end =~= seq![13u8, 10u8] || end =~= seq![13u8]);
    assert(blank =~= seq![10u8] || blank =~= seq![13u8, 10u8] || blank =~= seq![13u8]);
    assert((blank + rest)[0] == buf[j]);
    if rest.len() > 0 {
        assert(rest[0] == buf[next]);
    }
    assert(is_cut(buf, i, j, next));
}

/// From `i` to `j` and from `j` to `next` stand two line terminators.
pub open spec fn is_cut(buf: Seq<u8>, i: int, j: int, next: int) -> bool {
    &&& i < j < next <= buf.len()
    &&& is_end(buf.subrange(i, j), buf.subrange(j, next) + buf.skip(next))
    &&& is_end(buf.subrange(j, next), buf.skip(next))
}

proof fn lemma_lines_shift(before: Seq<u8>, s: Seq<u8>, start: int, i: int)
    requires
        0 <= start <= i <= s.len(),
    ensures
        sse::lines_from(before + s, before.len() + start, before.len() + i) == sse::lines_from(
            s,
            start,
            i,
        ),
    decreases s.len() - i,
{
    let all = before + s;
    let n = before.len();
    if i >= s.len() {
        assert(all.skip(n + start) == s.skip(start));
    } else {
        assert(all[n + i] == s[i]);
        if i + 1 < s.len() {
            assert(all[n + i + 1] == s[i + 1]);
        }
        assert(sse::term(all, n + i) == sse::term(s, i));
        match sse::term(s, i) {
            Term::Len(len) => {
                lemma_lines_shift(before, s, i + len, i + len);
                assert(all.subrange(n + start, n + i) == s.subrange(start, i));
            },
            _ => {
                lemma_lines_shift(before, s, start, i + 1);
            },
        }
    }
}

proof fn lemma_lines_skip(event: Seq<u8>, start: int, i: int, k: int)
    requires
        0 <= start <= i <= k <= event.len(),
        forall|j: int| i <= j < k ==> #[trigger] event[j] != 10 && event[j] != 13,
    ensures
        sse::lines_from(event, start, i) == sse::lines_from(event, start, k),
    decreases k - i,
{
    if i < k {
        assert(event[i] != 10 && event[i] != 13);
        lemma_lines_skip(event, start, i + 1, k);
    }
}

/// The lines of an event: bytes without a terminator are one line; a line, its
/// end and more are that line and the lines of what follows; a `\r` that nothing
/// follows belongs to its line.
pub proof fn lemma_lines_of_an_event(line: Seq<u8>, end: Seq<u8>, rest: Seq<u8>)
    requires
        is_plain(line),
    ensures
        sse::lines(line) == seq![line],
        is_end(end, rest) ==> sse::lines(line + (end + rest)) == seq![line] + sse::lines(rest),
        sse::lines(line + seq![13u8]) == seq![line + seq![13u8]],
{
    let n = line.len() as int;
    lemma_lines_skip(line, 0, 0, n);
    assert(line.skip(0) == line);
    if is_end(end, rest) {
        let event = line + (end + rest);
        assert forall|j: int| 0 <= j < n implies #[trigger] event[j] != 10 && event[j] != 13 by {
            assert(event[j] == line[j]);
        }
        lemma_lines_skip(event, 0, 0, n);
        lemma_end_is_term(line, end, rest);
        assert(event.subrange(0, n) == line);
        assert(event == (line + end) + rest);
        lemma_lines_shift(line + end, rest, 0, 0);
    }
    let open = line + seq![13u8];
    assert forall|j: int| 0 <= j < n implies #[trigger] open[j] != 10 && open[j] != 13 by {
        assert(open[j] == line[j]);
    }
    lemma_lines_skip(open, 0, 0, n);
    assert(open.skip(0) == open);
    assert(sse::term(open, n) == Term::Incomplete);
    assert(sse::lines_from(open, 0, n) == sse::lines_from(open, 0, n + 1));
}

/// The value of a data line is what follows `data:`, less one space; a bare
/// `data` has an empty value.
pub proof fn lemma_data_lines_have_values(value: Seq<u8>)
    ensures
        sse::line_payload(seq![100u8, 97u8, 116u8, 97u8, 58u8, 32u8] + value) == Some(value),
        value.len() == 0 || value[0] != 32 ==> sse::line_payload(
            seq![100u8, 97u8, 116u8, 97u8, 58u8] + value,
        ) == Some(value),
        sse::line_payload(seq![100u8, 97u8, 116u8, 97u8]) == Some(Seq::<u8>::empty()),
{
    let field = seq![100u8, 97u8, 116u8, 97u8];
    assert(sse::data_field() =~= field);
    let spaced = seq![100u8, 97u8, 116u8, 97u8, 58u8, 32u8] + value;
    assert(spaced.take(5) =~= field.push(58u8));
    assert(spaced.skip(6) =~= value);
    let tight = seq![100u8, 97u8, 116u8, 97u8, 58u8] + value;
    assert(tight.take(5) =~= field.push(58u8));
    assert(tight.skip(5) =~= value);
    if value.len() > 0 {
        assert(tight[5] == value[0]);
    }
}

/// No other line has a value.
pub proof fn lemma_only_data_lines_have_values(line: Seq<u8>)
    requires
        sse::line_payload(line) is Some,
    ensures
        ({
            let value = sse::line_payload(line)->0;
            ||| line == seq![100u8, 97u8, 116u8, 97u8] && value.len() == 0
            ||| line == seq![100u8, 97u8, 116u8, 97u8, 58u8, 32u8] + value
            ||| line == seq![100u8, 97u8, 116u8, 97u8, 58u8] + value && (value.len() == 0
                || value[0] != 32)
        }),
{
    let value = sse::line_payload(line)->0;
    let field = seq![100u8, 97u8, 116u8, 97u8];
    assert(sse::data_field() =~= field);
    if line.len() >= 5 && line.take(5) == field.push(58u8) {
        let head = line.take(5);
        assert(line =~= head + line.skip(5));
        assert(head =~= seq![100u8, 97u8, 116u8, 97u8, 58u8]);
        if line.len() >= 6 && line[5] == 32 {
            assert(line =~= seq![100u8, 97u8, 116u8, 97u8, 58u8, 32u8] + line.skip(6));
        }
    }
}

/// The data of two groups of lines together: with a line feed between them where
/// both have some.
pub open spec fn together(x: Option<Seq<u8>>, y: Option<Seq<u8>>) -> Option<Seq<u8>> {
    match (x, y) {
        (Some(a), Some(b)) => Some(a + seq![10u8] + b),
        (Some(a), None) => Some(a),
        (None, _) => y,
    }
}

/// The data of lines is that of their parts, joined.
pub proof fn lemma_data_is_joined(x: Seq<Seq<u8>>, y: Seq<Seq<u8>>, line: Seq<u8>)
    ensures
        sse::joined_payload(Seq::empty()) is None,
        sse::joined_payload(seq![line]) == sse::line_payload(line),
        sse::joined_payload(x + y) == together(sse::joined_payload(x), sse::joined_payload(y)),
    decreases y.len(),
{
    assert(seq![line].drop_last() =~= Seq::<Seq<u8>>::empty());
    assert(sse::joined_payload(seq![line].drop_last()) is None);
    if y.len() == 0 {
        assert(x + y =~= x);
    } else {
        assert((x + y).drop_last() =~= x + y.drop_last());
        lemma_data_is_joined(x, y.drop_last(), line);
        let before = sse::joined_payload(x);
        let middle = sse::joined_payload(y.drop_last());
        if let Some(value) = sse::line_payload(y.last()) {
            match (before, middle) {
                (Some(a), Some(b)) => {
                    assert((a + seq![10u8] + b).push(10u8) + value =~= a + seq![10u8] + (b.push(
                        10u8,
                    ) + value));
                },
                (Some(a), None) => {
                    assert(a.push(10u8) + value =~= a + seq![10u8] + value);
                },
                _ => {},
            }
        }
    }
}

/// The data of an event is that of its first line and of the rest, joined.
pub proof fn lemma_event_data(line: Seq<u8>, end: Seq<u8>, rest: Seq<u8>)
    requires
        is_plain(line),
    ensures
        sse::event_data(line) == sse::line_payload(line),
        is_end(end, rest) ==> sse::event_data(line + (end + rest)) == together(
            sse::line_payload(line),
            sse::event_data(rest),
        ),
{
    lemma_lines_of_an_event(line, end, rest);
    lemma_data_is_joined(seq![line], sse::lines(rest), line);
}

/// `"usage"`, quotes included, is looked for at every place: data that holds it
/// anywhere mentions it, and data that mentions it holds it somewhere.
pub proof fn lemma_usage_is_found_anywhere(a: Seq<u8>, b: Seq<u8>, data: Seq<u8>)
    ensures
        sse::mentions_usage(a + seq![34u8, 117u8, 115u8, 97u8, 103u8, 101u8, 34u8] + b),
        sse::mentions_usage(data) ==> exists|k: int|
            0 <= k && k + 7 <= data.len() && data == #[trigger] data.take(k) + seq![
                34u8,
                117u8,
                115u8,
                97u8,
                103u8,
                101u8,
                34u8,
            ] + data.skip(k + 7),
{
    let key = seq![34u8, 117u8, 115u8, 97u8, 103u8, 101u8, 34u8];
    assert(sse::usage_key() =~= key);
    let all = a + key + b;
    let at = a.len() as int;
    assert(all.subrange(at, at + 7) =~= key);
    if sse::mentions_usage(data) {
        let k = choose|k: int|
            0 <= k <= data.len() - 7 && #[trigger] data.subrange(k, k + 7) == sse::usage_key();
        assert(data =~= data.take(k) + data.subrange(k, k + 7) + data.skip(k + 7));
    }
}

/// An event is the terminator exactly if its data is `[DONE]`.
pub proof fn lemma_terminator(event: Seq<u8>)
    ensures
        sse::is_done(event) <==> sse::event_data(event) == Some(
            seq![91u8, 68u8, 79u8, 78u8, 69u8, 93u8],
        ),
{
    assert(sse::done_marker() =~= seq![91u8, 68u8, 79u8, 78u8, 69u8, 93u8]);
}

/// An event puts its data up for usage accounting exactly if the data is not
/// `[DONE]` and mentions `"usage"`; and then all of it.
pub proof fn lemma_what_is_put_up(event: Seq<u8>, data: Seq<u8>)
    ensures
        sse::usage_payload(event) == Some(data) <==> sse::event_data(event) == Some(data) && data
            != seq![91u8, 68u8, 79u8, 78u8, 69u8, 93u8] && sse::mentions_usage(data),
        sse::event_data(event) is None ==> sse::usage_payload(event) is None,
{
    assert(sse::done_marker() =~= seq![91u8, 68u8, 79u8, 78u8, 69u8, 93u8]);
}

/// Events are dealt with one by one: what is put up for several is what is put
/// up for each, in order, and there is a terminator among them exactly if one of
/// them is it.
pub proof fn lemma_events_one_by_one(x: Seq<Seq<u8>>, y: Seq<Seq<u8>>, event: Seq<u8>)
    ensures
        sse::usage_payloads(Seq::empty()) == Seq::<Seq<u8>>::empty(),
        sse::usage_payloads(seq![event]) == (match sse::usage_payload(event) {
            Some(data) => seq![data],
            None => Seq::empty(),
        }),
        sse::usage_payloads(x + y) == sse::usage_payloads(x) + sse::usage_payloads(y),
        !sse::any_done(Seq::empty()),
        sse::any_done(seq![event]) <==> sse::is_done(event),
        sse::any_done(x + y) <==> sse::any_done(x) || sse::any_done(y),
{
    assert(seq![event].drop_last() =~= Seq::<Seq<u8>>::empty());
    assert(sse::usage_payloads(seq![event].drop_last()) =~= Seq::<Seq<u8>>::empty());
    assert(seq![event][0] == event);
    sse_laws::lemma_payloads_concat(x, y);
    sse_laws::lemma_done_concat(x, y);
}

/// A data event whose payload holds `"usage"`, wherever in it, is put up for
/// usage accounting with the whole payload, whatever follows it in the stream.
pub proof fn lemma_usage_event_is_put_up(a: Seq<u8>, b: Seq<u8>, rest: Seq<u8>)
    requires
        is_plain(a),
        is_plain(b),
    ensures
        ({
            let data = a + seq![34u8, 117u8, 115u8, 97u8, 103u8, 101u8, 34u8] + b;
            let event = seq![100u8, 97u8, 116u8, 97u8, 58u8, 32u8] + data;
            sse::usage_payloads(sse::events(event + seq![10u8, 10u8] + rest)) == seq![data]
                + sse::usage_payloads(sse::events(rest))
        }),
{
    let key = seq![34u8, 117u8, 115u8, 97u8, 103u8, 101u8, 34u8];
    let field = seq![100u8, 97u8, 116u8, 97u8, 58u8, 32u8];
    let data = a + key + b;
    let event = field + data;
    let lf = seq![10u8];
    assert(is_plain(event)) by {
        assert forall|i: int| 0 <= i < event.len() implies #[trigger] event[i] != 10 && event[i]
            != 13 by {
            if i < 6 {
                assert(event[i] == field[i]);
            } else if i < 6 + a.len() {
                assert(event[i] == a[i - 6]);
            } else if i < 13 + a.len() {
                assert(event[i] == key[i - 6 - a.len()]);
            } else {
                assert(event[i] == b[i - 13 - a.len()]);
            }
        }
    }
    lemma_written_event_is_found(Seq::empty(), event, lf, lf, rest);
    assert(event + seq![10u8, 10u8] + rest =~= event + (lf + (lf + rest)));
    lemma_event_data(event, lf, rest);
    lemma_data_lines_have_values(data);
    lemma_usage_is_found_anywhere(a, b, data);
    assert(data != seq![91u8, 68u8, 79u8, 78u8, 69u8, 93u8]) by {
        assert(data.len() >= 7);
    }
    lemma_what_is_put_up(event, data);
    lemma_events_one_by_one(seq![event], sse::events(rest), event);
}

/// The event `data: [DONE]` is seen, whatever follows it in the stream.
pub proof fn lemma_done_event_is_seen(rest: Seq<u8>)
    ensures
        sse::any_done(
            sse::events(
                seq![100u8, 97u8, 116u8, 97u8, 58u8, 32u8, 91u8, 68u8, 79u8, 78u8, 69u8, 93u8]
                    + seq![10u8, 10u8] + rest,
            ),
        ),
{
    let marker = seq![91u8, 68u8, 79u8, 78u8, 69u8, 93u8];
    let event = seq![100u8, 97u8, 116u8, 97u8, 58u8, 32u8, 91u8, 68u8, 79u8, 78u8, 69u8, 93u8];
    let lf = seq![10u8];
    assert(event =~= seq![100u8, 97u8, 116u8, 97u8, 58u8, 32u8] + marker);
    lemma_written_event_is_found(Seq::empty(), event, lf, lf, rest);
    assert(event + seq![10u8, 10u8] + rest =~= event + (lf + (lf + rest)));
    lemma_event_data(event, lf, rest);
    lemma_data_lines_have_values(marker);
    lemma_terminator(event);
    lemma_events_one_by_one(seq![event], sse::events(rest), event);
}

/// What a chunk does to a scanner that has not overflowed: the events of what was
/// left over and the chunk together are dealt with, and what they leave over is
/// kept, unless it is more than a mebibyte.
pub proof fn lemma_chunk(s: ScannerView, chunk: Seq<u8>)
    ensures
        s.overflowed ==> sse::scanned(s, chunk) == s && sse::surfaced(s, chunk) == Seq::<
            Seq<u8>,
        >::empty(),
        !s.overflowed ==> {
            let now = sse::scanned(s, chunk);
            let left = sse::remainder(s.buf + chunk);
            &&& sse::surfaced(s, chunk) == sse::usage_payloads(sse::events(s.buf + chunk))
            &&& now.saw_done == (s.saw_done || sse::any_done(sse::events(s.buf + chunk)))
            &&& now.last_usage == s.last_usage
            &&& now.overflowed <==> left.len() > 1048576
            &&& left.len() <= 1048576 ==> now.buf == left
            &&& left.len() > 1048576 ==> now.buf.len() == 0
        },
{
}

/// A new scanner has seen nothing.
pub proof fn lemma_new_scanner()
    ensures
        sse::fresh_scanner().buf.len() == 0,
        sse::fresh_scanner().last_usage is None,
        !sse::fresh_scanner().saw_done,
        !sse::fresh_scanner().overflowed,
{
}

/// What replies do to a scanner: a usage is kept, a reply without one changes
/// nothing, and nothing else changes.
pub proof fn lemma_replies(
    s: ScannerView,
    usage: Usage,
    x: Seq<Option<Usage>>,
    y: Seq<Option<Usage>>,
)
    ensures
        sse::accounted(s, None) == s,
        sse::accounted(s, Some(usage)) == (ScannerView { last_usage: Some(usage), ..s }),
        sse::accounted_all(s, Seq::empty()) == s,
        sse::accounted_all(s, x + y) == sse::accounted_all(sse::accounted_all(s, x), y),
        x.len() == 1 ==> sse::accounted_all(s, x) == sse::accounted(s, x[0]),
    decreases y.len(),
{
    if y.len() == 0 {
        assert(x + y =~= x);
    } else {
        assert((x + y).drop_last() =~= x + y.drop_last());
        lemma_replies(s, usage, x, y.drop_last());
    }
    if x.len() == 1 {
        assert(x.drop_last() =~= Seq::<Option<Usage>>::empty());
        assert(sse::accounted_all(s, x.drop_last()) == s);
    }
}

/// If no reply holds a usage, the last one stays what it was.
pub proof fn lemma_no_usage_no_change(s: ScannerView, replies: Seq<Option<Usage>>)
    requires
        forall|i: int| 0 <= i < replies.len() ==> #[trigger] replies[i] is None,
    ensures
        sse::accounted_all(s, replies) == s,
    decreases replies.len(),
{
    if replies.len() > 0 {
        let earlier = replies.drop_last();
        assert forall|i: int| 0 <= i < earlier.len() implies #[trigger] earlier[i] is None by {
            assert(earlier[i] == replies[i]);
        }
        lemma_no_usage_no_change(s, earlier);
        assert(replies[replies.len() - 1] is None);
    }
}

/// Every payload is read, once and in order, and each reply is one that the
/// reader gave for the bytes of that payload.
pub proof fn lemma_every_payload_is_read<F: Fn(&[u8]) -> Option<Usage>>(
    read: F,
    payloads: Seq<Seq<u8>>,
    replies: Seq<Option<Usage>>,
    i: int,
)
    requires
        sse::replied(read, payloads, replies),
        0 <= i < payloads.len(),
    ensures
        replies.len() == payloads.len(),
        exists|bytes: &[u8]|
            bytes@ == payloads[i] && #[trigger] call_ensures(read, (bytes,), replies[i]),
{
    assert(sse::reads_as(read, payloads[i], replies[i]));
}

/// Lists of byte strings are viewed one for one.
pub proof fn lemma_byte_views(list: Seq<Vec<u8>>)
    ensures
        sse::byte_views(list).len() == list.len(),
        forall|i: int| 0 <= i < list.len() ==> #[trigger] sse::byte_views(list)[i] == list[i]@,
{
}

/// A scanner's view says all of it.
pub proof fn lemma_scanner_view(s: sse::UsageScanner)
    ensures
        s@.buf == s.buf@,
        s@.last_usage == s.last_usage,
        s@.saw_done == s.saw_done,
        s@.overflowed == s.overflowed,
{
}

}
