//! Incremental scanning of a server-sent event stream for token usage.
//!
//! OpenAI-compatible streams carry token usage in the last data event before
//! `data: [DONE]`. The scanner works on a copy of the byte stream: it finds
//! event boundaries wherever the chunks happen to be cut, joins the `data:`
//! lines of each event, and has the payloads that mention `"usage"` read.
use vstd::prelude::*;

verus! {

/// Upper bound on bytes buffered while waiting for an event boundary.
/// OpenAI-style chunks are a few KB; a single event larger than this is
/// pathological. On overflow the scanner stops (accounting degrades to
/// "no usage observed").
pub const MAX_EVENT_BUFFER: usize = 1024 * 1024;

/// Line feed.
pub const LF: u8 = 0x0A;

/// Carriage return.
pub const CR: u8 = 0x0D;

/// Space.
pub const SPACE: u8 = 0x20;

/// Colon.
pub const COLON: u8 = 0x3A;

/// Token usage as reported by OpenAI-compatible streaming responses.
#[derive(Debug, Clone, Copy, PartialEq, Eq, Structural)]
pub struct Usage {
    pub prompt_tokens: u64,
    pub completion_tokens: u64,
    pub total_tokens: u64,
}

/// What stands at a position in terms of line terminators.
#[derive(Debug, Clone, Copy, PartialEq, Eq, Structural)]
pub enum Term {
    /// Not a line terminator.
    Not,
    /// A complete terminator of this byte length (`\n`, `\r\n`, or lone `\r`).
    Len(usize),
    /// A `\r` at the end of the buffer, which might be half of `\r\n`.
    Incomplete,
}

/// What stands at position `i` of `buf`.
pub open spec fn term(buf: Seq<u8>, i: int) -> Term {
    if i < 0 || i >= buf.len() {
        Term::Not
    } else if buf[i] == LF {
        Term::Len(1)
    } else if buf[i] == CR {
        if i + 1 >= buf.len() {
            Term::Incomplete
        } else if buf[i + 1] == LF {
            Term::Len(2)
        } else {
            Term::Len(1)
        }
    } else {
        Term::Not
    }
}

/// The first blank-line separator at or after position `i`: two complete line
/// terminators in a row. The result is where the first of them begins (the end
/// of the event) and where the second one ends. There is none while a `\r` that
/// might still become `\r\n` is in the way.
pub open spec fn boundary_from(buf: Seq<u8>, i: int) -> Option<(int, int)>
    decreases buf.len() - i,
{
    if i < 0 || i >= buf.len() {
        None
    } else {
        match term(buf, i) {
            Term::Not => boundary_from(buf, i + 1),
            Term::Incomplete => None,
            Term::Len(first) => match term(buf, i + first) {
                Term::Not => boundary_from(buf, i + first),
                Term::Incomplete => None,
                Term::Len(second) => Some((i, i + first + second)),
            },
        }
    }
}

/// The separator that ends the first event of `buf`.
pub open spec fn boundary(buf: Seq<u8>) -> Option<(int, int)> {
    boundary_from(buf, 0)
}

/// A separator lies within the buffer, at or after the position searched from.
pub proof fn lemma_boundary_bounds(buf: Seq<u8>, i: int)
    ensures
        boundary_from(buf, i) matches Some((end, next)) ==> 0 <= i <= end < next <= buf.len(),
    decreases buf.len() - i,
{
    if 0 <= i < buf.len() {
        match term(buf, i) {
            Term::Not => {
                lemma_boundary_bounds(buf, i + 1);
            },
            Term::Incomplete => {},
            Term::Len(first) => {
                lemma_boundary_bounds(buf, i + first);
            },
        }
    }
}

/// Position `i` holds the second half of a `\r\n` pair.
pub open spec fn splits_pair(buf: Seq<u8>, i: int) -> bool {
    0 < i < buf.len() && buf[i - 1] == CR && buf[i] == LF
}

/// A blank-line separator begins at position `i` and ends before `next`: two
/// complete line terminators follow each other there, and the first of them is
/// not the rest of a `\r\n` pair.
pub open spec fn is_separator(buf: Seq<u8>, i: int, next: int) -> bool {
    &&& 0 <= i < buf.len()
    &&& !splits_pair(buf, i)
    &&& term(buf, i) matches Term::Len(first) && (term(buf, i + first) matches Term::Len(second)
        && next == i + first + second)
}

proof fn lemma_first_separator_from(buf: Seq<u8>, i: int)
    requires
        0 <= i <= buf.len(),
        !splits_pair(buf, i),
    ensures
        boundary_from(buf, i) matches Some((end, next)) ==> i <= end && is_separator(
            buf,
            end,
            next,
        ) && forall|j: int, n: int| i <= j < end ==> !#[trigger] is_separator(buf, j, n),
        boundary_from(buf, i) is None ==> forall|j: int, n: int|
            i <= j ==> !#[trigger] is_separator(buf, j, n),
    decreases buf.len() - i,
{
    if i < buf.len() {
        match term(buf, i) {
            Term::Not => {
                lemma_first_separator_from(buf, i + 1);
            },
            Term::Incomplete => {},
            Term::Len(first) => {
                if term(buf, i + first) is Not {
                    lemma_first_separator_from(buf, i + first);
                }
            },
        }
    }
}

/// The boundary of a buffer is its first separator: the least position that is
/// not the second half of a `\r\n` pair and at which two complete line
/// terminators follow each other. There is no boundary exactly if there is no
/// separator.
pub proof fn lemma_boundary_is_first_separator(buf: Seq<u8>)
    ensures
        forall|end: int, next: int|
            boundary(buf) == Some((end, next)) <==> #[trigger] is_separator(buf, end, next)
                && forall|j: int, n: int| 0 <= j < end ==> !#[trigger] is_separator(buf, j, n),
        boundary(buf) is None <==> forall|j: int, n: int| !#[trigger] is_separator(buf, j, n),
{
    lemma_first_separator_from(buf, 0);
    assert forall|end: int, next: int|
        boundary(buf) == Some((end, next)) <==> #[trigger] is_separator(buf, end, next)
            && forall|j: int, n: int| 0 <= j < end ==> !#[trigger] is_separator(buf, j, n) by {
        if let Some((e, n)) = boundary(buf) {
            assert(is_separator(buf, e, n));
        }
    }
    if let Some((e, n)) = boundary(buf) {
        assert(is_separator(buf, e, n));
    }
}

/// The complete events of `buf`, in order.
pub open spec fn events(buf: Seq<u8>) -> Seq<Seq<u8>>
    decreases buf.len(),
{
    proof {
        lemma_boundary_bounds(buf, 0);
    }
    match boundary(buf) {
        None => Seq::empty(),
        Some((end, next)) => seq![buf.take(end)] + events(buf.skip(next)),
    }
}

/// What follows the last complete event of `buf`.
pub open spec fn remainder(buf: Seq<u8>) -> Seq<u8>
    decreases buf.len(),
{
    proof {
        lemma_boundary_bounds(buf, 0);
    }
    match boundary(buf) {
        None => buf,
        Some((end, next)) => remainder(buf.skip(next)),
    }
}

/// The lines of an event from `start` on, where no terminator begins between
/// `start` and `i`.
pub open spec fn lines_from(event: Seq<u8>, start: int, i: int) -> Seq<Seq<u8>>
    decreases event.len() - i,
{
    if i >= event.len() {
        seq![event.skip(start)]
    } else {
        match term(event, i) {
            Term::Len(len) => seq![event.subrange(start, i)] + lines_from(event, i + len, i + len),
            _ => lines_from(event, start, i + 1),
        }
    }
}

/// The lines of an event.
pub open spec fn lines(event: Seq<u8>) -> Seq<Seq<u8>> {
    lines_from(event, 0, 0)
}

/// `data`
pub open spec fn data_field() -> Seq<u8> {
    seq!['d' as u8, 'a' as u8, 't' as u8, 'a' as u8]
}

/// `[DONE]`
pub open spec fn done_marker() -> Seq<u8> {
    seq!['[' as u8, 'D' as u8, 'O' as u8, 'N' as u8, 'E' as u8, ']' as u8]
}

/// `"usage"`
pub open spec fn usage_key() -> Seq<u8> {
    seq!['"' as u8, 'u' as u8, 's' as u8, 'a' as u8, 'g' as u8, 'e' as u8, '"' as u8]
}

/// The value of a `data` line: what follows `data:`, less one leading space;
/// nothing for a bare `data`. Other lines have none.
pub open spec fn line_payload(line: Seq<u8>) -> Option<Seq<u8>> {
    if line.len() >= 5 && line.take(5) == data_field().push(COLON) {
        if line.len() >= 6 && line[5] == SPACE {
            Some(line.skip(6))
        } else {
            Some(line.skip(5))
        }
    } else if line == data_field() {
        Some(Seq::empty())
    } else {
        None
    }
}

/// The values of the `data` lines joined by newlines, if there is such a line.
pub open spec fn joined_payload(lines: Seq<Seq<u8>>) -> Option<Seq<u8>>
    decreases lines.len(),
{
    if lines.len() == 0 {
        None
    } else {
        let sofar = joined_payload(lines.drop_last());
        match line_payload(lines.last()) {
            None => sofar,
            Some(value) => match sofar {
                None => Some(value),
                Some(data) => Some(data.push(LF) + value),
            },
        }
    }
}

/// The data of an event; a comment or a non-data event has none.
pub open spec fn event_data(event: Seq<u8>) -> Option<Seq<u8>> {
    joined_payload(lines(event))
}

/// The event is the `data: [DONE]` terminator.
pub open spec fn is_done(event: Seq<u8>) -> bool {
    event_data(event) == Some(done_marker())
}

/// `"usage"` occurs in `data`.
pub open spec fn mentions_usage(data: Seq<u8>) -> bool {
    exists|k: int|
        0 <= k <= data.len() - 7 && #[trigger] data.subrange(k, k + 7) == usage_key()
}

/// The payload that an event puts up for usage accounting, if it does.
pub open spec fn usage_payload(event: Seq<u8>) -> Option<Seq<u8>> {
    match event_data(event) {
        Some(data) => if data != done_marker() && mentions_usage(data) {
            Some(data)
        } else {
            None
        },
        None => None,
    }
}

/// The payloads that the events put up for usage accounting, in order.
pub open spec fn usage_payloads(events: Seq<Seq<u8>>) -> Seq<Seq<u8>>
    decreases events.len(),
{
    if events.len() == 0 {
        Seq::empty()
    } else {
        let sofar = usage_payloads(events.drop_last());
        match usage_payload(events.last()) {
            None => sofar,
            Some(data) => sofar.push(data),
        }
    }
}

/// One of the events is the terminator.
pub open spec fn any_done(events: Seq<Seq<u8>>) -> bool {
    exists|i: int| 0 <= i < events.len() && is_done(#[trigger] events[i])
}

/// What stands at position `i` of `buf`.
pub fn term_at(buf: &[u8], i: usize) -> (r: Term)
    ensures
        r == term(buf@, i as int),
{
    if i >= buf.len() {
        return Term::Not;
    }
    if buf[i] == LF {
        Term::Len(1)
    } else if buf[i] == CR {
        if i + 1 >= buf.len() {
            Term::Incomplete
        } else if buf[i + 1] == LF {
            Term::Len(2)
        } else {
            Term::Len(1)
        }
    } else {
        Term::Not
    }
}

/// Find the first complete event: returns `(event_end, consume_to)` where
/// `event_end` is the exclusive end of the event body and `consume_to` is the
/// index just past the blank-line separator.
pub fn find_event_boundary(buf: &[u8]) -> (r: Option<(usize, usize)>)
    ensures
        match r {
            Some((event_end, consume_to)) => boundary(buf@) == Some(
                (event_end as int, consume_to as int),
            ) && event_end < consume_to <= buf@.len(),
            None => boundary(buf@) is None,
        },
{
    let mut i: usize = 0;
    while i < buf.len()
        invariant
            i <= buf@.len(),
            boundary(buf@) == boundary_from(buf@, i as int),
        decreases buf@.len() - i,
    {
        match term_at(buf, i) {
            Term::Not => {
                i = i + 1;
            },
            Term::Incomplete => {
                return None;
            },
            Term::Len(first) => {
                let j = i + first;
                match term_at(buf, j) {
                    Term::Not => {
                        i = j;
                    },
                    Term::Incomplete => {
                        return None;
                    },
                    Term::Len(second) => {
                        return Some((i, j + second));
                    },
                }
            },
        }
    }
    None
}

/// Whether `"usage"` occurs in `data`.
fn has_usage_key(data: &[u8]) -> (r: bool)
    ensures
        r == mentions_usage(data@),
{
    let mut k: usize = 0;
    while k < data.len() && data.len() - k >= 7
        invariant
            k <= data@.len(),
            forall|j: int|
                0 <= j < k && j <= data@.len() - 7 ==> #[trigger] data@.subrange(j, j + 7)
                    != usage_key(),
        decreases data@.len() - k,
    {
        let ghost window = data@.subrange(k as int, k + 7);
        if data[k] == 0x22 && data[k + 1] == 0x75 && data[k + 2] == 0x73 && data[k + 3] == 0x61
            && data[k + 4] == 0x67 && data[k + 5] == 0x65 && data[k + 6] == 0x22 {
            assert(window == usage_key());
            return true;
        }
        assert(window != usage_key()) by {
            if window == usage_key() {
                assert(forall|j: int| 0 <= j < 7 ==> data@[k + j] == #[trigger] window[j]);
                assert(window[0] == 0x22 && window[1] == 0x75 && window[2] == 0x73 && window[3]
                    == 0x61 && window[4] == 0x67 && window[5] == 0x65 && window[6] == 0x22);
            }
        }
        k = k + 1;
    }
    false
}

/// Whether `data` is the `[DONE]` marker.
fn is_done_marker(data: &[u8]) -> (r: bool)
    ensures
        r == (data@ == done_marker()),
{
    if data.len() == 6 && data[0] == 0x5B && data[1] == 0x44 && data[2] == 0x4F && data[3] == 0x4E
        && data[4] == 0x45 && data[5] == 0x5D {
        assert(data@ == done_marker());
        true
    } else {
        assert(data@ != done_marker()) by {
            if data@ == done_marker() {
                assert(data@.len() == 6 && data@[0] == 0x5B && data@[1] == 0x44 && data@[2] == 0x4F
                    && data@[3] == 0x4E && data@[4] == 0x45 && data@[5] == 0x5D);
            }
        }
        false
    }
}

/// The value of a `data` line, if `line` is one.
fn data_line_value(line: &[u8]) -> (r: Option<&[u8]>)
    ensures
        match r {
            Some(value) => line_payload(line@) == Some(value@),
            None => line_payload(line@) is None,
        },
{
    let n = line.len();
    if n < 4 || line[0] != 0x64 || line[1] != 0x61 || line[2] != 0x74 || line[3] != 0x61 {
        assert(line_payload(line@) is None) by {
            let field = data_field();
            assert(field.len() == 4 && field[0] == 0x64 && field[1] == 0x61 && field[2] == 0x74
                && field[3] == 0x61);
            if line@.len() >= 5 && line@.take(5) == field.push(COLON) {
                let head = line@.take(5);
                assert(forall|j: int| 0 <= j < 4 ==> line@[j] == #[trigger] head[j] && head[j] == field[j]);
                assert(head[0] == 0x64 && head[1] == 0x61 && head[2] == 0x74 && head[3] == 0x61);
            }
        }
        return None;
    }
    if n == 4 {
        assert(line@ == data_field());
        let value = &line[4..4];
        assert(value@ == Seq::<u8>::empty());
        return Some(value);
    }
    if line[4] != COLON {
        assert(line@.take(5)[4] != COLON);
        return None;
    }
    assert(line@.take(5) == data_field().push(COLON));
    if n >= 6 && line[5] == SPACE {
        assert(line@.skip(6) == line@.subrange(6, n as int));
        Some(&line[6..n])
    } else {
        assert(line@.skip(5) == line@.subrange(5, n as int));
        Some(&line[5..n])
    }
}

/// What a scanner has seen so far.
pub struct ScannerView {
    /// The bytes after the last complete event.
    pub buf: Seq<u8>,
    pub last_usage: Option<Usage>,
    pub saw_done: bool,
    pub overflowed: bool,
}

/// Scanner of a byte stream for token usage.
pub struct UsageScanner {
    pub buf: Vec<u8>,
    pub last_usage: Option<Usage>,
    pub saw_done: bool,
    pub overflowed: bool,
}

impl View for UsageScanner {
    type V = ScannerView;

    open spec fn view(&self) -> ScannerView {
        ScannerView {
            buf: self.buf@,
            last_usage: self.last_usage,
            saw_done: self.saw_done,
            overflowed: self.overflowed,
        }
    }
}

/// A scanner that has seen nothing.
pub open spec fn fresh_scanner() -> ScannerView {
    ScannerView { buf: Seq::empty(), last_usage: None, saw_done: false, overflowed: false }
}

/// The scanner after one more chunk.
pub open spec fn scanned(s: ScannerView, chunk: Seq<u8>) -> ScannerView {
    if s.overflowed {
        s
    } else {
        let seen = s.buf + chunk;
        let overflowed = remainder(seen).len() > MAX_EVENT_BUFFER;
        ScannerView {
            buf: if overflowed {
                Seq::empty()
            } else {
                remainder(seen)
            },
            last_usage: s.last_usage,
            saw_done: s.saw_done || any_done(events(seen)),
            overflowed,
        }
    }
}

/// The payloads that one more chunk puts up for usage accounting.
pub open spec fn surfaced(s: ScannerView, chunk: Seq<u8>) -> Seq<Seq<u8>> {
    if s.overflowed {
        Seq::empty()
    } else {
        usage_payloads(events(s.buf + chunk))
    }
}

/// The scanner after a payload was read as `reply`.
pub open spec fn accounted(s: ScannerView, reply: Option<Usage>) -> ScannerView {
    match reply {
        Some(_) => ScannerView { last_usage: reply, ..s },
        None => s,
    }
}

/// The scanner after several payloads were read as `replies`.
pub open spec fn accounted_all(s: ScannerView, replies: Seq<Option<Usage>>) -> ScannerView
    decreases replies.len(),
{
    if replies.len() == 0 {
        s
    } else {
        accounted(accounted_all(s, replies.drop_last()), replies.last())
    }
}

/// `read` may read `data` as `reply`.
pub open spec fn reads_as<F: Fn(&[u8]) -> Option<Usage>>(
    read: F,
    data: Seq<u8>,
    reply: Option<Usage>,
) -> bool {
    exists|bytes: &[u8]| bytes@ == data && #[trigger] call_ensures(read, (bytes,), reply)
}

/// `replies` is what `read` makes of the payloads, one by one.
pub open spec fn replied<F: Fn(&[u8]) -> Option<Usage>>(
    read: F,
    payloads: Seq<Seq<u8>>,
    replies: Seq<Option<Usage>>,
) -> bool {
    &&& replies.len() == payloads.len()
    &&& forall|i: int|
        0 <= i < payloads.len() ==> reads_as(read, payloads[i], #[trigger] replies[i])
}

/// What byte strings hold, string by string.
pub open spec fn byte_views(list: Seq<Vec<u8>>) -> Seq<Seq<u8>> {
    list.map_values(|v: Vec<u8>| v@)
}

impl Default for UsageScanner {
    fn default() -> (r: Self)
        ensures
            r@ == fresh_scanner(),
    {
        UsageScanner { buf: Vec::new(), last_usage: None, saw_done: false, overflowed: false }
    }
}

impl UsageScanner {
    /// Take in one more chunk of the stream.
    ///
    /// `read` finds the usage in a payload, if there is one. It is asked about
    /// every payload that mentions `"usage"`, in stream order, and the last
    /// usage that it finds is kept.
    pub fn feed<F: Fn(&[u8]) -> Option<Usage>>(&mut self, chunk: &[u8], read: &F)
        requires
            forall|bytes: &[u8]| #[trigger] call_requires(*read, (bytes,)),
        ensures
            exists|replies: Seq<Option<Usage>>| #[trigger]
                replied(*read, surfaced(old(self)@, chunk@), replies) && final(self)@
                    == accounted_all(scanned(old(self)@, chunk@), replies),
    {
        let payloads = self.scan(chunk);
        let ghost found = byte_views(payloads@);
        let ghost before = self@;
        let ghost mut replies: Seq<Option<Usage>> = Seq::empty();
        for i in 0..payloads.len()
            invariant
                forall|bytes: &[u8]| #[trigger] call_requires(*read, (bytes,)),
                found == byte_views(payloads@),
                replies.len() == i,
                forall|k: int|
                    0 <= k < i ==> reads_as(*read, found[k], #[trigger] replies[k]),
                self@ == accounted_all(before, replies),
        {
            let data = payloads[i].as_slice();
            let reply = read(data);
            self.record_usage(reply);
            proof {
                assert(data@ == found[i as int]);
                assert(replies.push(reply).drop_last() == replies);
                replies = replies.push(reply);
            }
        }
        assert(replied(*read, surfaced(old(self)@, chunk@), replies));
    }

    /// Scan one more chunk of the stream for events. Returns the payloads that
    /// mention `"usage"`, in stream order.
    pub fn scan(&mut self, chunk: &[u8]) -> (payloads: Vec<Vec<u8>>)
        ensures
            final(self)@ == scanned(old(self)@, chunk@),
            byte_views(payloads@) == surfaced(old(self)@, chunk@),
    {
        let mut payloads: Vec<Vec<u8>> = Vec::new();
        assert(byte_views(payloads@) == Seq::<Seq<u8>>::empty());
        if self.overflowed {
            return payloads;
        }
        self.buf.extend_from_slice(chunk);
        let ghost seen = old(self)@.buf + chunk@;
        assert(self.buf@ == seen);
        let ghost mut found: Seq<Seq<u8>> = Seq::empty();
        assert(events(seen) == found + events(seen));
        loop
            invariant
                events(seen) == found + events(self.buf@),
                remainder(seen) == remainder(self.buf@),
                byte_views(payloads@) == usage_payloads(found),
                self.saw_done == (old(self).saw_done || any_done(found)),
                self.last_usage == old(self).last_usage,
                !self.overflowed,
            ensures
                boundary(self.buf@) is None,
            decreases self.buf@.len(),
        {
            let (event_end, consume_to) = match find_event_boundary(self.buf.as_slice()) {
                None => {
                    break;
                },
                Some(found) => found,
            };
            let ghost before = self.buf@;
            let event = vstd::slice::slice_to_vec(
                vstd::slice::slice_subrange(self.buf.as_slice(), 0, event_end),
            );
            let rest = vstd::slice::slice_to_vec(
                vstd::slice::slice_subrange(self.buf.as_slice(), consume_to, self.buf.len()),
            );
            self.buf = rest;
            let ghost old_found = found;
            let ghost old_payloads = byte_views(payloads@);
            proof {
                found = found.push(event@);
                assert(event@ == before.take(event_end as int));
                assert(self.buf@ == before.skip(consume_to as int));
                assert(old_found + events(before) == found + events(self.buf@));
                assert(found.drop_last() == old_found);
            }
            if let Some(data) = self.process_event(event.as_slice()) {
                payloads.push(data);
                assert(byte_views(payloads@) == old_payloads.push(data@));
            }
            assert(any_done(found) <==> any_done(old_found) || is_done(event@)) by {
                if any_done(old_found) {
                    let i = choose|i: int| 0 <= i < old_found.len() && is_done(#[trigger] old_found[i]);
                    assert(is_done(found[i]));
                }
                if is_done(event@) {
                    assert(is_done(found[old_found.len() as int]));
                }
                if any_done(found) {
                    let i = choose|i: int| 0 <= i < found.len() && is_done(#[trigger] found[i]);
                    if i < old_found.len() {
                        assert(is_done(old_found[i]));
                    }
                }
            }
        }
        assert(found + events(self.buf@) == found);
        if self.buf.len() > MAX_EVENT_BUFFER {
            self.overflowed = true;
            self.buf = Vec::new();
        }
        payloads
    }

    /// Take in one event: note the `[DONE]` terminator, and return the payload
    /// if it mentions `"usage"`.
    pub fn process_event(&mut self, event: &[u8]) -> (payload: Option<Vec<u8>>)
        ensures
            final(self)@ == (ScannerView {
                saw_done: old(self).saw_done || is_done(event@),
                ..old(self)@
            }),
            match payload {
                Some(data) => usage_payload(event@) == Some(data@),
                None => usage_payload(event@) is None,
            },
    {
        let len = event.len();
        let mut data: Vec<u8> = Vec::new();
        let mut saw_data_line = false;
        let mut i: usize = 0;
        let mut line_start: usize = 0;
        let ghost mut found: Seq<Seq<u8>> = Seq::empty();
        assert(lines(event@) == found + lines(event@));
        loop
            invariant_except_break
                len == event@.len(),
                line_start <= i <= len,
                lines(event@) == found + lines_from(event@, line_start as int, i as int),
                saw_data_line == (joined_payload(found) is Some),
                saw_data_line ==> joined_payload(found) == Some(data@),
                !saw_data_line ==> data@.len() == 0,
                self@ == old(self)@,
            ensures
                saw_data_line == (event_data(event@) is Some),
                saw_data_line ==> event_data(event@) == Some(data@),
                self@ == old(self)@,
            decreases event@.len() - i,
        {
            match term_at(event, i) {
                Term::Len(skip) => {
                    let line = vstd::slice::slice_subrange(event, line_start, i);
                    self.collect_data_line(line, &mut data, &mut saw_data_line);
                    proof {
                        assert(found.push(line@).drop_last() == found);
                        let rest = lines_from(event@, i + skip, i + skip);
                        assert(found + (seq![line@] + rest) == found.push(line@) + rest);
                        found = found.push(line@);
                    }
                    i = i + skip;
                    line_start = i;
                },
                _ => {
                    if i >= len {
                        let line = vstd::slice::slice_subrange(event, line_start, len);
                        self.collect_data_line(line, &mut data, &mut saw_data_line);
                        proof {
                            assert(found.push(line@).drop_last() == found);
                            assert(line@ == event@.skip(line_start as int));
                            assert(found + seq![line@] == found.push(line@));
                        }
                        break;
                    }
                    i = i + 1;
                },
            }
        }
        if !saw_data_line {
            return None;
        }
        if is_done_marker(data.as_slice()) {
            self.saw_done = true;
            return None;
        }
        if has_usage_key(data.as_slice()) {
            Some(data)
        } else {
            None
        }
    }

    /// Append the value of `line` to `data`, if it is a `data` line, with a
    /// newline before it unless it is the first.
    pub fn collect_data_line(&self, line: &[u8], data: &mut Vec<u8>, saw_data_line: &mut bool)
        ensures
            match line_payload(line@) {
                None => final(data)@ == old(data)@ && *final(saw_data_line) == *old(saw_data_line),
                Some(value) => *final(saw_data_line) && final(data)@ == (if *old(saw_data_line) {
                    old(data)@.push(LF) + value
                } else {
                    old(data)@ + value
                }),
            },
    {
        if let Some(value) = data_line_value(line) {
            if *saw_data_line {
                data.push(LF);
            }
            data.extend_from_slice(value);
            *saw_data_line = true;
        }
    }

    /// Report what a payload was read as. The last usage wins; a payload
    /// without one leaves it as it was.
    pub fn record_usage(&mut self, reply: Option<Usage>)
        ensures
            final(self)@ == accounted(old(self)@, reply),
    {
        if reply.is_some() {
            self.last_usage = reply;
        }
    }
}

}
