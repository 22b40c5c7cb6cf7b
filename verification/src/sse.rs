//! Server-sent events: an incremental decoder, and the frames that the server
//! writes itself.

use vstd::prelude::*;
use vstd::slice::slice_subrange;
use vstd::utf8::*;
use crate::json::Json;
use crate::json::{
    flat_bound, json_text, members_bound, no_control, plain_key, reads_as, JsonView,
};
use crate::text::{after_prefix, utf8_text, without_trailing};
use crate::text::{
    drop_trailing, first_index, lemma_encode_ascii_free, lemma_encode_concat, lemma_encode_one,
    lemma_first_index, lemma_first_index_is, lemma_utf8_len_most, utf8_len,
};

verus! {

/// The most bytes that may wait for the end of their line.
pub const MAX_PENDING: usize = 2 * 1024 * 1024;

/// Incremental SSE decoder. It buffers bytes until a line is complete, so
/// that UTF-8 split across network chunks stays intact. Supports LF, CRLF and
/// multiline data.
pub struct SseDecoder {
    /// Bytes that arrived but form no complete line yet.
    pending: Vec<u8>,
    /// The `data:` lines of the event that is being assembled.
    lines: Vec<String>,
}

/// What a decoder remembers between chunks.
pub struct SseView {
    pub pending: Seq<u8>,
    pub lines: Seq<Seq<char>>,
}

/// Why a chunk is refused.
pub enum SseFault {
    TooLong,
    NotUtf8,
}

/// What becomes of a chunk: what the decoder remembers, the payloads of the
/// events that it completes, and the fault that stops it, if any.
pub struct Decoded {
    pub state: SseView,
    pub events: Seq<Seq<char>>,
    pub fault: Option<SseFault>,
}

/// The characters of each string.
pub open spec fn texts(strings: Seq<String>) -> Seq<Seq<char>> {
    strings.map_values(|s: String| s@)
}

/// The decoder before any input.
pub open spec fn fresh() -> SseView {
    SseView { pending: Seq::empty(), lines: Seq::empty() }
}

/// Lines joined by line feeds.
pub open spec fn joined(lines: Seq<Seq<char>>) -> Seq<char>
    decreases lines.len(),
{
    if lines.len() == 0 {
        Seq::empty()
    } else if lines.len() == 1 {
        lines[0]
    } else {
        joined(lines.drop_last()) + seq!['\n'] + lines.last()
    }
}

/// The value of a field, whose first character is an optional space.
pub open spec fn field_value(rest: Seq<char>) -> Seq<char> {
    if rest.len() > 0 && rest[0] == ' ' {
        rest.skip(1)
    } else {
        rest
    }
}

/// The `data:` lines collected so far, and the payloads completed, after one
/// line. A blank line completes the event, if it has data; a `data:` line adds
/// to it; every other line (a comment, another field) is ignored.
pub open spec fn after_line(lines: Seq<Seq<char>>, line: Seq<char>) -> (
    Seq<Seq<char>>,
    Seq<Seq<char>>,
) {
    if line.len() == 0 {
        if lines.len() == 0 {
            (lines, Seq::empty())
        } else {
            (Seq::empty(), seq![joined(lines)])
        }
    } else if "data:"@.is_prefix_of(line) {
        (lines.push(field_value(line.skip("data:"@.len() as int))), Seq::empty())
    } else {
        (lines, Seq::empty())
    }
}

/// Reads every complete line of `bytes`, one after the other. A line that is
/// no UTF-8 is dropped and stops the reading.
pub open spec fn scan(bytes: Seq<u8>, lines: Seq<Seq<char>>) -> Decoded
    decreases bytes.len(),
{
    let end = first_index(bytes, 10u8);
    if end < 0 || bytes.len() <= end {
        Decoded {
            state: SseView { pending: bytes, lines },
            events: Seq::empty(),
            fault: None,
        }
    } else {
        let raw = bytes.take(end);
        let rest = bytes.skip(end + 1);
        if valid_utf8(raw) {
            let step = after_line(lines, drop_trailing(decode_utf8(raw), '\r'));
            let tail = scan(rest, step.0);
            Decoded { events: step.1 + tail.events, ..tail }
        } else {
            Decoded {
                state: SseView { pending: rest, lines },
                events: Seq::empty(),
                fault: Some(SseFault::NotUtf8),
            }
        }
    }
}

/// What becomes of one chunk.
pub open spec fn pushed(state: SseView, bytes: Seq<u8>) -> Decoded {
    let all = state.pending + bytes;
    if all.len() > MAX_PENDING {
        Decoded {
            state: SseView { pending: all, ..state },
            events: Seq::empty(),
            fault: Some(SseFault::TooLong),
        }
    } else {
        scan(all, state.lines)
    }
}

/// The message for a fault.
pub open spec fn fault_text(fault: SseFault) -> Seq<char> {
    match fault {
        SseFault::TooLong => "SSE line exceeded 2 MB"@,
        SseFault::NotUtf8 => "Invalid UTF-8 in SSE stream"@,
    }
}

impl View for SseDecoder {
    type V = SseView;

    closed spec fn view(&self) -> SseView {
        SseView { pending: self.pending@, lines: texts(self.lines@) }
    }
}

impl Default for SseDecoder {
    fn default() -> (r: Self)
        ensures
            r@ == fresh(),
    {
        let r = SseDecoder { pending: Vec::new(), lines: Vec::new() };
        assert(texts(r.lines@) =~= Seq::empty());
        r
    }
}

/// Joins lines by line feeds.
fn join_lines(lines: &Vec<String>) -> (r: String)
    ensures
        r@ == joined(texts(lines@)),
{
    let mut out = String::new();
    let mut i: usize = 0;
    assert(texts(lines@).take(0) =~= Seq::empty());
    while i < lines.len()
        invariant
            i <= lines@.len(),
            out@ == joined(texts(lines@).take(i as int)),
        decreases lines@.len() - i,
    {
        let ghost so_far = texts(lines@).take(i as int);
        let ghost next = texts(lines@).take(i + 1);
        assert(next.drop_last() =~= so_far);
        assert(next.last() == lines@[i as int]@);
        if i > 0 {
            out.push('\n');
        }
        let ghost before = out@;
        out.append(lines[i].as_str());
        assert(i > 0 ==> out@ =~= joined(so_far) + seq!['\n'] + next.last());
        assert(i == 0 ==> out@ =~= next[0]);
        i = i + 1;
    }
    assert(texts(lines@).take(i as int) =~= texts(lines@));
    out
}

/// Drops the optional space at the start of a field's value.
fn without_space(rest: String) -> (r: String)
    ensures
        r@ == field_value(rest@),
{
    proof {
        reveal_strlit(" ");
        assert(" "@ =~= seq![' ']);
        if rest@.len() > 0 {
            assert(rest@.subrange(0, 1) =~= seq![rest@[0]]);
            assert(seq![rest@[0]][0] == rest@[0]);
        }
    }
    match after_prefix(rest.as_str(), " ") {
        Some(value) => value,
        None => rest,
    }
}

impl SseDecoder {
    /// Feed raw network bytes in; get back the payloads of the events that
    /// they complete.
    pub fn push(&mut self, bytes: &[u8]) -> (r: Result<Vec<String>, String>)
        ensures
            final(self)@ == pushed(old(self)@, bytes@).state,
            match r {
                Ok(events) => pushed(old(self)@, bytes@).fault is None && texts(events@) == pushed(
                    old(self)@,
                    bytes@,
                ).events,
                Err(message) => pushed(old(self)@, bytes@).fault is Some && message@ == fault_text(
                    pushed(old(self)@, bytes@).fault->0,
                ),
            },
    {
        self.pending.extend_from_slice(bytes);
        assert(self.pending@ =~= old(self)@.pending + bytes@);
        if self.pending.len() > MAX_PENDING {
            return Err("SSE line exceeded 2 MB".to_owned());
        }
        let ghost all = self.pending@;
        let ghost lines0 = texts(self.lines@);
        let ghost whole = scan(all, lines0);
        let mut events: Vec<String> = Vec::new();
        let mut start: usize = 0;
        let mut i: usize = 0;
        assert(all.skip(0) =~= all);
        assert(texts(events@) =~= Seq::empty());
        assert(Seq::<Seq<char>>::empty() + whole.events =~= whole.events);
        while i < self.pending.len()
            invariant
                self.pending@ == all,
                start <= i <= all.len(),
                forall|j: int| start <= j < i ==> #[trigger] all[j] != 10u8,
                whole.state == scan(all.skip(start as int), texts(self.lines@)).state,
                whole.fault == scan(all.skip(start as int), texts(self.lines@)).fault,
                whole.events == texts(events@) + scan(
                    all.skip(start as int),
                    texts(self.lines@),
                ).events,
                whole == pushed(old(self)@, bytes@),
            decreases all.len() - i,
        {
            if self.pending[i] == 10u8 {
                let ghost rest = all.skip(start as int);
                proof {
                    assert forall|j: int| 0 <= j < i - start implies #[trigger] rest[j] != 10u8 by {
                        assert(all[start + j] != 10u8);
                    }
                    lemma_first_index_is(rest, 10u8, i - start);
                    assert(rest.take(i - start) =~= all.subrange(start as int, i as int));
                    assert(rest.skip(i - start + 1) =~= all.skip(i + 1));
                }
                let raw = slice_subrange(self.pending.as_slice(), start, i);
                match utf8_text(raw) {
                    None => {
                        self.pending = self.pending.split_off(i + 1);
                        assert(self.pending@ =~= all.skip(i + 1));
                        return Err("Invalid UTF-8 in SSE stream".to_owned());
                    },
                    Some(text) => {
                        let ghost lines1 = texts(self.lines@);
                        let ghost events1 = texts(events@);
                        let line = without_trailing(text, '\r');
                        let ghost step = after_line(lines1, line@);
                        let ghost tail = scan(all.skip(i + 1), step.0);
                        if line.as_str().is_empty() {
                            if !self.lines.is_empty() {
                                events.push(join_lines(&self.lines));
                                self.lines.clear();
                                assert(texts(events@) =~= events1.push(joined(lines1)));
                                assert(texts(self.lines@) =~= Seq::empty());
                            }
                        } else if let Some(data) = after_prefix(line.as_str(), "data:") {
                            let value = without_space(data);
                            self.lines.push(value);
                            assert(texts(self.lines@) =~= lines1.push(value@));
                        }
                        assert(texts(self.lines@) == step.0);
                        assert(texts(events@) =~= events1 + step.1);
                        assert(events1 + (step.1 + tail.events) =~= texts(events@) + tail.events);
                    },
                }
                start = i + 1;
            }
            i = i + 1;
        }
        proof {
            let rest = all.skip(start as int);
            assert forall|j: int| 0 <= j < rest.len() implies #[trigger] rest[j] != 10u8 by {
                assert(all[start + j] != 10u8);
            }
            lemma_first_index_is(rest, 10u8, rest.len() as int);
        }
        self.pending = self.pending.split_off(start);
        assert(self.pending@ =~= all.skip(start as int));
        assert(whole.events =~= texts(events@));
        Ok(events)
    }
}

/// Reading keeps or shortens what waits, and leaves no complete line behind.
proof fn lemma_scan_pending(bytes: Seq<u8>, lines: Seq<Seq<char>>)
    ensures
        scan(bytes, lines).state.pending.len() <= bytes.len(),
        scan(bytes, lines).fault is None ==> !scan(bytes, lines).state.pending.contains(10u8),
    decreases bytes.len(),
{
    lemma_first_index(bytes, 10u8);
    let end = first_index(bytes, 10u8);
    if end < bytes.len() && valid_utf8(bytes.take(end)) {
        let step = after_line(lines, drop_trailing(decode_utf8(bytes.take(end)), '\r'));
        lemma_scan_pending(bytes.skip(end + 1), step.0);
    }
}

/// Reading `a + b` is reading `a`, and then `b` after what `a` left waiting.
proof fn lemma_scan_concat(a: Seq<u8>, b: Seq<u8>, lines: Seq<Seq<char>>)
    ensures
        ({
            let first = scan(a, lines);
            let second = scan(first.state.pending + b, first.state.lines);
            let whole = scan(a + b, lines);
            if first.fault is None {
                &&& whole.state == second.state
                &&& whole.fault == second.fault
                &&& whole.events == first.events + second.events
            } else {
                whole.fault is Some
            }
        }),
    decreases a.len(),
{
    lemma_first_index(a, 10u8);
    let end = first_index(a, 10u8);
    let whole = scan(a + b, lines);
    if end < a.len() {
        assert forall|i: int| 0 <= i < end implies #[trigger] (a + b)[i] != 10u8 by {
            assert((a + b)[i] == a[i]);
        }
        lemma_first_index_is(a + b, 10u8, end);
        assert((a + b).take(end) =~= a.take(end));
        assert((a + b).skip(end + 1) =~= a.skip(end + 1) + b);
        if valid_utf8(a.take(end)) {
            let step = after_line(lines, drop_trailing(decode_utf8(a.take(end)), '\r'));
            lemma_scan_concat(a.skip(end + 1), b, step.0);
            let first = scan(a, lines);
            let second = scan(first.state.pending + b, first.state.lines);
            if first.fault is None {
                let inner = scan(a.skip(end + 1), step.0);
                assert(step.1 + (inner.events + second.events) =~= (step.1 + inner.events)
                    + second.events);
            }
        }
    } else {
        assert(whole.events =~= Seq::<Seq<char>>::empty() + whole.events);
    }
}

/// After a chunk without fault, only an unfinished line waits in the decoder.
pub proof fn law_only_unfinished_lines_wait(state: SseView, bytes: Seq<u8>)
    requires
        pushed(state, bytes).fault is None,
    ensures
        !pushed(state, bytes).state.pending.contains(10u8),
{
    lemma_scan_pending(state.pending + bytes, state.lines);
}

/// What becomes of chunks that are pushed one after the other, up to the first
/// fault.
pub open spec fn fed(state: SseView, chunks: Seq<Seq<u8>>) -> Decoded
    decreases chunks.len(),
{
    if chunks.len() == 0 {
        Decoded { state, events: Seq::empty(), fault: None }
    } else {
        let first = pushed(state, chunks[0]);
        if first.fault is Some {
            first
        } else {
            let rest = fed(first.state, chunks.drop_first());
            Decoded { events: first.events + rest.events, ..rest }
        }
    }
}

/// Chunks that are all accepted are read as one text.
proof fn lemma_fed_is_scan(state: SseView, chunks: Seq<Seq<u8>>)
    requires
        chunks.len() > 0 || !state.pending.contains(10u8),
        fed(state, chunks).fault is None,
    ensures
        fed(state, chunks) == scan(state.pending + chunks.flatten(), state.lines),
    decreases chunks.len(),
{
    if chunks.len() == 0 {
        assert(chunks.flatten() =~= Seq::empty());
        assert(state.pending + chunks.flatten() =~= state.pending);
        assert forall|i: int| 0 <= i < state.pending.len() implies #[trigger] state.pending[i]
            != 10u8 by {
            assert(state.pending.contains(state.pending[i]));
        }
        lemma_first_index_is(state.pending, 10u8, state.pending.len() as int);
    } else {
        let a = chunks[0];
        let rest = chunks.drop_first();
        let b = rest.flatten();
        assert(chunks.flatten() == a + b);
        assert(state.pending + (a + b) =~= (state.pending + a) + b);
        lemma_scan_concat(state.pending + a, b, state.lines);
        lemma_scan_pending(state.pending + a, state.lines);
        lemma_fed_is_scan(pushed(state, a).state, rest);
    }
}

/// How a stream is cut into chunks does not matter, even in the middle of a
/// character: two ways of cutting it, neither of which meets a fault, give the
/// same events and leave the same decoder.
pub proof fn law_chunking(state: SseView, chunks: Seq<Seq<u8>>, others: Seq<Seq<u8>>)
    requires
        chunks.len() > 0 && others.len() > 0 || !state.pending.contains(10u8),
        chunks.flatten() == others.flatten(),
        fed(state, chunks).fault is None,
        fed(state, others).fault is None,
    ensures
        fed(state, chunks) == fed(state, others),
{
    lemma_fed_is_scan(state, chunks);
    lemma_fed_is_scan(state, others);
}

/// As long as a stream's length stays within the limit, pushing its chunks one
/// by one meets a fault exactly when pushing the whole at once does, and does
/// the same where it does not.
pub proof fn law_whole_or_in_chunks(state: SseView, chunks: Seq<Seq<u8>>)
    requires
        state.pending.len() + chunks.flatten().len() <= MAX_PENDING,
        chunks.len() > 0 || !state.pending.contains(10u8),
    ensures
        fed(state, chunks).fault is None <==> pushed(state, chunks.flatten()).fault is None,
        fed(state, chunks).fault is None ==> fed(state, chunks) == pushed(state, chunks.flatten()),
    decreases chunks.len(),
{
    if fed(state, chunks).fault is None {
        lemma_fed_is_scan(state, chunks);
    } else if chunks.len() > 0 {
        let a = chunks[0];
        let rest = chunks.drop_first();
        let b = rest.flatten();
        assert(chunks.flatten() == a + b);
        assert(state.pending + (a + b) =~= (state.pending + a) + b);
        lemma_scan_concat(state.pending + a, b, state.lines);
        lemma_scan_pending(state.pending + a, state.lines);
        if pushed(state, a).fault is None {
            law_whole_or_in_chunks(pushed(state, a).state, rest);
        }
    }
}

/// A text whose reading by a fresh decoder gives exactly these events and
/// leaves nothing behind.
pub open spec fn decodes_to(frame: Seq<char>, events: Seq<Seq<char>>) -> bool {
    scan(encode_utf8(frame), Seq::empty()) == (Decoded { state: fresh(), events, fault: None })
}

/// Whether a text can stand on one line of a frame: it holds no line feed and
/// does not end in a carriage return.
pub open spec fn fits_line(line: Seq<char>) -> bool {
    &&& forall|i: int| 0 <= i < line.len() ==> #[trigger] line[i] != '\n'
    &&& line.len() > 0 ==> line.last() != '\r'
}

proof fn lemma_char_value(a: char, b: char)
    requires
        a != b,
    ensures
        a as u32 != b as u32,
{
    char_u32_cast(a, a as u32);
    char_u32_cast(b, b as u32);
}

/// A line that fits is read as itself, whatever follows it.
proof fn lemma_scan_line(line: Seq<char>, rest: Seq<u8>, lines: Seq<Seq<char>>)
    requires
        fits_line(line),
    ensures
        ({
            let whole = scan(encode_utf8(line + seq!['\n']) + rest, lines);
            let step = after_line(lines, line);
            let tail = scan(rest, step.0);
            &&& whole.state == tail.state
            &&& whole.fault == tail.fault
            &&& whole.events == step.1 + tail.events
        }),
{
    let head = encode_utf8(line);
    let bytes = encode_utf8(line + seq!['\n']) + rest;
    lemma_encode_concat(line, seq!['\n']);
    lemma_encode_one('\n');
    assert((10u32 & 0x7F) as u8 == 10u8) by (bit_vector);
    assert(encode_utf8(seq!['\n']) =~= seq![10u8]);
    assert forall|i: int| 0 <= i < line.len() implies #[trigger] line[i] as u32 != 10u8 as u32 by {
        assert(line[i] != '\n');
        lemma_char_value(line[i], '\n');
    }
    lemma_encode_ascii_free(line, 10u8);
    assert forall|i: int| 0 <= i < head.len() implies #[trigger] bytes[i] != 10u8 by {
        assert(bytes[i] == head[i]);
    }
    assert(bytes[head.len() as int] == 10u8);
    lemma_first_index_is(bytes, 10u8, head.len() as int);
    assert(bytes.take(head.len() as int) =~= head);
    assert(bytes.skip(head.len() as int + 1) =~= rest);
    encode_utf8_valid_utf8(line);
    encode_utf8_decode_utf8(line);
    assert(drop_trailing(line, '\r') == line);
}

/// A frame that carries `lines` as the `data:` lines of one event.
pub open spec fn data_frame(lines: Seq<Seq<char>>) -> Seq<char>
    decreases lines.len(),
{
    if lines.len() == 0 {
        seq!['\n']
    } else {
        "data: "@ + lines[0] + seq!['\n'] + data_frame(lines.drop_first())
    }
}

proof fn lemma_data_line(line: Seq<char>, lines: Seq<Seq<char>>)
    requires
        fits_line(line),
    ensures
        fits_line("data: "@ + line),
        after_line(lines, "data: "@ + line) == (lines.push(line), Seq::<Seq<char>>::empty()),
{
    reveal_strlit("data: ");
    reveal_strlit("data:");
    let whole = "data: "@ + line;
    assert(whole.subrange(0, 5) =~= "data:"@);
    assert(whole.skip(5) =~= seq![' '] + line);
    assert((seq![' '] + line).skip(1) =~= line);
    if line.len() > 0 {
        assert(whole.last() == line.last());
    }
    assert forall|i: int| 0 <= i < whole.len() implies #[trigger] whole[i] != '\n' by {
        if i >= 6 {
            assert(whole[i] == line[i - 6]);
        }
    }
}

proof fn lemma_data_frame(lines: Seq<Seq<char>>, so_far: Seq<Seq<char>>)
    requires
        forall|i: int| 0 <= i < lines.len() ==> fits_line(#[trigger] lines[i]),
        (so_far + lines).len() > 0,
    ensures
        scan(encode_utf8(data_frame(lines)), so_far) == (Decoded {
            state: fresh(),
            events: seq![joined(so_far + lines)],
            fault: None,
        }),
    decreases lines.len(),
{
    let none = Seq::<Seq<char>>::empty();
    let nothing = Seq::<u8>::empty();
    if lines.len() == 0 {
        assert(so_far + lines =~= so_far);
        assert(Seq::<char>::empty() + seq!['\n'] =~= seq!['\n']);
        assert(encode_utf8(seq!['\n']) + nothing =~= encode_utf8(seq!['\n']));
        lemma_scan_line(Seq::empty(), nothing, so_far);
        assert(scan(nothing, none) == Decoded { state: fresh(), events: none, fault: None });
        assert(seq![joined(so_far)] + none =~= seq![joined(so_far)]);
    } else {
        let line = "data: "@ + lines[0];
        let rest = lines.drop_first();
        assert(data_frame(lines) == (line + seq!['\n']) + data_frame(rest));
        lemma_encode_concat(line + seq!['\n'], data_frame(rest));
        lemma_data_line(lines[0], so_far);
        lemma_scan_line(line, encode_utf8(data_frame(rest)), so_far);
        assert(so_far.push(lines[0]) + rest =~= so_far + lines);
        assert forall|i: int| 0 <= i < rest.len() implies fits_line(#[trigger] rest[i]) by {
            assert(rest[i] == lines[i + 1]);
        }
        lemma_data_frame(rest, so_far.push(lines[0]));
        assert(none + seq![joined(so_far + lines)] =~= seq![joined(so_far + lines)]);
    }
}

/// What the decoder reads of a frame is what the frame was made from: the
/// `data:` lines, joined by line feeds.
pub proof fn law_frame_is_read_back(lines: Seq<Seq<char>>)
    requires
        lines.len() > 0,
        forall|i: int| 0 <= i < lines.len() ==> fits_line(#[trigger] lines[i]),
    ensures
        decodes_to(data_frame(lines), seq![joined(lines)]),
{
    lemma_data_frame(lines, Seq::empty());
    assert(Seq::<Seq<char>>::empty() + lines =~= lines);
}

/// A comment between two events, such as a keep-alive, is read as nothing.
pub proof fn law_comment_is_silent(comment: Seq<char>)
    requires
        fits_line(comment),
    ensures
        decodes_to(seq![':'] + comment + seq!['\n', '\n'], Seq::empty()),
{
    let none = Seq::<Seq<char>>::empty();
    let nothing = Seq::<u8>::empty();
    let line = seq![':'] + comment;
    if comment.len() > 0 {
        assert(line.last() == comment.last());
    }
    assert forall|i: int| 0 <= i < line.len() implies #[trigger] line[i] != '\n' by {
        if i >= 1 {
            assert(line[i] == comment[i - 1]);
        }
    }
    assert(line + seq!['\n', '\n'] =~= (line + seq!['\n']) + seq!['\n']);
    lemma_encode_concat(line + seq!['\n'], seq!['\n']);
    lemma_scan_line(line, encode_utf8(seq!['\n']), none);
    assert(after_line(none, line) == (none, none)) by {
        reveal_strlit("data:");
        assert(line[0] == ':');
        if "data:"@.is_prefix_of(line) {
            assert(line.subrange(0, 5)[0] == line[0]);
            assert("data:"@[0] == 'd');
        }
    }
    assert(Seq::<char>::empty() + seq!['\n'] =~= seq!['\n']);
    assert(encode_utf8(seq!['\n']) + nothing =~= encode_utf8(seq!['\n']));
    lemma_scan_line(Seq::empty(), nothing, none);
    assert(scan(nothing, none) == Decoded { state: fresh(), events: none, fault: None });
    assert(none + none =~= none);
}

/// A text without control characters fits on one line.
proof fn lemma_printable_fits(text: Seq<char>)
    requires
        no_control(text),
    ensures
        fits_line(text),
{
    assert forall|i: int| 0 <= i < text.len() implies #[trigger] text[i] != '\n' by {
        assert(text[i] as u32 >= 0x20);
    }
    if text.len() > 0 {
        assert(text[text.len() - 1] as u32 >= 0x20);
    }
}

/// The frame of an event whose payload is one line.
pub open spec fn event_frame(payload: Seq<char>) -> Seq<char> {
    "data: "@ + payload + "\n\n"@
}

proof fn lemma_event_frame(payload: Seq<char>)
    requires
        fits_line(payload),
    ensures
        event_frame(payload) == data_frame(seq![payload]),
        decodes_to(event_frame(payload), seq![payload]),
{
    reveal_with_fuel(data_frame, 2);
    reveal_strlit("\n\n");
    let lines = seq![payload];
    assert(lines.drop_first() =~= Seq::<Seq<char>>::empty());
    assert(event_frame(payload) =~= "data: "@ + payload + seq!['\n'] + seq!['\n']);
    law_frame_is_read_back(lines);
}

/// The value that reports an error to the client.
pub open spec fn error_value(message: Seq<char>) -> JsonView {
    JsonView::Object(
        map!["type"@ => JsonView::Str("error"@), "message"@ => JsonView::Str(message)],
    )
}

/// The value that reports an error to the client.
pub fn error_json(message: &str) -> (r: Json)
    ensures
        r@ == error_value(message@),
{
    Json::object().with("type", Json::string("error")).with("message", Json::string(message))
}

/// The most bytes that the frame of an error takes.
pub open spec fn error_frame_bound(message: Seq<char>) -> nat {
    6 * utf8_len(message) + 256
}

proof fn lemma_error_value(message: Seq<char>)
    ensures
        error_value(message).is_flat(),
        flat_bound(error_value(message)) + 84 <= error_frame_bound(message),
{
    reveal_strlit("type");
    reveal_strlit("message");
    reveal_strlit("error");
    lemma_utf8_len_most("error"@);
    let members = error_value(message)->Object_0;
    assert("type"@.len() != "message"@.len());
    assert(plain_key("type"@));
    assert(plain_key("message"@));
    assert(members.dom() =~= set!["type"@, "message"@]);
    let first = members.dom().choose();
    assert(members.dom().contains("type"@));
    assert(members.dom().contains(first));
    let rest = members.remove(first);
    let second = if first == "type"@ {
        "message"@
    } else {
        "type"@
    };
    assert(rest.dom() =~= set![second]);
    assert(rest.dom().contains(second));
    assert(rest.dom().contains(rest.dom().choose()));
    assert(rest.dom().choose() == second);
    assert(rest.remove(second).dom() =~= Set::empty());
    assert(members_bound(rest.remove(second)) == 0);
    reveal_with_fuel(members_bound, 3);
}

/// The frame that reports an error: an `event:` line, the `data:` line, and a
/// blank line to dispatch it. A decoder reads the error value back from it, and
/// accepts it in one piece, but for a message of many thousand characters.
pub fn sse_error(message: &str) -> (r: String)
    ensures
        r@ == "event: error\ndata: "@ + json_text(error_value(message@)) + "\n\n"@,
        decodes_to(r@, seq![json_text(error_value(message@))]),
        reads_as(json_text(error_value(message@)), error_value(message@)),
        utf8_len(r@) <= error_frame_bound(message@),
        error_frame_bound(message@) <= MAX_PENDING ==> pushed(fresh(), encode_utf8(r@)) == (
        Decoded { state: fresh(), events: seq![json_text(error_value(message@))], fault: None }),
{
    proof {
        lemma_error_value(message@);
    }
    let value = error_json(message);
    let text = value.text();
    let mut out = "event: error\ndata: ".to_owned();
    out.append(text.as_str());
    out.append("\n\n");
    proof {
        reveal_strlit("event: error\ndata: ");
        reveal_strlit("event: error");
        reveal_strlit("data: ");
        reveal_strlit("data:");
        let none = Seq::<Seq<char>>::empty();
        let payload = text@;
        let line = "event: error"@;
        lemma_printable_fits(payload);
        lemma_event_frame(payload);
        assert("event: error\ndata: "@ =~= line + seq!['\n'] + "data: "@);
        assert(out@ =~= (line + seq!['\n']) + event_frame(payload));
        lemma_encode_concat(line + seq!['\n'], event_frame(payload));
        lemma_scan_line(line, encode_utf8(event_frame(payload)), none);
        assert(line.subrange(0, 5)[0] == 'e');
        assert("data:"@[0] == 'd');
        assert(after_line(none, line) == (none, none));
        assert(none + seq![payload] =~= seq![payload]);
        let head = "event: error\ndata: "@;
        reveal_strlit("\n\n");
        lemma_utf8_len_most(head);
        lemma_utf8_len_most("\n\n"@);
        lemma_encode_concat(head + payload, "\n\n"@);
        lemma_encode_concat(head, payload);
        assert(fresh().pending + encode_utf8(out@) =~= encode_utf8(out@));
    }
    out
}

/// The frame of an event. A decoder reads the value's text back from it.
pub fn sse_event(value: &Json) -> (r: String)
    ensures
        r@ == event_frame(json_text(value@)),
        decodes_to(r@, seq![json_text(value@)]),
        value@.is_flat() ==> reads_as(json_text(value@), value@),
{
    let text = value.text();
    let mut out = "data: ".to_owned();
    out.append(text.as_str());
    out.append("\n\n");
    proof {
        lemma_printable_fits(text@);
        lemma_event_frame(text@);
    }
    out
}

/// The keep-alive comment that the server sends on an idle stream.
pub fn sse_ping() -> (r: String)
    ensures
        r@ == ": ping\n\n"@,
        decodes_to(r@, Seq::empty()),
{
    proof {
        reveal_strlit(": ping\n\n");
        let comment = seq![' ', 'p', 'i', 'n', 'g'];
        law_comment_is_silent(comment);
        assert(": ping\n\n"@ =~= seq![':'] + comment + seq!['\n', '\n']);
    }
    ": ping\n\n".to_owned()
}

/// The lines of an event are joined by line feeds, all of them and in order.
pub proof fn law_lines_are_joined(a: Seq<Seq<char>>, b: Seq<Seq<char>>, line: Seq<char>)
    requires
        a.len() > 0,
        b.len() > 0,
    ensures
        joined(a + b) == joined(a) + seq!['\n'] + joined(b),
        joined(seq![line]) == line,
    decreases b.len(),
{
    if b.len() == 1 {
        assert((a + b).drop_last() =~= a);
    } else {
        law_lines_are_joined(a, b.drop_last(), line);
        assert((a + b).drop_last() =~= a + b.drop_last());
        assert((joined(a) + seq!['\n'] + joined(b.drop_last())) + seq!['\n'] + b.last() =~= joined(a)
            + seq!['\n'] + joined(b));
    }
}

/// A chunk is too long exactly if it and what waits have more than two
/// mebibytes together; nothing of it is lost or read then.
pub proof fn law_when_a_chunk_is_too_long(state: SseView, bytes: Seq<u8>)
    ensures
        pushed(state, bytes).fault == Some(SseFault::TooLong) <==> state.pending.len() + bytes.len()
            > 2 * 1024 * 1024,
        pushed(state, bytes).fault == Some(SseFault::TooLong) ==> pushed(state, bytes).state
            == (SseView { pending: state.pending + bytes, lines: state.lines }),
{
    lemma_scan_is_never_too_long(state.pending + bytes, state.lines);
}

proof fn lemma_scan_is_never_too_long(bytes: Seq<u8>, lines: Seq<Seq<char>>)
    ensures
        scan(bytes, lines).fault != Some(SseFault::TooLong),
    decreases bytes.len(),
{
    lemma_first_index(bytes, 10u8);
    let end = first_index(bytes, 10u8);
    if end < bytes.len() && valid_utf8(bytes.take(end)) {
        let step = after_line(lines, drop_trailing(decode_utf8(bytes.take(end)), '\r'));
        lemma_scan_is_never_too_long(bytes.skip(end + 1), step.0);
    }
}

/// Carriage returns.
pub open spec fn carriage_returns(k: nat) -> Seq<char> {
    Seq::new(k, |i: int| '\r')
}

proof fn lemma_returns_drop(line: Seq<char>, k: nat)
    requires
        line.len() > 0 ==> line.last() != '\r',
    ensures
        drop_trailing(line + carriage_returns(k), '\r') == line,
    decreases k,
{
    if k == 0 {
        assert(line + carriage_returns(k) =~= line);
    } else {
        lemma_returns_drop(line, (k - 1) as nat);
        assert((line + carriage_returns(k)).drop_last() =~= line + carriage_returns((k - 1) as nat));
    }
}

proof fn lemma_scan_any_line(line: Seq<char>, rest: Seq<u8>, lines: Seq<Seq<char>>)
    requires
        forall|i: int| 0 <= i < line.len() ==> #[trigger] line[i] != '\n',
    ensures
        ({
            let whole = scan(encode_utf8(line + seq!['\n']) + rest, lines);
            let step = after_line(lines, drop_trailing(line, '\r'));
            let tail = scan(rest, step.0);
            &&& whole.state == tail.state
            &&& whole.fault == tail.fault
            &&& whole.events == step.1 + tail.events
        }),
{
    let head = encode_utf8(line);
    let bytes = encode_utf8(line + seq!['\n']) + rest;
    lemma_encode_concat(line, seq!['\n']);
    lemma_encode_one('\n');
    assert((10u32 & 0x7F) as u8 == 10u8) by (bit_vector);
    assert(encode_utf8(seq!['\n']) =~= seq![10u8]);
    assert forall|i: int| 0 <= i < line.len() implies #[trigger] line[i] as u32 != 10u8 as u32 by {
        assert(line[i] != '\n');
        lemma_char_value(line[i], '\n');
    }
    lemma_encode_ascii_free(line, 10u8);
    assert forall|i: int| 0 <= i < head.len() implies #[trigger] bytes[i] != 10u8 by {
        assert(bytes[i] == head[i]);
    }
    assert(bytes[head.len() as int] == 10u8);
    lemma_first_index_is(bytes, 10u8, head.len() as int);
    assert(bytes.take(head.len() as int) =~= head);
    assert(bytes.skip(head.len() as int + 1) =~= rest);
    encode_utf8_valid_utf8(line);
    encode_utf8_decode_utf8(line);
}

/// What a line does, with carriage returns at its end or without: a blank line
/// completes the event that has data; a `data:` line adds its value, without
/// one space in front of it; any other line does nothing. What follows is read
/// as if the line had not been there.
pub proof fn law_what_a_line_does(
    line: Seq<char>,
    k: nat,
    rest: Seq<u8>,
    lines: Seq<Seq<char>>,
    value: Seq<char>,
)
    requires
        fits_line(line),
    ensures
        ({
            let whole = scan(encode_utf8(line + carriage_returns(k) + seq!['\n']) + rest, lines);
            let none = Seq::<Seq<char>>::empty();
            &&& line.len() == 0 && lines.len() > 0 ==> {
                let tail = scan(rest, none);
                whole.events == seq![joined(lines)] + tail.events && whole.state == tail.state
                    && whole.fault == tail.fault
            }
            &&& line.len() == 0 && lines.len() == 0 ==> whole == scan(rest, none)
            &&& line == "data: "@ + value ==> whole == scan(rest, lines.push(value))
            &&& line == "data:"@ + value && (value.len() == 0 || value[0] != ' ') ==> whole == scan(
                rest,
                lines.push(value),
            )
            &&& line.len() > 0 && !"data:"@.is_prefix_of(line) ==> whole == scan(rest, lines)
        }),
{
    let text = line + carriage_returns(k);
    let none = Seq::<Seq<char>>::empty();
    lemma_returns_drop(line, k);
    assert forall|i: int| 0 <= i < text.len() implies #[trigger] text[i] != '\n' by {
        if i < line.len() {
            assert(line[i] != '\n');
        }
    }
    lemma_scan_any_line(text, rest, lines);
    let whole = scan(encode_utf8(text + seq!['\n']) + rest, lines);
    let step = after_line(lines, line);
    assert(none + scan(rest, step.0).events =~= scan(rest, step.0).events);
    reveal_strlit("data: ");
    reveal_strlit("data:");
    if line == "data: "@ + value {
        assert(line.subrange(0, 5) =~= "data:"@);
        assert(line.skip(5) =~= seq![' '] + value);
        assert((seq![' '] + value).skip(1) =~= value);
    }
    if line == "data:"@ + value {
        assert(line.subrange(0, 5) =~= "data:"@);
        assert(line.skip(5) =~= value);
    }
    if line.len() == 0 && lines.len() == 0 {
        assert(lines =~= none);
    }
}

/// A complete line that is no UTF-8 is a fault; what follows it stays.
pub proof fn law_bad_line_is_a_fault(raw: Seq<u8>, rest: Seq<u8>, lines: Seq<Seq<char>>)
    requires
        !raw.contains(10u8),
        !valid_utf8(raw),
    ensures
        scan(raw.push(10u8) + rest, lines).fault == Some(SseFault::NotUtf8),
        scan(raw.push(10u8) + rest, lines).state == (SseView { pending: rest, lines }),
{
    let bytes = raw.push(10u8) + rest;
    assert forall|i: int| 0 <= i < raw.len() implies #[trigger] bytes[i] != 10u8 by {
        assert(bytes[i] == raw[i]);
        assert(raw.contains(raw[i]));
    }
    lemma_first_index_is(bytes, 10u8, raw.len() as int);
    assert(bytes.take(raw.len() as int) =~= raw);
    assert(bytes.skip(raw.len() as int + 1) =~= rest);
}

} // verus!
