//! From streamed fragments to readable tap lines: text is collected into
//! sentences, and protocol noise is left out.

use vstd::prelude::*;
use std::time::Instant;
use crate::clock::elapsed_ms;
use crate::clock::elapsed_reading;
use crate::events::{
    carries_answer, carries_reason, completes, completion_in, ends_reason, event_in,
    lemma_event_kinds, reason_in, reasons_in,
};
use crate::json::Json;
use crate::json::{items_view, json_parsed, json_text, JsonView};
use crate::sse::SseDecoder;
use crate::sse::{pushed, texts};
use crate::text::{
    byte_len, chars_of, decimal_text, is_blank, same, split_at, trimmed, trimmed_start,
};
use crate::text::{all_space, decimal, is_space, lemma_utf8_len_monotone, lemma_utf8_len_step, trim, trim_end, trim_start, utf8_len};

verus! {

/// The length in bytes from which a fragment without a sentence is cut.
pub const LONG_FRAGMENT: usize = 160;

/// The characters among which a space is sought to cut a fragment.
pub const CUT_WINDOW: usize = 160;

/// Whether the character at `i` ends a sentence: punctuation, followed by
/// whitespace or by the end of the text (so that the point of "3.5" does not).
pub open spec fn ends_sentence(s: Seq<char>, i: int) -> bool {
    &&& 0 <= i < s.len()
    &&& s[i] == '.' || s[i] == '!' || s[i] == '?'
    &&& i + 1 == s.len() || is_space(s[i + 1])
}

/// The number of characters up to the first sentence end at or after `from`.
pub open spec fn sentence_chars(s: Seq<char>, from: int) -> Option<int>
    decreases s.len() - from,
{
    if from < 0 || s.len() <= from {
        None
    } else if ends_sentence(s, from) {
        Some(from + 1)
    } else {
        sentence_chars(s, from + 1)
    }
}

/// [`sentence_chars`] finds the first sentence end and no other.
pub proof fn lemma_sentence_chars(s: Seq<char>, from: int)
    requires
        0 <= from,
    ensures
        match sentence_chars(s, from) {
            Some(k) => from < k <= s.len() && ends_sentence(s, k - 1) && forall|i: int|
                from <= i < k - 1 ==> !#[trigger] ends_sentence(s, i),
            None => forall|i: int| from <= i < s.len() ==> !#[trigger] ends_sentence(s, i),
        },
    decreases s.len() - from,
{
    if from < s.len() && !ends_sentence(s, from) {
        lemma_sentence_chars(s, from + 1);
    }
}

/// Byte index where a sentence completes: punctuation followed by whitespace
/// or end of buffer.
pub fn sentence_end(buf: &str) -> (r: Option<usize>)
    ensures
        match r {
            Some(end) => sentence_chars(buf@, 0) matches Some(k) && end == utf8_len(buf@.take(k)),
            None => sentence_chars(buf@, 0) is None,
        },
{
    let chars = chars_of(buf);
    let size: usize = byte_len(buf);
    let n: usize = chars.len();
    let mut i: usize = 0;
    let mut at: usize = 0;
    assert(buf@.take(0) =~= Seq::empty());
    while i < n
        invariant
            chars@ == buf@,
            n == buf@.len(),
            size == utf8_len(buf@),
            i <= n,
            at == utf8_len(buf@.take(i as int)),
            sentence_chars(buf@, 0) == sentence_chars(buf@, i as int),
        decreases n - i,
    {
        let c = chars[i];
        proof {
            lemma_utf8_len_step(buf@, i as int);
            lemma_utf8_len_monotone(buf@, i + 1, i + 1);
        }
        at = at + c.len_utf8();
        if (c == '.' || c == '!' || c == '?') && (i + 1 == n || chars[i + 1].is_whitespace()) {
            assert(ends_sentence(buf@, i as int));
            return Some(at);
        }
        assert(!ends_sentence(buf@, i as int));
        i = i + 1;
    }
    None
}

/// The number of characters up to and with the last space among the first `k`;
/// zero where there is none.
pub open spec fn space_chars(s: Seq<char>, k: int) -> int
    decreases k,
{
    if k <= 0 {
        0
    } else if s[k - 1] == ' ' {
        k
    } else {
        space_chars(s, k - 1)
    }
}

/// Where a long fragment is cut, in characters: after the last space within
/// the window, or at the window's end.
pub open spec fn soft_chars(s: Seq<char>) -> int {
    let cap = if s.len() < CUT_WINDOW {
        s.len() as int
    } else {
        CUT_WINDOW as int
    };
    if space_chars(s, cap) > 0 {
        space_chars(s, cap)
    } else {
        cap
    }
}

proof fn lemma_space_chars(s: Seq<char>, k: int)
    requires
        0 <= k <= s.len(),
    ensures
        0 <= space_chars(s, k) <= k,
    decreases k,
{
    if k > 0 && s[k - 1] != ' ' {
        lemma_space_chars(s, k - 1);
    }
}

proof fn lemma_soft_chars(s: Seq<char>)
    requires
        s.len() > 0,
    ensures
        0 < soft_chars(s) <= s.len(),
{
    if s.len() < CUT_WINDOW {
        lemma_space_chars(s, s.len() as int);
    } else {
        lemma_space_chars(s, CUT_WINDOW as int);
    }
}

/// Soft cut for very long fragments, in bytes: after the last space within
/// [`CUT_WINDOW`] characters, else a hard cut at a character boundary. One for
/// an empty buffer.
pub fn soft_cut(buf: &str) -> (r: usize)
    ensures
        buf@.len() == 0 ==> r == 1,
        buf@.len() > 0 ==> r == utf8_len(buf@.take(soft_chars(buf@))),
{
    let chars = chars_of(buf);
    let size: usize = byte_len(buf);
    let n: usize = chars.len();
    if n == 0 {
        return 1;
    }
    let mut cap: usize = 0;
    let mut at: usize = 0;
    let mut space: usize = 0;
    let mut space_at: usize = 0;
    assert(buf@.take(0) =~= Seq::empty());
    while cap < n && cap < CUT_WINDOW
        invariant
            chars@ == buf@,
            n == buf@.len(),
            size == utf8_len(buf@),
            cap <= n,
            cap <= CUT_WINDOW,
            at == utf8_len(buf@.take(cap as int)),
            space <= cap,
            space == space_chars(buf@, cap as int),
            space_at == utf8_len(buf@.take(space as int)),
        decreases n - cap,
    {
        proof {
            lemma_utf8_len_step(buf@, cap as int);
            lemma_utf8_len_monotone(buf@, cap + 1, cap + 1);
        }
        let c = chars[cap];
        at = at + c.len_utf8();
        cap = cap + 1;
        if c == ' ' {
            space = cap;
            space_at = at;
        }
    }
    if space > 0 {
        space_at
    } else {
        at
    }
}

/// Where a buffer is cut, in characters: at its first sentence end; without
/// one, softly if it is long or is being emptied.
pub open spec fn cut_chars(s: Seq<char>, force: bool) -> Option<int> {
    match sentence_chars(s, 0) {
        Some(k) => Some(k),
        None => if force || utf8_len(s) >= LONG_FRAGMENT {
            Some(soft_chars(s))
        } else {
            None
        },
    }
}

pub proof fn lemma_cut_chars(s: Seq<char>, force: bool)
    requires
        s.len() > 0,
    ensures
        cut_chars(s, force) matches Some(k) ==> 0 < k <= s.len(),
{
    lemma_sentence_chars(s, 0);
    lemma_soft_chars(s);
}

pub proof fn lemma_trim_start_len(s: Seq<char>)
    ensures
        trim_start(s).len() <= s.len(),
    decreases s.len(),
{
    if s.len() > 0 && is_space(s[0]) {
        lemma_trim_start_len(s.drop_first());
    }
}

/// The lines that a buffer gives, and what is left of it. The buffer begins
/// with no whitespace; neither does what is left.
pub open spec fn flushed(s: Seq<char>, force: bool) -> (Seq<Seq<char>>, Seq<char>)
    decreases s.len(),
{
    proof {
        if s.len() > 0 {
            lemma_cut_chars(s, force);
            lemma_trim_start_len(s.skip(cut_chars(s, force)->0));
        }
    }
    if s.len() == 0 || cut_chars(s, force) is None {
        (Seq::empty(), s)
    } else {
        let k = cut_chars(s, force)->0;
        let line = trim(s.take(k));
        let rest = flushed(trim_start(s.skip(k)), force);
        (
            if line.len() == 0 {
                rest.0
            } else {
                seq![line] + rest.0
            },
            rest.1,
        )
    }
}

/// Lines with the mark of the model's side of the conversation.
pub open spec fn marked(lines: Seq<Seq<char>>) -> Seq<Seq<char>> {
    lines.map_values(|line: Seq<char>| "< "@ + line)
}

/// Removes complete sentences (or long fragments; everything, if forced) from
/// the buffer, as tap lines.
pub fn flush_tap_lines(buf: &mut String, force: bool) -> (r: Vec<String>)
    ensures
        texts(r@) == marked(flushed(trim_start(old(buf)@), force).0),
        final(buf)@ == flushed(trim_start(old(buf)@), force).1,
{
    let mut out: Vec<String> = Vec::new();
    let mut rest = trimmed_start(buf.as_str());
    let ghost whole = flushed(rest@, force);
    assert(texts(out@) + marked(whole.0) =~= marked(whole.0));
    loop
        invariant
            whole == flushed(trim_start(old(buf)@), force),
            marked(whole.0) == texts(out@) + marked(flushed(rest@, force).0),
            whole.1 == flushed(rest@, force).1,
        ensures
            marked(whole.0) == texts(out@),
            whole.1 == rest@,
        decreases rest@.len(),
    {
        if rest.as_str().is_empty() {
            assert(texts(out@) + marked(Seq::empty()) =~= texts(out@));
            break;
        }
        let ghost s = rest@;
        proof {
            lemma_cut_chars(s, force);
            lemma_soft_chars(s);
            lemma_sentence_chars(s, 0);
        }
        let end: usize = match sentence_end(rest.as_str()) {
            Some(end) => end,
            None => {
                if !force && byte_len(rest.as_str()) < LONG_FRAGMENT {
                    assert(texts(out@) + marked(Seq::empty()) =~= texts(out@));
                    break;
                }
                soft_cut(rest.as_str())
            },
        };
        let ghost k = cut_chars(s, force)->0;
        let parts = split_at(rest.as_str(), end, Ghost(k));
        let line = trimmed(parts.0);
        let tail = trimmed_start(parts.1);
        let ghost before = texts(out@);
        let ghost next = flushed(tail@, force);
        if !line.as_str().is_empty() {
            let mut shown_line = "< ".to_owned();
            shown_line.append(line.as_str());
            out.push(shown_line);
            assert(texts(out@) =~= before.push("< "@ + line@));
            assert(marked(seq![line@] + next.0) =~= seq!["< "@ + line@] + marked(next.0));
            assert(before + (seq!["< "@ + line@] + marked(next.0)) =~= texts(out@) + marked(
                next.0,
            ));
        }
        proof {
            lemma_trim_start_len(s.skip(k));
        }
        rest = tail;
    }
    *buf = rest;
    out
}

/// A text without its whitespace.
pub open spec fn visible(s: Seq<char>) -> Seq<char>
    decreases s.len(),
{
    if s.len() == 0 {
        Seq::empty()
    } else if is_space(s.last()) {
        visible(s.drop_last())
    } else {
        visible(s.drop_last()).push(s.last())
    }
}

proof fn lemma_visible_concat(a: Seq<char>, b: Seq<char>)
    ensures
        visible(a + b) == visible(a) + visible(b),
    decreases b.len(),
{
    if b.len() == 0 {
        assert(a + b =~= a);
        assert(visible(a) + visible(b) =~= visible(a));
    } else {
        lemma_visible_concat(a, b.drop_last());
        assert((a + b).drop_last() =~= a + b.drop_last());
        assert((a + b).last() == b.last());
        assert(visible(a + b) =~= visible(a) + visible(b));
    }
}

proof fn lemma_visible_trim_start(s: Seq<char>)
    ensures
        visible(trim_start(s)) == visible(s),
    decreases s.len(),
{
    if s.len() > 0 && is_space(s[0]) {
        lemma_visible_trim_start(s.drop_first());
        assert(s =~= seq![s[0]] + s.drop_first());
        lemma_visible_concat(seq![s[0]], s.drop_first());
        assert(visible(seq![s[0]]) =~= Seq::empty()) by {
            reveal_with_fuel(visible, 2);
            assert(seq![s[0]].drop_last() =~= Seq::empty());
        }
        assert(visible(s) =~= visible(s.drop_first()));
    }
}

proof fn lemma_visible_trim_end(s: Seq<char>)
    ensures
        visible(trim_end(s)) == visible(s),
    decreases s.len(),
{
    if s.len() > 0 && is_space(s.last()) {
        lemma_visible_trim_end(s.drop_last());
    }
}

/// Turning a buffer into lines loses no text: apart from whitespace, the lines
/// and what is left of the buffer hold the characters of the buffer, in order.
pub proof fn law_flush_keeps_the_text(s: Seq<char>, force: bool)
    ensures
        visible(s) == visible(flushed(trim_start(s), force).0.flatten()) + visible(
            flushed(trim_start(s), force).1,
        ),
{
    lemma_visible_trim_start(s);
    lemma_flush_keeps_the_text(trim_start(s), force);
}

proof fn lemma_flush_keeps_the_text(s: Seq<char>, force: bool)
    ensures
        visible(s) == visible(flushed(s, force).0.flatten()) + visible(flushed(s, force).1),
    decreases s.len(),
{
    if s.len() == 0 || cut_chars(s, force) is None {
        assert(flushed(s, force).0.flatten() =~= Seq::empty());
        assert(visible(s) =~= visible(Seq::empty()) + visible(s));
    } else {
        lemma_cut_chars(s, force);
        let k = cut_chars(s, force)->0;
        let line = trim(s.take(k));
        let tail = trim_start(s.skip(k));
        lemma_trim_start_len(s.skip(k));
        lemma_flush_keeps_the_text(tail, force);
        let rest = flushed(tail, force);
        assert(s =~= s.take(k) + s.skip(k));
        lemma_visible_concat(s.take(k), s.skip(k));
        lemma_visible_trim_start(s.take(k));
        lemma_visible_trim_end(trim_start(s.take(k)));
        lemma_visible_trim_start(s.skip(k));
        if line.len() == 0 {
            assert(visible(line) =~= Seq::empty());
            assert(visible(s) =~= visible(tail));
        } else {
            let lines = seq![line] + rest.0;
            assert(lines.drop_first() =~= rest.0);
            assert(lines.flatten() == line + rest.0.flatten());
            lemma_visible_concat(line, rest.0.flatten());
            assert(visible(s) =~= (visible(line) + visible(rest.0.flatten())) + visible(rest.1));
        }
    }
}

/// A forced flush empties the buffer.
pub proof fn law_forced_flush_empties(s: Seq<char>)
    ensures
        flushed(s, true).1.len() == 0,
    decreases s.len(),
{
    if s.len() > 0 {
        lemma_cut_chars(s, true);
        lemma_trim_start_len(s.skip(cut_chars(s, true)->0));
        law_forced_flush_empties(trim_start(s.skip(cut_chars(s, true)->0)));
    }
}

/// What a flush leaves in the buffer holds no complete sentence and is short.
pub proof fn law_flush_leaves_a_short_fragment(s: Seq<char>)
    ensures
        flushed(s, false).1.len() == 0 || (utf8_len(flushed(s, false).1) < LONG_FRAGMENT && forall|
            i: int,
        |
            !#[trigger] ends_sentence(flushed(s, false).1, i)),
    decreases s.len(),
{
    if s.len() > 0 {
        lemma_cut_chars(s, false);
        lemma_sentence_chars(s, 0);
        if cut_chars(s, false) is Some {
            lemma_trim_start_len(s.skip(cut_chars(s, false)->0));
            law_flush_leaves_a_short_fragment(trim_start(s.skip(cut_chars(s, false)->0)));
        }
    }
}

/// The one-liner for an event that is neither text nor the end of a response.
pub open spec fn event_line(event: JsonView) -> Option<Seq<char>> {
    match event.field_text("type"@) {
        None => None,
        Some(kind) => if kind == "response.created"@ {
            match event.field("response"@) {
                None => None,
                Some(response) => match response.field("model"@) {
                    None => None,
                    Some(model) => Some("· "@ + model.text_or("AI"@) + " thinking…"@),
                },
            }
        } else if kind == "response.incomplete"@ {
            Some("! stopped early (output limit)"@)
        } else if kind == "response.failed"@ {
            Some("! model run failed"@)
        } else if kind == "error"@ {
            Some("! "@ + event.at("message"@).text_or("stream failed"@))
        } else {
            None
        },
    }
}

/// Human-readable one-liner for a streamed event. Protocol noise (item
/// bookkeeping, empty frames, raw text deltas) renders to nothing: text is
/// collected into sentences elsewhere.
pub fn render_tap_event(value: &Json) -> (r: Option<String>)
    ensures
        match r {
            Some(line) => event_line(value@) == Some(line@),
            None => event_line(value@) is None,
        },
{
    let kind = match value.get_str("type") {
        Some(kind) => kind,
        None => return None,
    };
    if same(kind, "response.created") {
        let response = match value.get("response") {
            Some(response) => response,
            None => return None,
        };
        let model = match response.get("model") {
            Some(model) => model,
            None => return None,
        };
        let name = match model.as_str() {
            Some(name) => name,
            None => "AI",
        };
        let mut out = "· ".to_owned();
        out.append(name);
        out.append(" thinking…");
        Some(out)
    } else if same(kind, "response.incomplete") {
        Some("! stopped early (output limit)".to_owned())
    } else if same(kind, "response.failed") {
        Some("! model run failed".to_owned())
    } else if same(kind, "error") {
        let message = match value.get_str("message") {
            Some(message) => message,
            None => "stream failed",
        };
        let mut out = "! ".to_owned();
        out.append(message);
        Some(out)
    } else {
        None
    }
}

/// Tap state for one upstream stream: fragments accumulate and flush as
/// readable sentence lines instead of one line per word.
pub struct TapFeed {
    answer: String,
    reason: String,
    first_text: bool,
    received: Instant,
}

/// What a [`TapFeed`] holds, but for its clock.
pub struct FeedView {
    pub answer: Seq<char>,
    pub reason: Seq<char>,
    pub first_text: bool,
}

/// What is known of one model response while it streams: the tap state, its
/// output items, and whether it is complete.
pub struct RoundView {
    pub feed: FeedView,
    pub output: Seq<JsonView>,
    pub completed: bool,
}

/// A tap state that has seen nothing.
pub open spec fn quiet() -> FeedView {
    FeedView { answer: Seq::empty(), reason: Seq::empty(), first_text: false }
}

/// The line for a reasoning summary, if there is one to show.
pub open spec fn reason_lines(reason: Seq<char>) -> Seq<Seq<char>> {
    if trim(reason).len() == 0 {
        Seq::empty()
    } else {
        seq!["~ "@ + trim(reason)]
    }
}

/// The end of a response: what was collected is shown. Gives the lines and the
/// state after them.
pub open spec fn finished(feed: FeedView) -> (FeedView, Seq<Seq<char>>) {
    let cut = flushed(trim_start(feed.answer), true);
    (
        FeedView { answer: cut.1, reason: Seq::empty(), ..feed },
        marked(cut.0) + reason_lines(feed.reason),
    )
}

/// A token count as the tap shows it.
pub open spec fn count_text(usage: JsonView, key: Seq<char>) -> Seq<char> {
    match usage.field(key) {
        Some(count) => json_text(count),
        None => "?"@,
    }
}

/// The line that sums a response up.
pub open spec fn usage_line(usage: JsonView, ms: nat) -> Seq<char> {
    "✓ done · "@ + count_text(usage, "input_tokens"@) + " in / "@ + count_text(
        usage,
        "output_tokens"@,
    ) + " out · "@ + decimal(ms) + "ms server"@
}

/// Whether an event carries a piece of the answer.
pub open spec fn is_answer_delta(kind: Seq<char>) -> bool {
    kind == "response.output_text.delta"@ || kind == "response.refusal.delta"@
}

/// What one event does, `ms` after receipt: the state after it, and the lines
/// that it shows.
pub open spec fn on_event(round: RoundView, event: JsonView, ms: nat) -> (
    RoundView,
    Seq<Seq<char>>,
) {
    let feed = round.feed;
    let kind = event.field_text("type"@);
    let delta = event.field_text("delta"@);
    if kind matches Some(k) && is_answer_delta(k) {
        let first = if delta is Some && !feed.first_text {
            seq!["· first answer +"@ + decimal(ms) + "ms after receipt"@]
        } else {
            Seq::empty()
        };
        let answer = match delta {
            Some(d) => feed.answer + d,
            None => feed.answer,
        };
        let cut = flushed(trim_start(answer), false);
        (
            RoundView {
                feed: FeedView {
                    answer: cut.1,
                    first_text: feed.first_text || delta is Some,
                    ..feed
                },
                ..round
            },
            first + marked(cut.0),
        )
    } else if kind == Some("response.reasoning_summary_text.delta"@) {
        let reason = match delta {
            Some(d) => feed.reason + d,
            None => feed.reason,
        };
        (RoundView { feed: FeedView { reason, ..feed }, ..round }, Seq::empty())
    } else if kind == Some("response.reasoning_summary_text.done"@) {
        (
            RoundView { feed: FeedView { reason: Seq::empty(), ..feed }, ..round },
            reason_lines(feed.reason),
        )
    } else if kind == Some("response.completed"@) {
        let end = finished(feed);
        let response = event.at("response"@);
        (
            RoundView {
                feed: end.0,
                output: match response.at("output"@) {
                    JsonView::Array(items) => items,
                    _ => round.output,
                },
                completed: true,
            },
            match response.field("usage"@) {
                Some(usage) => end.1.push(usage_line(usage, ms)),
                None => end.1,
            },
        )
    } else {
        (
            round,
            match event_line(event) {
                Some(line) => if all_space(line) {
                    Seq::empty()
                } else {
                    seq!["< "@ + line]
                },
                None => Seq::empty(),
            },
        )
    }
}

/// What one payload does: the end marker and what is no JSON do nothing.
pub open spec fn on_payload(round: RoundView, data: Seq<char>, ms: nat) -> (
    RoundView,
    Seq<Seq<char>>,
) {
    if data == "[DONE]"@ {
        (round, Seq::empty())
    } else {
        match json_parsed(data) {
            Ok(event) => on_event(round, event, ms),
            Err(_) => (round, Seq::empty()),
        }
    }
}

/// What several payloads do, one after the other; the payload at `i` comes
/// `times[i]` milliseconds after receipt.
pub open spec fn on_payloads(round: RoundView, payloads: Seq<Seq<char>>, times: Seq<nat>) -> (
    RoundView,
    Seq<Seq<char>>,
)
    decreases payloads.len(),
{
    if payloads.len() == 0 {
        (round, Seq::empty())
    } else {
        let before = on_payloads(round, payloads.drop_last(), times);
        let step = on_payload(before.0, payloads.last(), times[payloads.len() - 1]);
        (step.0, before.1 + step.1)
    }
}

/// Later payloads' times do not matter to earlier payloads.
proof fn lemma_on_payloads_times(
    round: RoundView,
    payloads: Seq<Seq<char>>,
    times: Seq<nat>,
    more: Seq<nat>,
)
    requires
        payloads.len() <= times.len() <= more.len(),
        forall|i: int| 0 <= i < times.len() ==> times[i] == #[trigger] more[i],
    ensures
        on_payloads(round, payloads, times) == on_payloads(round, payloads, more),
    decreases payloads.len(),
{
    if payloads.len() > 0 {
        lemma_on_payloads_times(round, payloads.drop_last(), times, more);
        assert(times[payloads.len() - 1] == more[payloads.len() - 1]);
    }
}

/// The payloads that a chunk completes; none where the decoder refuses it.
pub open spec fn chunk_payloads(decoder: crate::sse::SseView, bytes: Seq<u8>) -> Seq<Seq<char>> {
    if pushed(decoder, bytes).fault is None {
        pushed(decoder, bytes).events
    } else {
        Seq::empty()
    }
}

impl View for TapFeed {
    type V = FeedView;

    closed spec fn view(&self) -> FeedView {
        FeedView { answer: self.answer@, reason: self.reason@, first_text: self.first_text }
    }
}

/// The line that introduces a reasoning summary, if there is one.
fn reason_line(reason: &str) -> (r: Option<String>)
    ensures
        match r {
            Some(line) => reason_lines(reason@) == seq![line@],
            None => reason_lines(reason@) == Seq::<Seq<char>>::empty(),
        },
{
    let text = trimmed(reason);
    if text.as_str().is_empty() {
        None
    } else {
        let mut out = "~ ".to_owned();
        out.append(text.as_str());
        Some(out)
    }
}

/// A token count as the tap shows it.
fn count_of(usage: &Json, key: &str) -> (r: String)
    ensures
        r@ == count_text(usage@, key@),
{
    match usage.get(key) {
        Some(count) => count.text(),
        None => "?".to_owned(),
    }
}

/// The lines of `more`, after those of `lines`.
fn extend_lines(lines: &mut Vec<String>, more: Vec<String>)
    ensures
        texts(final(lines)@) == texts(old(lines)@) + texts(more@),
{
    let mut more = more;
    let ghost a = lines@;
    let ghost b = more@;
    lines.append(&mut more);
    assert(texts(lines@) =~= texts(a) + texts(b));
}

impl TapFeed {
    /// The zero of the times that are shown.
    pub closed spec fn since(&self) -> Instant {
        self.received
    }

    /// Tap state for a stream that has shown nothing yet, with times counted
    /// from `received`.
    pub fn new(received: Instant) -> (r: TapFeed)
        ensures
            r@ == quiet(),
            r.since() == received,
    {
        TapFeed { answer: String::new(), reason: String::new(), first_text: false, received }
    }

    /// The zero of the times that are shown.
    pub fn received(&self) -> (r: Instant)
        ensures
            r == self.since(),
    {
        self.received
    }

    /// Shows what was collected of a response that ends here.
    pub fn finish(&mut self) -> (lines: Vec<String>)
        ensures
            final(self)@ == finished(old(self)@).0,
            texts(lines@) == finished(old(self)@).1,
            final(self).since() == old(self).since(),
    {
        let mut lines = flush_tap_lines(&mut self.answer, true);
        let ghost cut = texts(lines@);
        let reason = reason_line(self.reason.as_str());
        self.reason = String::new();
        match reason {
            Some(line) => {
                lines.push(line);
                assert(texts(lines@) =~= cut + seq![line@]);
            },
            None => {
                assert(cut + Seq::empty() =~= cut);
            },
        }
        lines
    }

    /// Takes one event in, `ms` after receipt.
    pub fn take_event(
        &mut self,
        event: &Json,
        output_items: &mut Vec<Json>,
        completed: &mut bool,
        ms: u128,
    ) -> (lines: Vec<String>)
        ensures
            ({
                let round = RoundView {
                    feed: old(self)@,
                    output: items_view(old(output_items)@),
                    completed: *old(completed),
                };
                let step = on_event(round, event@, ms as nat);
                &&& final(self)@ == step.0.feed
                &&& items_view(final(output_items)@) == step.0.output
                &&& *final(completed) == step.0.completed
                &&& texts(lines@) == step.1
            }),
            final(self).since() == old(self).since(),
    {
        let mut lines: Vec<String> = Vec::new();
        assert(texts(lines@) =~= Seq::empty());
        let kind = event.get_str("type");
        let delta = event.get_str("delta");
        let name = match kind {
            Some(name) => name,
            None => "",
        };
        if kind.is_some() && (same(name, "response.output_text.delta") || same(
            name,
            "response.refusal.delta",
        )) {
            let ghost feed0 = self@;
            if let Some(d) = delta {
                if !self.first_text {
                    self.first_text = true;
                    let mut line = "· first answer +".to_owned();
                    line.append(decimal_text(ms).as_str());
                    line.append("ms after receipt");
                    lines.push(line);
                    assert(texts(lines@) =~= seq![line@]);
                }
                self.answer.append(d);
            }
            let more = flush_tap_lines(&mut self.answer, false);
            extend_lines(&mut lines, more);
        } else if kind.is_some() && same(name, "response.reasoning_summary_text.delta") {
            if let Some(d) = delta {
                self.reason.append(d);
            }
        } else if kind.is_some() && same(name, "response.reasoning_summary_text.done") {
            let reason = reason_line(self.reason.as_str());
            self.reason = String::new();
            if let Some(line) = reason {
                lines.push(line);
                assert(texts(lines@) =~= seq![line@]);
            }
        } else if kind.is_some() && same(name, "response.completed") {
            lines = self.finish();
            let ghost end = texts(lines@);
            if let Some(response) = event.get("response") {
                if let Some(output) = response.get("output") {
                    if let Some(items) = output.as_array() {
                        *output_items = copy_items(items);
                    }
                }
                if let Some(usage) = response.get("usage") {
                    let mut line = "✓ done · ".to_owned();
                    line.append(count_of(usage, "input_tokens").as_str());
                    line.append(" in / ");
                    line.append(count_of(usage, "output_tokens").as_str());
                    line.append(" out · ");
                    line.append(decimal_text(ms).as_str());
                    line.append("ms server");
                    lines.push(line);
                    assert(texts(lines@) =~= end.push(line@));
                }
            }
            *completed = true;
        } else {
            if let Some(line) = render_tap_event(event) {
                if !is_blank(line.as_str()) {
                    let mut shown_line = "< ".to_owned();
                    shown_line.append(line.as_str());
                    lines.push(shown_line);
                    assert(texts(lines@) =~= seq!["< "@ + line@]);
                }
            }
        }
        lines
    }

    /// Takes one payload in, `ms` after receipt.
    pub fn take_payload(
        &mut self,
        data: &str,
        output_items: &mut Vec<Json>,
        completed: &mut bool,
        ms: u128,
    ) -> (lines: Vec<String>)
        ensures
            ({
                let round = RoundView {
                    feed: old(self)@,
                    output: items_view(old(output_items)@),
                    completed: *old(completed),
                };
                let step = on_payload(round, data@, ms as nat);
                &&& final(self)@ == step.0.feed
                &&& items_view(final(output_items)@) == step.0.output
                &&& *final(completed) == step.0.completed
                &&& texts(lines@) == step.1
            }),
            final(self).since() == old(self).since(),
    {
        if !same(data, "[DONE]") {
            if let Ok(event) = Json::parse(data) {
                return self.take_event(&event, output_items, completed, ms);
            }
        }
        let lines: Vec<String> = Vec::new();
        assert(texts(lines@) =~= Seq::empty());
        lines
    }

    /// Takes one chunk of the stream in. A chunk that the decoder refuses
    /// shows nothing. The times that are shown count from [`TapFeed::since`];
    /// how long that is, the clock decides.
    pub fn feed(
        &mut self,
        decoder: &mut SseDecoder,
        bytes: &[u8],
        output_items: &mut Vec<Json>,
        completed: &mut bool,
    ) -> (lines: Vec<String>)
        ensures
            final(decoder)@ == pushed(old(decoder)@, bytes@).state,
            fed_chunk(
                old(self).since(),
                RoundView {
                    feed: old(self)@,
                    output: items_view(old(output_items)@),
                    completed: *old(completed),
                },
                chunk_payloads(old(decoder)@, bytes@),
                RoundView {
                    feed: final(self)@,
                    output: items_view(final(output_items)@),
                    completed: *final(completed),
                },
                texts(lines@),
            ),
            final(self).since() == old(self).since(),
    {
        let mut lines: Vec<String> = Vec::new();
        assert(texts(lines@) =~= Seq::empty());
        let ghost round0 = RoundView {
            feed: self@,
            output: items_view(output_items@),
            completed: *completed,
        };
        let payloads = match decoder.push(bytes) {
            Ok(payloads) => payloads,
            Err(_) => {
                assert(fed_chunk_at(round0, Seq::empty(), Seq::empty(), round0, Seq::empty()));
                return lines;
            },
        };
        let ghost all = texts(payloads@);
        let ghost mut times: Seq<nat> = Seq::empty();
        let mut i: usize = 0;
        assert(all.take(0) =~= Seq::empty());
        while i < payloads.len()
            invariant
                i <= payloads@.len(),
                all == texts(payloads@),
                self.since() == old(self).since(),
                times.len() == i,
                all_readings(old(self).since(), times),
                on_payloads(round0, all.take(i as int), times) == (
                    RoundView {
                        feed: self@,
                        output: items_view(output_items@),
                        completed: *completed,
                    },
                    texts(lines@),
                ),
            decreases payloads@.len() - i,
        {
            assert(all.take(i + 1).drop_last() =~= all.take(i as int));
            assert(all.take(i + 1).last() == payloads@[i as int]@);
            let ms: u128 = elapsed_ms(&self.received);
            proof {
                lemma_on_payloads_times(round0, all.take(i as int), times, times.push(ms as nat));
                times = times.push(ms as nat);
            }
            let more = self.take_payload(payloads[i].as_str(), output_items, completed, ms);
            extend_lines(&mut lines, more);
            i = i + 1;
        }
        assert(all.take(i as int) =~= all);
        assert(fed_chunk_at(
            round0,
            all,
            times,
            RoundView { feed: self@, output: items_view(output_items@), completed: *completed },
            texts(lines@),
        ));
        lines
    }
}

/// Whether payloads that come at `times` turn `round` into `after`, and show
/// `lines`.
pub open spec fn fed_chunk_at(
    round: RoundView,
    payloads: Seq<Seq<char>>,
    times: Seq<nat>,
    after: RoundView,
    lines: Seq<Seq<char>>,
) -> bool {
    times.len() == payloads.len() && on_payloads(round, payloads, times) == (after, lines)
}

/// Whether the clock may read these times since `since`.
pub open spec fn all_readings(since: Instant, times: Seq<nat>) -> bool {
    forall|i: int| 0 <= i < times.len() ==> elapsed_reading(since, #[trigger] times[i])
}

/// The same, at some times since `since`: which, only the clock knows.
pub open spec fn fed_chunk(
    since: Instant,
    round: RoundView,
    payloads: Seq<Seq<char>>,
    after: RoundView,
    lines: Seq<Seq<char>>,
) -> bool {
    exists|times: Seq<nat>|
        all_readings(since, times) && #[trigger] fed_chunk_at(round, payloads, times, after, lines)
}

/// Items equal to these.
pub fn copy_items(items: &Vec<Json>) -> (r: Vec<Json>)
    ensures
        items_view(r@) == items_view(items@),
{
    let mut out: Vec<Json> = Vec::new();
    let mut i: usize = 0;
    while i < items.len()
        invariant
            i <= items@.len(),
            items_view(out@) == items_view(items@).take(i as int),
        decreases items@.len() - i,
    {
        let ghost before = items_view(out@);
        let item = items[i].clone();
        out.push(item);
        assert(items_view(out@) =~= before.push(item@));
        assert(items_view(items@).take(i + 1) =~= items_view(items@).take(i as int).push(
            items@[i as int]@,
        ));
        i = i + 1;
    }
    assert(items_view(items@).take(i as int) =~= items_view(items@));
    out
}

/// The lines of the model's side, with their mark.
pub open spec fn answer_lines(lines: Seq<Seq<char>>) -> Seq<Seq<char>> {
    lines.map_values(|line: Seq<char>| "< "@ + line)
}

/// Kinds of events as [`on_event`] tells them.
proof fn lemma_kind(event: JsonView, kind: Seq<char>)
    ensures
        event.field_text("type"@) == Some(kind) <==> event.at("type"@) == JsonView::Str(kind),
{
}

/// A piece of the answer loses nothing: apart from whitespace, the lines that
/// it makes show, and what waits after it, are what waited before and the
/// piece. The first piece of all is announced, once. Nothing else changes.
pub proof fn law_answer_delta_is_shown(
    round: RoundView,
    event: JsonView,
    d: Seq<char>,
    ms: nat,
) -> (cut: Seq<Seq<char>>)
    requires
        carries_answer(event),
        event.at("delta"@) == JsonView::Str(d),
    ensures
        ({
            let step = on_event(round, event, ms);
            let after = step.0;
            &&& step.1 == (if round.feed.first_text {
                Seq::empty()
            } else {
                seq!["· first answer +"@ + decimal(ms) + "ms after receipt"@]
            }) + answer_lines(cut)
            &&& visible(round.feed.answer) + visible(d) == visible(cut.flatten()) + visible(
                after.feed.answer,
            )
            &&& after.feed.first_text
            &&& after.feed.reason == round.feed.reason
            &&& after.output == round.output
            &&& after.completed == round.completed
        }),
{
    lemma_event_kinds();
    lemma_kind(event, "response.output_text.delta"@);
    lemma_kind(event, "response.refusal.delta"@);
    let answer = round.feed.answer + d;
    let flush = flushed(trim_start(answer), false);
    lemma_visible_concat(round.feed.answer, d);
    law_flush_keeps_the_text(answer, false);
    assert(answer_lines(flush.0) =~= marked(flush.0));
    flush.0
}

/// What a buffer shows: each line is a sentence, or the beginning of a fragment
/// without one; it is not blank, has no whitespace at either end, and no
/// sentence ends before the line does.
pub proof fn law_lines_are_sentences(s: Seq<char>, force: bool, i: int)
    requires
        0 <= i < flushed(trim_start(s), force).0.len(),
    ensures
        ({
            let line = flushed(trim_start(s), force).0[i];
            &&& line.len() > 0
            &&& !is_space(line[0])
            &&& !is_space(line.last())
            &&& forall|j: int| #[trigger] ends_sentence(line, j) ==> j == line.len() - 1
            &&& !ends_sentence(line, line.len() - 1) ==> line.len() <= 160
        }),
{
    lemma_trim_start_shows(s);
    lemma_lines_are_sentences(trim_start(s), force, i);
}

/// What is left at the front after trimming shows.
proof fn lemma_trim_start_shows(s: Seq<char>)
    ensures
        trim_start(s).len() > 0 ==> !is_space(trim_start(s)[0]),
    decreases s.len(),
{
    if s.len() > 0 && is_space(s[0]) {
        lemma_trim_start_shows(s.drop_first());
    }
}

/// Trimming at the end leaves a beginning.
proof fn lemma_trim_end_prefix(s: Seq<char>)
    ensures
        trim_end(s).len() <= s.len(),
        trim_end(s) == s.take(trim_end(s).len() as int),
        trim_end(s).len() > 0 ==> !is_space(trim_end(s).last()),
        all_space(s.skip(trim_end(s).len() as int)),
    decreases s.len(),
{
    if s.len() > 0 && is_space(s.last()) {
        let rest = s.drop_last();
        lemma_trim_end_prefix(rest);
        let k = trim_end(rest).len() as int;
        assert(rest.take(k) =~= s.take(k));
        assert forall|i: int| 0 <= i < s.skip(k).len() implies is_space(#[trigger] s.skip(k)[i]) by {
            if i + k < rest.len() {
                assert(s.skip(k)[i] == rest.skip(k)[i]);
            }
        }
    } else {
        assert(s.take(s.len() as int) =~= s);
        assert(s.skip(s.len() as int) =~= Seq::empty());
    }
}

proof fn lemma_lines_are_sentences(s: Seq<char>, force: bool, i: int)
    requires
        s.len() > 0 ==> !is_space(s[0]),
        0 <= i < flushed(s, force).0.len(),
    ensures
        ({
            let line = flushed(s, force).0[i];
            &&& line.len() > 0
            &&& !is_space(line[0])
            &&& !is_space(line.last())
            &&& forall|j: int| #[trigger] ends_sentence(line, j) ==> j == line.len() - 1
            &&& !ends_sentence(line, line.len() - 1) ==> line.len() <= 160
        }),
    decreases s.len(),
{
    lemma_cut_chars(s, force);
    lemma_sentence_chars(s, 0);
    lemma_soft_chars(s);
    let k = cut_chars(s, force)->0;
    let head = s.take(k);
    let line = trim(head);
    let tail = trim_start(s.skip(k));
    lemma_trim_start_len(s.skip(k));
    lemma_trim_start_shows(s.skip(k));
    let rest = flushed(tail, force);
    assert(trim_start(head) == head) by {
        assert(head[0] == s[0]);
    }
    lemma_trim_end_prefix(head);
    assert(line.len() > 0) by {
        if line.len() == 0 {
            assert(head.skip(0) =~= head);
            assert(is_space(head[0]));
        }
    }
    if i == 0 {
        assert(line == flushed(s, force).0[0]);
        assert(line[0] == s[0]);
        assert forall|j: int| #[trigger] ends_sentence(line, j) implies j == line.len() - 1 by {
            if j < line.len() - 1 {
                assert(line[j] == s[j]);
                assert(line[j + 1] == s[j + 1]);
                assert(ends_sentence(s, j));
            }
        }
        if sentence_chars(s, 0) is Some {
            assert(ends_sentence(s, k - 1));
            assert(head.last() == s[k - 1]);
            assert(trim_end(head) == head);
            assert(ends_sentence(line, line.len() - 1));
        } else {
            law_soft_cut_is_after_the_last_space(s);
        }
    } else {
        lemma_lines_are_sentences(tail, force, i - 1);
        assert(flushed(s, force).0[i] == rest.0[i - 1]);
    }
}

/// A soft cut stays within 160 characters, and comes right after the last space
/// among them, if there is one; without one it takes them all.
pub proof fn law_soft_cut_is_after_the_last_space(s: Seq<char>)
    requires
        s.len() > 0,
    ensures
        ({
            let k = soft_chars(s);
            let window = if s.len() < 160 {
                s.len() as int
            } else {
                160
            };
            &&& 0 < k <= window
            &&& forall|i: int| k <= i < window ==> #[trigger] s[i] != ' '
            &&& k < window ==> s[k - 1] == ' '
        }),
{
    let window = if s.len() < 160 {
        s.len() as int
    } else {
        160
    };
    lemma_last_space(s, window);
}

proof fn lemma_last_space(s: Seq<char>, k: int)
    requires
        0 <= k <= s.len(),
    ensures
        0 <= space_chars(s, k) <= k,
        space_chars(s, k) > 0 ==> s[space_chars(s, k) - 1] == ' ',
        forall|i: int| space_chars(s, k) <= i < k ==> #[trigger] s[i] != ' ',
    decreases k,
{
    if k > 0 && s[k - 1] != ' ' {
        lemma_last_space(s, k - 1);
    }
}

/// A sentence ends at the first punctuation mark that whitespace or the end of
/// the text follows.
pub proof fn law_first_sentence_end(s: Seq<char>)
    ensures
        match sentence_chars(s, 0) {
            Some(k) => 0 < k <= s.len() && (s[k - 1] == '.' || s[k - 1] == '!' || s[k - 1] == '?')
                && (k == s.len() || is_space(s[k])) && forall|i: int|
                0 <= i < k - 1 ==> !((#[trigger] s[i] == '.' || s[i] == '!' || s[i] == '?')
                    && is_space(s[i + 1])),
            None => forall|i: int|
                0 <= i < s.len() ==> !((#[trigger] s[i] == '.' || s[i] == '!' || s[i] == '?') && (i
                    + 1 == s.len() || is_space(s[i + 1]))),
        },
{
    lemma_sentence_chars(s, 0);
    match sentence_chars(s, 0) {
        Some(k) => {
            assert(ends_sentence(s, k - 1));
            assert forall|i: int| 0 <= i < k - 1 implies !((#[trigger] s[i] == '.' || s[i] == '!'
                || s[i] == '?') && is_space(s[i + 1])) by {
                assert(!ends_sentence(s, i));
            }
        },
        None => {
            assert forall|i: int| 0 <= i < s.len() implies !((#[trigger] s[i] == '.' || s[i] == '!'
                || s[i] == '?') && (i + 1 == s.len() || is_space(s[i + 1]))) by {
                assert(!ends_sentence(s, i));
            }
        },
    }
}

/// A piece of a reasoning summary is kept for its end: it follows the pieces
/// before it, and shows nothing yet. Nothing else changes.
pub proof fn law_reason_delta_is_kept(round: RoundView, event: JsonView, ms: nat)
    requires
        carries_reason(event),
    ensures
        on_event(round, event, ms).0.feed.reason == round.feed.reason + event.at("delta"@).text_or(
            Seq::empty(),
        ),
        on_event(round, event, ms).0.feed.answer == round.feed.answer,
        on_event(round, event, ms).0.feed.first_text == round.feed.first_text,
        on_event(round, event, ms).0.output == round.output,
        on_event(round, event, ms).0.completed == round.completed,
        on_event(round, event, ms).1.len() == 0,
{
    lemma_event_kinds();
    lemma_kind(event, "response.reasoning_summary_text.delta"@);
    assert(round.feed.reason + Seq::empty() =~= round.feed.reason);
}

/// Whether a payload ends a reasoning summary: by its own event, or because its
/// response completes.
pub open spec fn reason_ends_in(data: Seq<char>) -> bool {
    event_in(data) matches Some(event) && (ends_reason(event) || completes(event))
}

/// What waits of a reasoning summary is every piece of it, in order.
proof fn lemma_reason_waits(round: RoundView, payloads: Seq<Seq<char>>, times: Seq<nat>)
    requires
        forall|i: int| 0 <= i < payloads.len() ==> !reason_ends_in(#[trigger] payloads[i]),
    ensures
        on_payloads(round, payloads, times).0.feed.reason == round.feed.reason + reasons_in(
            payloads,
        ),
    decreases payloads.len(),
{
    if payloads.len() == 0 {
        assert(round.feed.reason + reasons_in(payloads) =~= round.feed.reason);
    } else {
        let before = payloads.drop_last();
        assert forall|i: int| 0 <= i < before.len() implies !reason_ends_in(
            #[trigger] before[i],
        ) by {
            assert(before[i] == payloads[i]);
        }
        lemma_reason_waits(round, before, times);
        let mid = on_payloads(round, before, times).0;
        let data = payloads.last();
        let ms = times[payloads.len() - 1];
        assert(!reason_ends_in(payloads[payloads.len() - 1]));
        lemma_event_kinds();
        match event_in(data) {
            Some(event) => {
                lemma_kind(event, "response.reasoning_summary_text.done"@);
                lemma_kind(event, "response.completed"@);
                lemma_kind(event, "response.reasoning_summary_text.delta"@);
                if carries_reason(event) {
                    law_reason_delta_is_kept(mid, event, ms);
                } else {
                    assert(on_event(mid, event, ms).0.feed.reason == mid.feed.reason);
                    assert(mid.feed.reason + Seq::empty() =~= mid.feed.reason);
                }
            },
            None => {
                assert(mid.feed.reason + Seq::empty() =~= mid.feed.reason);
            },
        }
        assert((round.feed.reason + reasons_in(before)) + reason_in(data) =~= round.feed.reason
            + reasons_in(payloads));
    }
}

/// The line shown at the end of a reasoning summary holds every piece of it
/// since the summary before, in order, but for whitespace at its ends; there is
/// none where the pieces say nothing. The next summary begins anew.
pub proof fn law_summary_is_shown_whole(
    round: RoundView,
    payloads: Seq<Seq<char>>,
    times: Seq<nat>,
    done: JsonView,
    ms: nat,
)
    requires
        round.feed.reason.len() == 0,
        forall|i: int| 0 <= i < payloads.len() ==> !reason_ends_in(#[trigger] payloads[i]),
        ends_reason(done),
    ensures
        ({
            let step = on_event(on_payloads(round, payloads, times).0, done, ms);
            let text = trim(reasons_in(payloads));
            &&& step.1 == if text.len() == 0 {
                Seq::empty()
            } else {
                seq!["~ "@ + text]
            }
            &&& step.0.feed.reason.len() == 0
        }),
{
    lemma_reason_waits(round, payloads, times);
    lemma_event_kinds();
    lemma_kind(done, "response.reasoning_summary_text.done"@);
    assert(round.feed.reason + reasons_in(payloads) =~= reasons_in(payloads));
}

/// The end of a response shows all that was collected, loses nothing of it, and
/// leaves nothing waiting; its output is what the event carries, and its usage
/// is shown last.
pub proof fn law_completion_shows_the_rest(round: RoundView, event: JsonView, ms: nat) -> (cut: Seq<
    Seq<char>,
>)
    requires
        completes(event),
    ensures
        ({
            let step = on_event(round, event, ms);
            let response = event.at("response"@);
            let reason = trim(round.feed.reason);
            &&& step.1 == answer_lines(cut) + (if reason.len() == 0 {
                Seq::empty()
            } else {
                seq!["~ "@ + reason]
            }) + (match response.field("usage"@) {
                Some(usage) => seq![usage_line(usage, ms)],
                None => Seq::empty(),
            })
            &&& visible(round.feed.answer) == visible(cut.flatten())
            &&& step.0.feed.answer.len() == 0
            &&& step.0.feed.reason.len() == 0
            &&& step.0.completed
            &&& response.at("output"@) matches JsonView::Array(items) ==> step.0.output == items
            &&& !(response.at("output"@) is Array) ==> step.0.output == round.output
        }),
{
    lemma_event_kinds();
    lemma_kind(event, "response.completed"@);
    let flush = flushed(trim_start(round.feed.answer), true);
    law_flush_keeps_the_text(round.feed.answer, true);
    law_forced_flush_empties(trim_start(round.feed.answer));
    assert(flush.1 =~= Seq::empty());
    assert(visible(flush.1) =~= Seq::empty());
    assert(visible(flush.0.flatten()) + Seq::empty() =~= visible(flush.0.flatten()));
    assert(answer_lines(flush.0) =~= marked(flush.0));
    let step = on_event(round, event, ms);
    let reason = trim(round.feed.reason);
    let tail = match event.at("response"@).field("usage"@) {
        Some(usage) => seq![usage_line(usage, ms)],
        None => Seq::empty(),
    };
    assert(step.1 =~= answer_lines(flush.0) + (if reason.len() == 0 {
        Seq::empty()
    } else {
        seq!["~ "@ + reason]
    }) + tail);
    flush.0
}

/// The usage line names both counts, as JSON writes them, and the time.
pub proof fn law_usage_is_shown(usage: JsonView, a: JsonView, b: JsonView, ms: nat)
    requires
        usage.field("input_tokens"@) == Some(a),
        usage.field("output_tokens"@) == Some(b),
    ensures
        usage_line(usage, ms) == "✓ done · "@ + json_text(a) + " in / "@ + json_text(b)
            + " out · "@ + decimal(ms) + "ms server"@,
{
}

/// An event of another kind changes nothing of what was collected, and shows
/// at most one line.
pub proof fn law_other_events_keep_the_state(round: RoundView, event: JsonView, ms: nat)
    requires
        !carries_answer(event),
        !carries_reason(event),
        !ends_reason(event),
        !completes(event),
    ensures
        on_event(round, event, ms).0 == round,
        on_event(round, event, ms).1.len() <= 1,
{
    lemma_kind(event, "response.output_text.delta"@);
    lemma_kind(event, "response.refusal.delta"@);
    lemma_kind(event, "response.reasoning_summary_text.delta"@);
    lemma_kind(event, "response.reasoning_summary_text.done"@);
    lemma_kind(event, "response.completed"@);
}

/// A response is complete exactly when a payload says so, or was before; the
/// payloads that say nothing leave its output alone.
pub proof fn law_completed_by_its_own_event(
    round: RoundView,
    payloads: Seq<Seq<char>>,
    times: Seq<nat>,
)
    ensures
        on_payloads(round, payloads, times).0.completed <==> round.completed || exists|i: int|
            0 <= i < payloads.len() && completion_in(#[trigger] payloads[i]),
        on_payloads(round, payloads, times).0.output == last_output(round.output, payloads),
    decreases payloads.len(),
{
    if payloads.len() > 0 {
        let before = payloads.drop_last();
        law_completed_by_its_own_event(round, before, times);
        let mid = on_payloads(round, before, times).0;
        let data = payloads.last();
        let ms = times[payloads.len() - 1];
        lemma_event_kinds();
        if let Some(event) = event_in(data) {
            lemma_kind(event, "response.completed"@);
            assert(completes(event) <==> completion_in(data));
        }
        assert(data == payloads[payloads.len() - 1]);
        if exists|i: int| 0 <= i < before.len() && completion_in(#[trigger] before[i]) {
            let i = choose|i: int| 0 <= i < before.len() && completion_in(#[trigger] before[i]);
            assert(completion_in(payloads[i]));
        }
        if exists|i: int| 0 <= i < payloads.len() && completion_in(#[trigger] payloads[i]) {
            let i = choose|i: int| 0 <= i < payloads.len() && completion_in(#[trigger] payloads[i]);
            if i < before.len() {
                assert(completion_in(before[i]));
            }
        }
    }
}

/// The output of the last completion among the payloads that has one; else
/// what it was.
pub open spec fn last_output(output: Seq<JsonView>, payloads: Seq<Seq<char>>) -> Seq<JsonView>
    decreases payloads.len(),
{
    if payloads.len() == 0 {
        output
    } else if completion_in(payloads.last()) {
        match (event_in(payloads.last())->0).at("response"@).at("output"@) {
            JsonView::Array(items) => items,
            _ => last_output(output, payloads.drop_last()),
        }
    } else {
        last_output(output, payloads.drop_last())
    }
}

/// A fragment without a sentence waits as long as it is short; a sentence, or
/// 160 bytes, do not.
pub proof fn law_fragments_wait(s: Seq<char>)
    requires
        s.len() > 0,
    ensures
        ({
            let waits = utf8_len(s) < 160 && forall|i: int| !#[trigger] ends_sentence(s, i);
            &&& waits ==> flushed(s, false).0.len() == 0 && flushed(s, false).1 == s
            &&& !waits ==> flushed(s, false).1.len() < s.len()
        }),
{
    lemma_cut_chars(s, false);
    lemma_sentence_chars(s, 0);
    if cut_chars(s, false) is Some {
        let k = cut_chars(s, false)->0;
        lemma_trim_start_len(s.skip(k));
        lemma_flush_shortens(trim_start(s.skip(k)), false);
        if forall|i: int| !#[trigger] ends_sentence(s, i) {
            assert(sentence_chars(s, 0) is None);
        }
    } else {
        assert(forall|i: int| !#[trigger] ends_sentence(s, i));
    }
}

proof fn lemma_flush_shortens(s: Seq<char>, force: bool)
    ensures
        flushed(s, force).1.len() <= s.len(),
    decreases s.len(),
{
    if s.len() > 0 && cut_chars(s, force) is Some {
        lemma_cut_chars(s, force);
        let k = cut_chars(s, force)->0;
        lemma_trim_start_len(s.skip(k));
        lemma_flush_shortens(trim_start(s.skip(k)), force);
    }
}

/// Observers are told when a response begins, with its model, and when it stops
/// early, fails or breaks off, with what is known of it; of nothing else.
pub proof fn law_what_observers_are_told(event: JsonView, text: Seq<char>)
    ensures
        event.at("type"@) == JsonView::Str("response.created"@) && event.at("response"@).at(
            "model"@,
        ) == JsonView::Str(text) ==> event_line(event) == Some("· "@ + text + " thinking…"@),
        event.at("type"@) == JsonView::Str("response.incomplete"@) ==> event_line(event) == Some(
            "! stopped early (output limit)"@,
        ),
        event.at("type"@) == JsonView::Str("response.failed"@) ==> event_line(event) == Some(
            "! model run failed"@,
        ),
        event.at("type"@) == JsonView::Str("error"@) && event.at("message"@) == JsonView::Str(text)
            ==> event_line(event) == Some("! "@ + text),
        event_line(event) is Some ==> event.at("type"@) == JsonView::Str("response.created"@)
            || event.at("type"@) == JsonView::Str("response.incomplete"@) || event.at("type"@)
            == JsonView::Str("response.failed"@) || event.at("type"@) == JsonView::Str("error"@),
{
    lemma_event_kinds();
    reveal_strlit("response.failed");
    reveal_strlit("response.incomplete");
    reveal_strlit("error");
    assert("response.failed"@.len() == 15 && "response.incomplete"@.len() == 19);
    assert("error"@.len() == 5);
}

/// What observers are told of an event is shown, with the mark of the model's
/// side.
pub proof fn law_notices_are_shown(
    round: RoundView,
    event: JsonView,
    line: Seq<char>,
    ms: nat,
)
    requires
        event_line(event) == Some(line),
        !all_space(line),
    ensures
        on_event(round, event, ms) == (round, seq!["< "@ + line]),
{
    law_what_observers_are_told(event, line);
    lemma_event_kinds();
}

/// Payloads are taken one after the other, each at its time: what they show is
/// what each shows, in order. The end marker, and what is no JSON, do nothing.
pub proof fn law_payloads_are_taken_in_order(
    round: RoundView,
    payloads: Seq<Seq<char>>,
    times: Seq<nat>,
    data: Seq<char>,
    ms: nat,
)
    requires
        times.len() == payloads.len(),
    ensures
        ({
            let before = on_payloads(round, payloads, times);
            let after = on_payloads(round, payloads.push(data), times.push(ms));
            match event_in(data) {
                Some(event) => {
                    let step = on_event(before.0, event, ms);
                    after.0 == step.0 && after.1 == before.1 + step.1
                },
                None => after.0 == before.0 && after.1 == before.1,
            }
        }),
{
    assert(payloads.push(data).drop_last() =~= payloads);
    lemma_on_payloads_times(round, payloads, times, times.push(ms));
    let before = on_payloads(round, payloads, times);
    assert(before.1 + Seq::empty() =~= before.1);
}

} // verus!
