//! The observer tap: every streamed line is teed here, so that any device can
//! watch what flows between the clients and the server.

use vstd::prelude::*;
use std::collections::VecDeque;
use std::time::Instant;
use crate::clock::{gap_between, now_ms};
use crate::clock::{ms_between, wall_reading};
use crate::text::{chars_of, decimal_text, padded_text, string_of};
use crate::text::{decimal, law_decimal_stands_for_the_number, number_of, padded};

verus! {

/// The most lines that the tap keeps for replay.
pub const TAP_LINES: usize = 500;

/// The most characters of a tap line.
pub const TAP_LINE_CHARS: usize = 300;

/// One line of the tap.
pub struct TapLine {
    /// Wall-clock time (human reference; may stutter on sick VM clocks).
    pub srv_ms: u64,
    /// Monotonic ms since the previous pushed line: the trustworthy timeline.
    pub gap_ms: u64,
    pub text: String,
}

/// What a [`TapLine`] holds.
pub struct TapLineView {
    pub srv_ms: u64,
    pub gap_ms: u64,
    pub text: Seq<char>,
}

impl View for TapLine {
    type V = TapLineView;

    open spec fn view(&self) -> TapLineView {
        TapLineView { srv_ms: self.srv_ms, gap_ms: self.gap_ms, text: self.text@ }
    }
}

/// The first `n` characters of a text.
pub open spec fn shortened(text: Seq<char>, n: nat) -> Seq<char> {
    if text.len() <= n {
        text
    } else {
        text.take(n as int)
    }
}

/// The last `n` items of a sequence.
pub open spec fn newest<T>(items: Seq<T>, n: nat) -> Seq<T> {
    if items.len() <= n {
        items
    } else {
        items.skip(items.len() - n)
    }
}

impl TapLine {
    /// A line with the given times; its text is cut to the tap's line length.
    pub fn at(text: &str, gap_ms: u64, srv_ms: u64) -> (r: TapLine)
        ensures
            r@ == (TapLineView { srv_ms, gap_ms, text: shortened(text@, TAP_LINE_CHARS as nat) }),
    {
        let chars = chars_of(text);
        let end: usize = if chars.len() <= TAP_LINE_CHARS {
            chars.len()
        } else {
            TAP_LINE_CHARS
        };
        let short = string_of(&chars, 0, end);
        assert(short@ =~= shortened(text@, TAP_LINE_CHARS as nat));
        TapLine { srv_ms, gap_ms, text: short }
    }

    /// A line stamped with the current wall-clock time.
    pub fn now(text: String, gap_ms: u64) -> (r: TapLine)
        ensures
            wall_reading(r.srv_ms),
            r.gap_ms == gap_ms,
            r.text@ == shortened(text@, TAP_LINE_CHARS as nat),
    {
        TapLine::at(text.as_str(), gap_ms, now_ms())
    }
}

impl Clone for TapLine {
    fn clone(&self) -> (r: TapLine)
        ensures
            r@ == self@,
    {
        TapLine { srv_ms: self.srv_ms, gap_ms: self.gap_ms, text: self.text.clone() }
    }
}

/// What each line holds.
pub open spec fn line_views(lines: Seq<TapLine>) -> Seq<TapLineView> {
    lines.map_values(|line: TapLine| line@)
}

/// The lines that the tap replays: the newest of all that were pushed.
pub struct TapBuffer {
    buf: VecDeque<TapLine>,
    last_push: Instant,
}

impl View for TapBuffer {
    type V = Seq<TapLineView>;

    closed spec fn view(&self) -> Seq<TapLineView> {
        line_views(self.buf@)
    }
}

impl TapBuffer {
    /// When the last line was pushed; before the first, when the tap was made.
    pub closed spec fn last(&self) -> Instant {
        self.last_push
    }

    /// A tap without lines.
    pub fn new() -> (r: TapBuffer)
        ensures
            r@ == Seq::<TapLineView>::empty(),
    {
        let r = TapBuffer { buf: VecDeque::new(), last_push: Instant::now() };
        assert(r@ =~= Seq::<TapLineView>::empty());
        r
    }

    /// Adds a line and lets the oldest go beyond the limit.
    pub fn record(&mut self, line: &TapLine)
        ensures
            final(self)@ == newest(old(self)@.push(line@), TAP_LINES as nat),
            final(self).last() == old(self).last(),
    {
        let ghost all = old(self)@.push(line@);
        self.buf.push_back(line.clone());
        assert(self@ =~= all);
        assert(all.skip(0) =~= all);
        while self.buf.len() > TAP_LINES
            invariant
                self.buf@.len() <= all.len(),
                all.len() > TAP_LINES ==> self.buf@.len() >= TAP_LINES,
                all.len() <= TAP_LINES ==> self.buf@.len() == all.len(),
                self@ == all.skip(all.len() - self.buf@.len()),
                self.last() == old(self).last(),
            decreases self.buf@.len(),
        {
            let ghost before = self@;
            let _ = self.buf.pop_front();
            assert(self@ =~= before.skip(1));
            assert(self@ =~= all.skip(all.len() - self.buf@.len()));
        }
        assert(self@ =~= newest(all, TAP_LINES as nat));
    }

    /// Adds a line with the given times, pushed at `now`, and gives it back.
    pub fn stamped(&mut self, text: &str, gap_ms: u64, srv_ms: u64, now: Instant) -> (line: TapLine)
        ensures
            line@ == (TapLineView {
                srv_ms,
                gap_ms,
                text: shortened(text@, TAP_LINE_CHARS as nat),
            }),
            final(self)@ == newest(old(self)@.push(line@), TAP_LINES as nat),
            final(self).last() == now,
    {
        let line = TapLine::at(text, gap_ms, srv_ms);
        self.record(&line);
        self.last_push = now;
        line
    }

    /// Adds a line, stamped with the wall-clock time and with the time since
    /// the line before, and gives it back for the live observers.
    pub fn push(&mut self, text: String) -> (line: TapLine)
        ensures
            wall_reading(line.srv_ms),
            line.gap_ms == ms_between(old(self).last(), final(self).last())
                % 0x1_0000_0000_0000_0000,
            line.text@ == shortened(text@, TAP_LINE_CHARS as nat),
            final(self)@ == newest(old(self)@.push(line@), TAP_LINES as nat),
    {
        let now = Instant::now();
        let gap_ms: u64 = gap_between(self.last_push, &now);
        self.stamped(text.as_str(), gap_ms, now_ms(), now)
    }

    /// The lines kept, oldest first.
    pub fn snapshot(&self) -> (r: Vec<TapLine>)
        ensures
            line_views(r@) == self@,
    {
        let mut out: Vec<TapLine> = Vec::new();
        let mut i: usize = 0;
        while i < self.buf.len()
            invariant
                i <= self.buf@.len(),
                line_views(out@) == self@.take(i as int),
            decreases self.buf@.len() - i,
        {
            let ghost before = line_views(out@);
            let line = self.buf[i].clone();
            out.push(line);
            assert(line_views(out@) =~= before.push(line@));
            assert(self@.take(i + 1) =~= self@.take(i as int).push(self@[i as int]));
            i = i + 1;
        }
        assert(self@.take(i as int) =~= self@);
        out
    }
}

/// The lines kept after several pushes.
pub open spec fn kept(lines: Seq<TapLineView>) -> Seq<TapLineView>
    decreases lines.len(),
{
    if lines.len() == 0 {
        Seq::empty()
    } else {
        newest(kept(lines.drop_last()).push(lines.last()), TAP_LINES as nat)
    }
}

/// However many lines were pushed, the tap keeps the newest of them, in order.
pub proof fn law_tap_keeps_the_newest(lines: Seq<TapLineView>)
    ensures
        kept(lines) == newest(lines, TAP_LINES as nat),
    decreases lines.len(),
{
    if lines.len() > 0 {
        law_tap_keeps_the_newest(lines.drop_last());
        assert(kept(lines) =~= newest(lines, TAP_LINES as nat));
    }
}

/// Time of day, as `hh:mm:ss.mmm`.
pub open spec fn stamp(ms: nat) -> Seq<char> {
    let day = ms / 1000 % 86400;
    padded(day / 3600, 2) + ":"@ + padded(day % 3600 / 60, 2) + ":"@ + padded(day % 60, 2) + "."@
        + padded(ms % 1000, 3)
}

/// Time of day (UTC) of a wall-clock time, as `hh:mm:ss.mmm`.
pub fn stamp_ms(ms: u64) -> (r: String)
    ensures
        r@ == stamp(ms as nat),
{
    let day: u64 = ms / 1000 % 86400;
    let mut out = padded_text(day / 3600, 2);
    out.append(":");
    out.append(padded_text(day % 3600 / 60, 2).as_str());
    out.append(":");
    out.append(padded_text(day % 60, 2).as_str());
    out.append(".");
    out.append(padded_text(ms % 1000, 3).as_str());
    out
}

/// The power of two that scales `ms / 1000`, below a minute, to the 53 bits of
/// a double's significand.
pub open spec fn double_scale(ms: nat) -> nat {
    if ms < 2000 {
        0x10_0000_0000_0000
    } else if ms < 4000 {
        0x8_0000_0000_0000
    } else if ms < 8000 {
        0x4_0000_0000_0000
    } else if ms < 16000 {
        0x2_0000_0000_0000
    } else if ms < 32000 {
        0x1_0000_0000_0000
    } else {
        0x8000_0000_0000
    }
}

/// What rounding `ms / 1000` to a double's significand drops, in thousandths
/// of its last bit: below half it goes down, above half it goes up.
pub open spec fn double_remainder(ms: nat) -> nat {
    ms * double_scale(ms) % 1000
}

/// Tenths of a second in `ms`, from one second to below a minute, rounded as
/// the seconds are when written as a double with one decimal. A tie goes to
/// the side on which the double nearest to `ms / 1000` lies, and to the even
/// digit where that double is exact.
pub open spec fn tenths(ms: nat) -> nat {
    let low = ms / 100;
    let part = ms % 100;
    let rem = double_remainder(ms);
    if part < 50 || (part == 50 && (if rem == 0 {
        low % 2 == 0
    } else {
        rem < 500
    })) {
        low
    } else {
        low + 1
    }
}

/// Delivery lag (or replay age) in human form.
pub open spec fn age(ms: nat) -> Seq<char> {
    if ms < 1000 {
        decimal(ms) + "ms"@
    } else if ms < 60_000 {
        decimal(tenths(ms) / 10) + "."@ + decimal(tenths(ms) % 10) + "s"@
    } else if ms < 3_600_000 {
        decimal(ms / 60_000) + "m"@
    } else {
        decimal(ms / 3_600_000) + "h"@
    }
}

fn tenths_of(ms: u64) -> (r: u64)
    requires
        1000 <= ms < 60_000,
    ensures
        r == tenths(ms as nat),
{
    let low: u64 = ms / 100;
    let part: u64 = ms % 100;
    let scale: u128 = if ms < 2000 {
        0x10_0000_0000_0000
    } else if ms < 4000 {
        0x8_0000_0000_0000
    } else if ms < 8000 {
        0x4_0000_0000_0000
    } else if ms < 16000 {
        0x2_0000_0000_0000
    } else if ms < 32000 {
        0x1_0000_0000_0000
    } else {
        0x8000_0000_0000
    };
    assert(ms * scale <= 60_000 * 0x10_0000_0000_0000) by (nonlinear_arith)
        requires
            ms < 60_000,
            scale <= 0x10_0000_0000_0000,
    ;
    let rem: u128 = (ms as u128 * scale) % 1000;
    assert(rem == double_remainder(ms as nat));
    let down = if rem == 0 {
        low % 2 == 0
    } else {
        rem < 500
    };
    if part < 50 || (part == 50 && down) {
        low
    } else {
        low + 1
    }
}

/// Delivery lag (or replay age) in human form: the gap between the server
/// handling a line and the observer receiving it.
pub fn age_str(ms: u64) -> (r: String)
    ensures
        r@ == age(ms as nat),
{
    if ms < 1000 {
        let mut out = decimal_text(ms as u128);
        out.append("ms");
        out
    } else if ms < 60_000 {
        let t: u64 = tenths_of(ms);
        let mut out = decimal_text((t / 10) as u128);
        out.append(".");
        out.append(decimal_text((t % 10) as u128).as_str());
        out.append("s");
        out
    } else if ms < 3_600_000 {
        let mut out = decimal_text((ms / 60_000) as u128);
        out.append("m");
        out
    } else {
        let mut out = decimal_text((ms / 3_600_000) as u128);
        out.append("h");
        out
    }
}

/// A tap line as an observer sees it at `now`: wall time for human reference,
/// the monotonic gap since the line before, the delivery age, and the text.
pub open spec fn shown(line: TapLineView, now: u64) -> Seq<char> {
    let late = if now >= line.srv_ms {
        (now - line.srv_ms) as nat
    } else {
        0
    };
    "["@ + stamp(line.srv_ms as nat) + " (+"@ + age(line.gap_ms as nat) + " mono) → +"@ + age(late)
        + "] "@ + line.text
}

/// Formats a tap line for an observer.
pub fn format_tap_line(line: &TapLine, now: u64) -> (r: String)
    ensures
        r@ == shown(line@, now),
{
    let late: u64 = now.saturating_sub(line.srv_ms);
    let mut out = "[".to_owned();
    out.append(stamp_ms(line.srv_ms).as_str());
    out.append(" (+");
    out.append(age_str(line.gap_ms).as_str());
    out.append(" mono) → +");
    out.append(age_str(late).as_str());
    out.append("] ");
    out.append(line.text.as_str());
    out
}

/// Tap lines as a plain text, one line each.
pub open spec fn page(lines: Seq<TapLineView>, now: u64) -> Seq<char>
    decreases lines.len(),
{
    if lines.len() == 0 {
        Seq::empty()
    } else {
        page(lines.drop_last(), now) + (shown(lines.last(), now) + "\n"@)
    }
}

/// The last `n` lines of the tap (at most as many as it keeps), as a plain
/// text.
pub fn tail_page(lines: &Vec<TapLine>, n: usize, now: u64) -> (r: String)
    ensures
        r@ == page(
            newest(
                line_views(lines@),
                if n <= TAP_LINES {
                    n as nat
                } else {
                    TAP_LINES as nat
                },
            ),
            now,
        ),
{
    let most: usize = if n <= TAP_LINES {
        n
    } else {
        TAP_LINES
    };
    let from: usize = lines.len().saturating_sub(most);
    let ghost last = newest(line_views(lines@), most as nat);
    assert(last =~= line_views(lines@).skip(from as int));
    let mut out = String::new();
    let mut i: usize = from;
    assert(last.take(0) =~= Seq::empty());
    while i < lines.len()
        invariant
            from <= i <= lines@.len(),
            last == line_views(lines@).skip(from as int),
            out@ == page(last.take(i - from), now),
        decreases lines@.len() - i,
    {
        let mut shown_line = format_tap_line(&lines[i], now);
        shown_line.append("\n");
        out.append(shown_line.as_str());
        assert(last.take(i - from + 1).drop_last() =~= last.take(i - from));
        assert(last.take(i - from + 1).last() == lines@[i as int]@);
        i = i + 1;
    }
    assert(last.take(i - from) =~= last);
    out
}

/// The number that decimal digits spell.
pub open spec fn digits_value(s: Seq<char>) -> nat
    decreases s.len(),
{
    if s.len() == 0 {
        0
    } else {
        digits_value(s.drop_last()) * 10 + (s.last() as nat - 48) as nat
    }
}

/// Whether a text holds nothing but decimal digits, and some.
pub open spec fn all_digits(s: Seq<char>) -> bool {
    s.len() > 0 && forall|i: int| 0 <= i < s.len() ==> '0' <= #[trigger] s[i] <= '9'
}

/// The count that a text spells: digits, after an optional plus sign, of a
/// number that a `usize` holds.
pub open spec fn count_of(s: Seq<char>) -> Option<usize> {
    let digits = if s.len() > 0 && s[0] == '+' {
        s.skip(1)
    } else {
        s
    };
    if all_digits(digits) && digits_value(digits) <= usize::MAX {
        Some(digits_value(digits) as usize)
    } else {
        None
    }
}

proof fn lemma_digits_prefix(s: Seq<char>, k: int)
    requires
        0 <= k <= s.len(),
        all_digits(s),
    ensures
        digits_value(s.take(k)) <= digits_value(s),
    decreases s.len() - k,
{
    if k < s.len() {
        assert('0' <= s[k] <= '9');
        assert(s.take(k + 1).drop_last() =~= s.take(k));
        lemma_digits_prefix(s, k + 1);
    } else {
        assert(s.take(k) =~= s);
    }
}

/// The number of lines that an observer asks to see; none where they ask to
/// watch.
pub fn tail_count(text: &str) -> (r: Option<usize>)
    ensures
        r == count_of(text@),
{
    let chars = chars_of(text);
    let n: usize = chars.len();
    let from: usize = if n > 0 && chars[0] == '+' {
        1
    } else {
        0
    };
    let ghost digits = text@.skip(from as int);
    assert(from == 0 ==> digits =~= text@);
    if from == n {
        assert(digits.len() == 0);
        return None;
    }
    let mut i: usize = from;
    while i < n
        invariant
            chars@ == text@,
            from <= i <= n == text@.len(),
            digits == text@.skip(from as int),
            digits == if text@.len() > 0 && text@[0] == '+' {
                text@.skip(1)
            } else {
                text@
            },
            forall|j: int| 0 <= j < i - from ==> '0' <= #[trigger] digits[j] <= '9',
        decreases n - i,
    {
        let c = chars[i];
        if !('0' <= c && c <= '9') {
            assert(!('0' <= digits[i - from] <= '9'));
            return None;
        }
        i = i + 1;
    }
    assert(all_digits(digits));
    let mut value: usize = 0;
    let mut k: usize = from;
    assert(digits.take(0) =~= Seq::empty());
    while k < n
        invariant
            chars@ == text@,
            from <= k <= n == text@.len(),
            digits == text@.skip(from as int),
            all_digits(digits),
            count_of(text@) == if digits_value(digits) <= usize::MAX {
                Some(digits_value(digits) as usize)
            } else {
                None
            },
            value == digits_value(digits.take(k - from)),
        decreases n - k,
    {
        assert('0' <= digits[k - from] <= '9');
        let d: usize = (chars[k] as u32 - 48) as usize;
        proof {
            assert(digits.take(k - from + 1).drop_last() =~= digits.take(k - from));
            lemma_digits_prefix(digits, k - from + 1);
        }
        if value > usize::MAX / 10 || d > usize::MAX - value * 10 {
            return None;
        }
        value = value * 10 + d;
        k = k + 1;
    }
    assert(digits.take(k - from) =~= digits);
    Some(value)
}

/// The newest items are the last ones, in order, and as many as there may be.
pub proof fn law_newest_are_the_last(items: Seq<TapLineView>, n: nat, i: int)
    ensures
        newest(items, n).len() == if items.len() < n {
            items.len()
        } else {
            n
        },
        0 <= i < newest(items, n).len() ==> newest(items, n)[i] == items[items.len() - newest(
            items,
            n,
        ).len() + i],
{
}

/// The tap holds up to 500 lines, and a line up to 300 characters, which are
/// the first ones of its text.
pub proof fn law_tap_limits(lines: Seq<TapLineView>, text: Seq<char>, i: int)
    ensures
        kept(lines).len() == if lines.len() < 500 {
            lines.len()
        } else {
            500
        },
        shortened(text, TAP_LINE_CHARS as nat).len() == if text.len() < 300 {
            text.len()
        } else {
            300
        },
        0 <= i < shortened(text, TAP_LINE_CHARS as nat).len() ==> shortened(
            text,
            TAP_LINE_CHARS as nat,
        )[i] == text[i],
{
    law_tap_keeps_the_newest(lines);
}

/// A stamp gives hours, minutes, seconds and milliseconds that add up to the
/// time of day.
pub proof fn law_stamp_is_the_time_of_day(ms: nat) -> (r: (nat, nat, nat, nat))
    ensures
        ms % 86_400_000 == ((r.0 * 60 + r.1) * 60 + r.2) * 1000 + r.3,
        r.0 < 24,
        r.1 < 60,
        r.2 < 60,
        r.3 < 1000,
        stamp(ms) == padded(r.0, 2) + ":"@ + padded(r.1, 2) + ":"@ + padded(r.2, 2) + "."@ + padded(
            r.3,
            3,
        ),
{
    let day = ms / 1000 % 86400;
    let r = (day / 3600, day % 3600 / 60, day % 60, ms % 1000);
    assert(ms % 86_400_000 == day * 1000 + ms % 1000);
    r
}

/// An age is given in the largest unit that it reaches: milliseconds exactly,
/// seconds to the nearest tenth, minutes and hours in whole.
pub proof fn law_age_is_close(ms: nat) -> (n: nat)
    ensures
        ms < 1000 ==> n == ms && age(ms) == decimal(n) + "ms"@,
        1000 <= ms < 60_000 ==> -50 <= n * 100 - ms <= 50 && age(ms) == decimal(n / 10) + "."@
            + decimal(n % 10) + "s"@,
        60_000 <= ms < 3_600_000 ==> n * 60_000 <= ms < (n + 1) * 60_000 && age(ms) == decimal(n)
            + "m"@,
        3_600_000 <= ms ==> n * 3_600_000 <= ms < (n + 1) * 3_600_000 && age(ms) == decimal(n)
            + "h"@,
{
    if ms < 1000 {
        ms
    } else if ms < 60_000 {
        tenths(ms)
    } else if ms < 3_600_000 {
        ms / 60_000
    } else {
        ms / 3_600_000
    }
}

/// A line is shown with its time of day, the gap before it, its age (none where
/// the clock went back) and its whole text.
pub proof fn law_line_is_shown_whole(line: TapLineView, now: u64, late: nat)
    requires
        late == if now < line.srv_ms {
            0
        } else {
            now - line.srv_ms
        },
    ensures
        shown(line, now) == "["@ + stamp(line.srv_ms as nat) + " (+"@ + age(line.gap_ms as nat)
            + " mono) → +"@ + age(late) + "] "@ + line.text,
{
}

/// A page shows its lines one after the other, each with a line feed.
pub proof fn law_page_shows_every_line(a: Seq<TapLineView>, b: Seq<TapLineView>, now: u64)
    ensures
        page(a + b, now) == page(a, now) + page(b, now),
        b.len() == 1 ==> page(b, now) == shown(b[0], now) + "\n"@,
    decreases b.len(),
{
    reveal_with_fuel(page, 2);
    if b.len() == 0 {
        assert(a + b =~= a);
        assert(page(a, now) + page(b, now) =~= page(a, now));
    } else {
        law_page_shows_every_line(a, b.drop_last(), now);
        assert((a + b).drop_last() =~= a + b.drop_last());
        let last = shown(b.last(), now) + "\n"@;
        assert((page(a, now) + page(b.drop_last(), now)) + last =~= page(a, now) + (page(
            b.drop_last(),
            now,
        ) + last));
        if b.len() == 1 {
            assert(b.drop_last() =~= Seq::empty());
            assert(page(b, now) =~= last);
        }
    }
}

proof fn lemma_digits_number(s: Seq<char>)
    requires
        forall|i: int| 0 <= i < s.len() ==> '0' <= #[trigger] s[i] <= '9',
    ensures
        digits_value(s) == number_of(s),
    decreases s.len(),
{
    if s.len() > 0 {
        let rest = s.drop_last();
        assert forall|i: int| 0 <= i < rest.len() implies '0' <= #[trigger] rest[i] <= '9' by {
            assert(rest[i] == s[i]);
        }
        assert('0' <= s[s.len() - 1] <= '9');
        lemma_digits_number(rest);
    }
}

/// A count that is written in decimal, with a plus sign or without, is read as
/// that count; what holds anything but digits is none.
pub proof fn law_counts_are_read(n: usize, s: Seq<char>, i: int)
    ensures
        count_of(decimal(n as nat)) == Some(n),
        count_of(seq!['+'] + decimal(n as nat)) == Some(n),
        0 < i < s.len() && !('0' <= s[i] <= '9') ==> count_of(s) is None,
        s.len() == 0 ==> count_of(s) is None,
{
    let d = decimal(n as nat);
    law_decimal_stands_for_the_number(n as nat);
    lemma_digits_number(d);
    assert('0' <= d[0] <= '9');
    assert((seq!['+'] + d).skip(1) =~= d);
    if 0 < i < s.len() && !('0' <= s[i] <= '9') {
        assert(s.skip(1)[i - 1] == s[i]);
    }
}

} // verus!
