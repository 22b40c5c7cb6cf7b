//! What the model is told of a shell command that it had run.

use vstd::prelude::*;
use crate::text::{byte_len, chars_of, is_blank, signed_text, string_of};
use crate::text::{
    all_space, is_space, lemma_encode_concat, lemma_utf8_len_step, signed_decimal, utf8_len,
};
use vstd::utf8::*;

verus! {

/// The most bytes of a command's output that the model is given.
pub const MAX_OUTPUT: usize = 12_000;

/// The text that `String::from_utf8_lossy` makes of bytes.
pub uninterp spec fn lossy_text(bytes: Seq<u8>) -> Seq<char>;

/// `String::from_utf8_lossy`: the text that well-formed UTF-8 encodes; for
/// other bytes a text in which replacement characters stand for what is not.
/// It depends on the bytes alone; where the replacement characters stand is
/// not stated.
#[verifier::external_body]
fn lossy(bytes: &Vec<u8>) -> (r: String)
    ensures
        r@ == lossy_text(bytes@),
        valid_utf8(bytes@) ==> r@ == decode_utf8(bytes@),
{
    String::from_utf8_lossy(bytes).into_owned()
}

/// How a command went.
pub enum CommandOutcome {
    /// The shell could not be started, for this reason.
    NotStarted(String),
    /// The command ended: its exit code, where it has one, and its output.
    Finished { code: Option<i32>, stdout: Vec<u8>, stderr: Vec<u8> },
    /// Its output could not be read, for this reason.
    Unreadable(String),
    /// It took too long.
    TimedOut,
}

/// The number of characters, from the `k` first ones on, that fit in `limit`
/// bytes.
pub open spec fn fitting_chars(s: Seq<char>, k: int, limit: nat) -> int
    decreases s.len() - k,
{
    if k < s.len() && utf8_len(s.take(k + 1)) <= limit {
        fitting_chars(s, k + 1, limit)
    } else {
        k
    }
}

/// What the two output streams say together.
pub open spec fn both_streams(stdout: Seq<char>, stderr: Seq<char>) -> Seq<char> {
    if all_space(stderr) {
        stdout
    } else {
        stdout + "\nstderr:\n"@ + stderr
    }
}

/// A text, cut at a character boundary where it is too long.
pub open spec fn capped(text: Seq<char>) -> Seq<char> {
    if utf8_len(text) > MAX_OUTPUT {
        text.take(fitting_chars(text, 0, MAX_OUTPUT as nat)) + "\n…(output truncated)"@
    } else {
        text
    }
}

/// The report on a command that ended.
pub open spec fn finished_report(code: i32, stdout: Seq<char>, stderr: Seq<char>) -> Seq<char> {
    let text = capped(both_streams(stdout, stderr));
    if all_space(text) {
        "<no output, exit "@ + signed_decimal(code as int) + ">"@
    } else {
        text
    }
}

/// Exit code and report; a command that did not end has the code -1.
pub open spec fn reported(outcome: CommandOutcome) -> (i32, Seq<char>) {
    match outcome {
        CommandOutcome::NotStarted(reason) => (-1i32, "failed to start shell: "@ + reason@),
        CommandOutcome::Finished { code, stdout, stderr } => {
            let known = match code {
                Some(code) => code,
                None => -1i32,
            };
            (known, finished_report(known, lossy_text(stdout@), lossy_text(stderr@)))
        },
        CommandOutcome::Unreadable(reason) => (
            -1i32,
            "failed to read command output: "@ + reason@,
        ),
        CommandOutcome::TimedOut => (-1i32, "command timed out after 30s and was killed"@),
    }
}

/// Cuts a text that is too long.
fn cap(text: String) -> (r: String)
    ensures
        r@ == capped(text@),
{
    let size: usize = byte_len(text.as_str());
    if size <= MAX_OUTPUT {
        return text;
    }
    let chars = chars_of(text.as_str());
    let n: usize = chars.len();
    let mut k: usize = 0;
    let mut at: usize = 0;
    assert(text@.take(0) =~= Seq::empty());
    while k < n && chars[k].len_utf8() <= MAX_OUTPUT - at
        invariant
            chars@ == text@,
            n == text@.len(),
            k <= n,
            at == utf8_len(text@.take(k as int)),
            at <= MAX_OUTPUT,
            fitting_chars(text@, 0, MAX_OUTPUT as nat) == fitting_chars(
                text@,
                k as int,
                MAX_OUTPUT as nat,
            ),
        decreases n - k,
    {
        proof {
            lemma_utf8_len_step(text@, k as int);
        }
        at = at + chars[k].len_utf8();
        k = k + 1;
    }
    proof {
        if k < n {
            lemma_utf8_len_step(text@, k as int);
        }
    }
    let mut out = string_of(&chars, 0, k);
    assert(text@.take(k as int) =~= chars@.subrange(0, k as int));
    out.append("\n…(output truncated)");
    out
}

/// The report on a command that ended, from the text of its two streams.
pub fn finished_text(code: i32, stdout: String, stderr: &str) -> (r: String)
    ensures
        r@ == finished_report(code, stdout@, stderr@),
{
    let mut text = stdout;
    if !is_blank(stderr) {
        text.append("\nstderr:\n");
        text.append(stderr);
    }
    let text = cap(text);
    if is_blank(text.as_str()) {
        let mut out = "<no output, exit ".to_owned();
        out.append(signed_text(code as i64).as_str());
        out.append(">");
        out
    } else {
        text
    }
}

/// Exit code and report of a command. Every failure has one, so there is no
/// error to handle.
pub fn command_report(outcome: CommandOutcome) -> (r: (i32, String))
    ensures
        r.0 == reported(outcome).0,
        r.1@ == reported(outcome).1,
        outcome matches CommandOutcome::Finished { code, stdout, stderr } ==> valid_utf8(stdout@)
            && valid_utf8(stderr@) ==> r.1@ == finished_report(
            r.0,
            decode_utf8(stdout@),
            decode_utf8(stderr@),
        ),
{
    match outcome {
        CommandOutcome::NotStarted(reason) => {
            let mut out = "failed to start shell: ".to_owned();
            out.append(reason.as_str());
            (-1, out)
        },
        CommandOutcome::Finished { code, stdout, stderr } => {
            let known: i32 = match code {
                Some(code) => code,
                None => -1,
            };
            (known, finished_text(known, lossy(&stdout), lossy(&stderr).as_str()))
        },
        CommandOutcome::Unreadable(reason) => {
            let mut out = "failed to read command output: ".to_owned();
            out.append(reason.as_str());
            (-1, out)
        },
        CommandOutcome::TimedOut => (-1, "command timed out after 30s and was killed".to_owned()),
    }
}

proof fn lemma_fitting_chars(s: Seq<char>, k: int, limit: nat)
    requires
        0 <= k <= s.len(),
        utf8_len(s.take(k)) <= limit,
    ensures
        k <= fitting_chars(s, k, limit) <= s.len(),
        utf8_len(s.take(fitting_chars(s, k, limit))) <= limit,
        fitting_chars(s, k, limit) < s.len() ==> utf8_len(
            s.take(fitting_chars(s, k, limit) + 1),
        ) > limit,
    decreases s.len() - k,
{
    if k < s.len() && utf8_len(s.take(k + 1)) <= limit {
        lemma_fitting_chars(s, k + 1, limit);
    }
}

/// What is kept of a long output is as much as fits, but for the mark of the
/// cut.
pub proof fn law_output_is_capped(text: Seq<char>)
    ensures
        utf8_len(capped(text)) <= MAX_OUTPUT + utf8_len("\n…(output truncated)"@),
        utf8_len(text) > MAX_OUTPUT ==> utf8_len(capped(text)) > MAX_OUTPUT - 4 + utf8_len(
            "\n…(output truncated)"@,
        ),
{
    let k = fitting_chars(text, 0, MAX_OUTPUT as nat);
    assert(text.take(0) =~= Seq::empty());
    lemma_fitting_chars(text, 0, MAX_OUTPUT as nat);
    lemma_encode_concat(text.take(k), "\n…(output truncated)"@);
    if utf8_len(text) > MAX_OUTPUT {
        if k == text.len() {
            assert(text.take(k) =~= text);
        }
        lemma_utf8_len_step(text, k);
    }
}

/// Where something was written to the standard error and all fits, the report
/// is the standard output, a heading and the whole standard error, whatever the
/// exit code.
pub proof fn law_both_streams_are_reported(code: i32, stdout: Seq<char>, stderr: Seq<char>)
    requires
        !all_space(stderr),
        utf8_len(stdout + "\nstderr:\n"@ + stderr) <= 12_000,
    ensures
        finished_report(code, stdout, stderr) == stdout + "\nstderr:\n"@ + stderr,
{
    let all = stdout + "\nstderr:\n"@ + stderr;
    let i = choose|i: int| 0 <= i < stderr.len() && !is_space(#[trigger] stderr[i]);
    assert(all[(stdout + "\nstderr:\n"@).len() + i] == stderr[i]);
    assert(!all_space(all));
}

/// Where nothing was written to the standard error, the report is the standard
/// output, whatever the exit code; where that says nothing either, the report
/// names the exit code.
pub proof fn law_output_alone_is_reported(code: i32, stdout: Seq<char>, stderr: Seq<char>)
    requires
        all_space(stderr),
        utf8_len(stdout) <= 12_000,
    ensures
        !all_space(stdout) ==> finished_report(code, stdout, stderr) == stdout,
        all_space(stdout) ==> finished_report(code, stdout, stderr) == "<no output, exit "@
            + signed_decimal(code as int) + ">"@,
{
}

/// A report that is too long is cut: what is left is its beginning, as much of
/// it as fits, and a mark of the cut, whatever the exit code.
pub proof fn law_long_output_keeps_its_beginning(
    code: i32,
    stdout: Seq<char>,
    stderr: Seq<char>,
) -> (k: int)
    requires
        utf8_len(stdout) > 12_000,
    ensures
        ({
            let all = if all_space(stderr) {
                stdout
            } else {
                stdout + "\nstderr:\n"@ + stderr
            };
            &&& 0 <= k < all.len()
            &&& utf8_len(all.take(k)) <= 12_000 < utf8_len(all.take(k + 1))
            &&& finished_report(code, stdout, stderr) == all.take(k) + "\n…(output truncated)"@
        }),
{
    let all = both_streams(stdout, stderr);
    if !all_space(stderr) {
        lemma_encode_concat(stdout + "\nstderr:\n"@, stderr);
        lemma_encode_concat(stdout, "\nstderr:\n"@);
    }
    assert(all.take(0) =~= Seq::empty());
    lemma_fitting_chars(all, 0, 12_000);
    let k = fitting_chars(all, 0, 12_000);
    if k == all.len() {
        assert(all.take(k) =~= all);
    }
    reveal_strlit("\n…(output truncated)");
    let cut = all.take(k) + "\n…(output truncated)"@;
    assert(cut[k + 1] == '…');
    assert(!is_space('…'));
    assert(!all_space(cut));
    k
}

/// A command that ended is reported with its own exit code, and with -1 where
/// it has none; one that did not end is reported with -1 and the reason.
pub proof fn law_exit_codes_are_kept(
    code: i32,
    stdout: Vec<u8>,
    stderr: Vec<u8>,
    reason: String,
)
    ensures
        reported(CommandOutcome::Finished { code: Some(code), stdout, stderr }).0 == code,
        reported(CommandOutcome::Finished { code: None, stdout, stderr }).0 == -1,
        reported(CommandOutcome::Finished { code: Some(code), stdout, stderr }).1
            == finished_report(code, lossy_text(stdout@), lossy_text(stderr@)),
        reported(CommandOutcome::NotStarted(reason)).0 == -1,
        reason@.is_suffix_of(reported(CommandOutcome::NotStarted(reason)).1),
        reported(CommandOutcome::Unreadable(reason)).0 == -1,
        reason@.is_suffix_of(reported(CommandOutcome::Unreadable(reason)).1),
        reported(CommandOutcome::TimedOut).0 == -1,
{
    let a = reported(CommandOutcome::NotStarted(reason)).1;
    let b = reported(CommandOutcome::Unreadable(reason)).1;
    assert(a.subrange(a.len() - reason@.len(), a.len() as int) =~= reason@);
    assert(b.subrange(b.len() - reason@.len(), b.len() as int) =~= reason@);
}

} // verus!
