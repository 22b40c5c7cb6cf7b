//! The events that stream from the model, as laws speak of them: what an event
//! carries, in terms of its members.

use vstd::prelude::*;
use crate::json::{json_parsed, JsonView};

verus! {

/// Whether an event carries a piece of the answer.
pub open spec fn carries_answer(event: JsonView) -> bool {
    event.at("type"@) == JsonView::Str("response.output_text.delta"@) || event.at("type"@)
        == JsonView::Str("response.refusal.delta"@)
}

/// Whether an event ends a reply with an error.
pub open spec fn carries_failure(event: JsonView) -> bool {
    event.at("type"@) == JsonView::Str("response.incomplete"@) || event.at("type"@)
        == JsonView::Str("response.failed"@) || event.at("type"@) == JsonView::Str("error"@)
}

/// The event in a payload, if it is one.
pub open spec fn event_in(data: Seq<char>) -> Option<JsonView> {
    if data == "[DONE]"@ {
        None
    } else {
        match json_parsed(data) {
            Ok(event) => Some(event),
            Err(_) => None,
        }
    }
}

/// The piece of the answer that a payload carries.
pub open spec fn answer_in(data: Seq<char>) -> Seq<char> {
    match event_in(data) {
        Some(event) => if carries_answer(event) {
            event.at("delta"@).text_or(Seq::empty())
        } else {
            Seq::empty()
        },
        None => Seq::empty(),
    }
}

/// The pieces of the answer that payloads carry, one after the other.
pub open spec fn answers_in(payloads: Seq<Seq<char>>) -> Seq<char> {
    payloads.map_values(|data: Seq<char>| answer_in(data)).flatten()
}

/// Whether a payload says that a response is complete.
pub open spec fn completion_in(data: Seq<char>) -> bool {
    event_in(data) matches Some(event) && event.at("type"@) == JsonView::Str(
        "response.completed"@,
    )
}

/// Whether a payload ends a reply with an error.
pub open spec fn failure_in(data: Seq<char>) -> bool {
    if data == "[DONE]"@ {
        false
    } else {
        match json_parsed(data) {
            Ok(event) => carries_failure(event),
            Err(_) => true,
        }
    }
}

/// The kinds of events differ from each other.
pub proof fn lemma_event_kinds()
    ensures
        "response.created"@ != "response.output_text.delta"@,
        "response.created"@ != "response.refusal.delta"@,
        "response.created"@ != "response.completed"@,
        "response.created"@ != "response.reasoning_summary_text.delta"@,
        "response.created"@ != "response.reasoning_summary_text.done"@,
        "response.created"@ != "response.incomplete"@,
        "response.created"@ != "response.failed"@,
        "response.created"@ != "error"@,
        "response.reasoning_summary_text.delta"@ != "response.output_text.delta"@,
        "response.reasoning_summary_text.delta"@ != "response.refusal.delta"@,
        "response.reasoning_summary_text.delta"@ != "response.completed"@,
        "response.reasoning_summary_text.delta"@ != "response.reasoning_summary_text.done"@,
        "response.reasoning_summary_text.delta"@ != "response.incomplete"@,
        "response.reasoning_summary_text.delta"@ != "response.failed"@,
        "response.reasoning_summary_text.delta"@ != "error"@,
        "response.output_text.delta"@ != "response.completed"@,
        "response.output_text.delta"@ != "response.reasoning_summary_text.done"@,
        "response.output_text.delta"@ != "response.incomplete"@,
        "response.output_text.delta"@ != "response.failed"@,
        "response.output_text.delta"@ != "error"@,
        "response.refusal.delta"@ != "response.completed"@,
        "response.refusal.delta"@ != "response.reasoning_summary_text.done"@,
        "response.refusal.delta"@ != "response.incomplete"@,
        "response.refusal.delta"@ != "response.failed"@,
        "response.refusal.delta"@ != "error"@,
        "response.reasoning_summary_text.done"@ != "response.completed"@,
        "response.reasoning_summary_text.done"@ != "response.incomplete"@,
        "response.reasoning_summary_text.done"@ != "response.failed"@,
        "response.reasoning_summary_text.done"@ != "error"@,
        "response.completed"@ != "response.incomplete"@,
        "response.completed"@ != "response.failed"@,
        "response.completed"@ != "error"@,
        "exec.call"@ != "response.created"@,
        "exec.call"@ != "response.reasoning_summary_text.delta"@,
        "exec.call"@ != "response.output_text.delta"@,
        "exec.call"@ != "response.refusal.delta"@,
        "exec.call"@ != "response.reasoning_summary_text.done"@,
        "exec.call"@ != "response.completed"@,
        "exec.call"@ != "response.incomplete"@,
        "exec.call"@ != "response.failed"@,
        "exec.call"@ != "error"@,
        "exec.done"@ != "response.created"@,
        "exec.done"@ != "response.reasoning_summary_text.delta"@,
        "exec.done"@ != "response.output_text.delta"@,
        "exec.done"@ != "response.refusal.delta"@,
        "exec.done"@ != "response.reasoning_summary_text.done"@,
        "exec.done"@ != "response.completed"@,
        "exec.done"@ != "response.incomplete"@,
        "exec.done"@ != "response.failed"@,
        "exec.done"@ != "error"@,
        "exec.call"@ != "exec.done"@,
        ""@ != "response.output_text.delta"@,
        ""@ != "response.refusal.delta"@,
        ""@ != "response.completed"@,
        ""@ != "response.incomplete"@,
        ""@ != "response.failed"@,
        ""@ != "error"@,
{
    reveal_strlit("response.created");
    reveal_strlit("response.reasoning_summary_text.delta");
    reveal_strlit("response.output_text.delta");
    reveal_strlit("response.refusal.delta");
    reveal_strlit("response.reasoning_summary_text.done");
    reveal_strlit("response.completed");
    reveal_strlit("response.incomplete");
    reveal_strlit("response.failed");
    reveal_strlit("exec.call");
    reveal_strlit("exec.done");
    reveal_strlit("error");
    reveal_strlit("");
    assert("response.created"@.len() == 16);
    assert("response.reasoning_summary_text.delta"@.len() == 37);
    assert("response.output_text.delta"@.len() == 26);
    assert("response.refusal.delta"@.len() == 22);
    assert("response.reasoning_summary_text.done"@.len() == 36);
    assert("response.completed"@.len() == 18);
    assert("response.incomplete"@.len() == 19);
    assert("response.failed"@.len() == 15);
    assert("exec.call"@.len() == 9);
    assert("exec.done"@.len() == 9);
    assert("error"@.len() == 5);
    assert(""@.len() == 0);
    assert("exec.call"@[5] == 'c');
    assert("exec.done"@[5] == 'd');
}

/// The pieces of two streams are those of the one, and then of the other.
pub proof fn lemma_answers_concat(a: Seq<Seq<char>>, b: Seq<Seq<char>>)
    ensures
        answers_in(a + b) == answers_in(a) + answers_in(b),
    decreases a.len(),
{
    let f = |data: Seq<char>| answer_in(data);
    if a.len() == 0 {
        assert(a + b =~= b);
        assert(a.map_values(f) =~= Seq::empty());
        assert(answers_in(a) + answers_in(b) =~= answers_in(b));
    } else {
        let tail = a.drop_first();
        lemma_answers_concat(tail, b);
        assert((a + b).drop_first() =~= tail + b);
        assert((a + b).map_values(f).drop_first() =~= (tail + b).map_values(f));
        assert(a.map_values(f).drop_first() =~= tail.map_values(f));
        assert((a + b)[0] == a[0]);
        assert(answer_in(a[0]) + (answers_in(tail) + answers_in(b)) =~= (answer_in(a[0])
            + answers_in(tail)) + answers_in(b));
    }
}

/// Whether an event carries a piece of a reasoning summary.
pub open spec fn carries_reason(event: JsonView) -> bool {
    event.at("type"@) == JsonView::Str("response.reasoning_summary_text.delta"@)
}

/// Whether an event ends a reasoning summary.
pub open spec fn ends_reason(event: JsonView) -> bool {
    event.at("type"@) == JsonView::Str("response.reasoning_summary_text.done"@)
}

/// Whether an event completes a response.
pub open spec fn completes(event: JsonView) -> bool {
    event.at("type"@) == JsonView::Str("response.completed"@)
}

/// The piece of a reasoning summary that a payload carries.
pub open spec fn reason_in(data: Seq<char>) -> Seq<char> {
    match event_in(data) {
        Some(event) => if carries_reason(event) {
            event.at("delta"@).text_or(Seq::empty())
        } else {
            Seq::empty()
        },
        None => Seq::empty(),
    }
}

/// The pieces of a reasoning summary that payloads carry, one after the other.
pub open spec fn reasons_in(payloads: Seq<Seq<char>>) -> Seq<char>
    decreases payloads.len(),
{
    if payloads.len() == 0 {
        Seq::empty()
    } else {
        reasons_in(payloads.drop_last()) + reason_in(payloads.last())
    }
}

} // verus!
