//! The terminal client: what a typed line means, the history that goes with
//! each message, and what is printed of a streamed answer.

use vstd::prelude::*;
use crate::events::{
    answer_in, answers_in, carries_answer, carries_failure, carries_reason, completion_in,
    event_in, failure_in, lemma_answers_concat, lemma_event_kinds,
};
use crate::json::Json;
use crate::json::{json_parsed, json_text, reads_as, JsonView};
use crate::messages::{fits, message_jsons, Message, MAX_BYTES, MAX_MESSAGES};
use crate::messages::{acceptable, message_values, message_views, sound, total_bytes, MessageView};
use crate::sse::SseDecoder;
use crate::sse::{decodes_to, fault_text, fed, fresh, pushed, texts, SseView, MAX_PENDING};
use crate::text::{
    byte_len, decimal_text, is_blank, same, signed_text, trimmed, without_trailing,
};
use crate::text::{all_space, decimal, drop_trailing, lemma_trim_shows, signed_decimal, trim, utf8_len};
use vstd::utf8::*;

verus! {

/// The most bytes of one typed message.
pub const MAX_INPUT: usize = 16_000;

/// Where the client finds the server.
pub enum Base {
    /// At this address.
    Given(String),
    /// At the far end of an SSH tunnel to this host.
    Tunnel { host: String },
}

/// What a [`Base`] holds.
pub enum BaseView {
    Given(Seq<char>),
    Tunnel { host: Seq<char> },
}

impl View for Base {
    type V = BaseView;

    open spec fn view(&self) -> BaseView {
        match self {
            Base::Given(base) => BaseView::Given(base@),
            Base::Tunnel { host } => BaseView::Tunnel { host: host@ },
        }
    }
}

/// Where the client finds the server: at the first argument of the command
/// line; without one, through a tunnel to the host that the environment
/// selects, or to `rove`.
pub fn base_plan(arg: Option<&str>, ssh_host: Option<&str>) -> (r: Base)
    ensures
        r@ == match arg {
            Some(base) => BaseView::Given(drop_trailing(base@, '/')),
            None => BaseView::Tunnel {
                host: match ssh_host {
                    Some(host) => host@,
                    None => "rove"@,
                },
            },
        },
{
    match arg {
        Some(base) => Base::Given(without_trailing(base, '/')),
        None => Base::Tunnel {
            host: match ssh_host {
                Some(host) => host.to_owned(),
                None => "rove".to_owned(),
            },
        },
    }
}

/// The address of a tunnel's local end.
pub fn tunnel_base(port: u16) -> (r: String)
    ensures
        r@ == "http://127.0.0.1:"@ + decimal(port as nat),
{
    let mut out = "http://127.0.0.1:".to_owned();
    out.append(decimal_text(port as u128).as_str());
    out
}

/// The server's address; that of a tunnel is its local end, at `port`.
pub fn base_url(plan: Base, port: u16) -> (r: String)
    ensures
        r@ == match plan@ {
            BaseView::Given(base) => base,
            BaseView::Tunnel { host: _ } => "http://127.0.0.1:"@ + decimal(port as nat),
        },
{
    match plan {
        Base::Given(base) => base,
        Base::Tunnel { host: _ } => tunnel_base(port),
    }
}

/// What a typed line means.
pub enum Input {
    Quit,
    /// Begin a new conversation.
    New,
    Nothing,
    TooLong,
    Say(String),
}

/// What an [`Input`] holds.
pub enum InputView {
    Quit,
    New,
    Nothing,
    TooLong,
    Say(Seq<char>),
}

impl View for Input {
    type V = InputView;

    open spec fn view(&self) -> InputView {
        match self {
            Input::Quit => InputView::Quit,
            Input::New => InputView::New,
            Input::Nothing => InputView::Nothing,
            Input::TooLong => InputView::TooLong,
            Input::Say(text) => InputView::Say(text@),
        }
    }
}

/// What a typed line means.
pub open spec fn input_of(line: Seq<char>) -> InputView {
    let text = trim(line);
    if text == "/exit"@ || text == "/quit"@ {
        InputView::Quit
    } else if text == "/new"@ {
        InputView::New
    } else if text.len() == 0 {
        InputView::Nothing
    } else if utf8_len(text) > MAX_INPUT {
        InputView::TooLong
    } else {
        InputView::Say(text)
    }
}

/// Reads a typed line.
pub fn read_input(line: &str) -> (r: Input)
    ensures
        r@ == input_of(line@),
{
    let text = trimmed(line);
    if same(text.as_str(), "/exit") || same(text.as_str(), "/quit") {
        Input::Quit
    } else if same(text.as_str(), "/new") {
        Input::New
    } else if text.as_str().is_empty() {
        Input::Nothing
    } else if byte_len(text.as_str()) > MAX_INPUT {
        Input::TooLong
    } else {
        Input::Say(text)
    }
}

/// Whether messages alternate between the user and the assistant, beginning
/// with the user.
pub open spec fn alternating(messages: Seq<MessageView>) -> bool {
    forall|i: int|
        0 <= i < messages.len() ==> (#[trigger] messages[i]).role == if i % 2 == 0 {
            "user"@
        } else {
            "assistant"@
        }
}

/// Whether every message says something.
pub open spec fn none_blank(messages: Seq<MessageView>) -> bool {
    forall|i: int| 0 <= i < messages.len() ==> !all_space((#[trigger] messages[i]).content)
}

/// A history between two turns: complete exchanges only.
pub open spec fn settled(messages: Seq<MessageView>) -> bool {
    alternating(messages) && none_blank(messages) && messages.len() % 2 == 0
}

/// A history that ends with a message to be answered.
pub open spec fn asking(messages: Seq<MessageView>) -> bool {
    alternating(messages) && none_blank(messages) && messages.len() % 2 == 1
}

/// Whether messages are within the server's budget.
pub open spec fn within_budget(messages: Seq<MessageView>) -> bool {
    messages.len() <= MAX_MESSAGES && total_bytes(messages) <= MAX_BYTES
}

/// Messages without the oldest exchanges that make them exceed the budget.
pub open spec fn budgeted(messages: Seq<MessageView>) -> Seq<MessageView>
    decreases messages.len(),
{
    if within_budget(messages) || messages.len() < 2 {
        messages
    } else {
        budgeted(messages.skip(2))
    }
}

/// A message of the user.
pub open spec fn user_says(text: Seq<char>) -> MessageView {
    MessageView { role: "user"@, content: text }
}

/// A message of the assistant.
pub open spec fn assistant_says(text: Seq<char>) -> MessageView {
    MessageView { role: "assistant"@, content: text }
}

/// The history of a conversation: it lives in memory, and only completed turns
/// enter it.
pub struct History {
    messages: Vec<Message>,
}

impl View for History {
    type V = Seq<MessageView>;

    closed spec fn view(&self) -> Seq<MessageView> {
        message_views(self.messages@)
    }
}

proof fn lemma_one_message_fits(m: MessageView)
    requires
        utf8_len(m.content) <= MAX_INPUT,
    ensures
        within_budget(seq![m]),
{
    reveal_with_fuel(total_bytes, 2);
    assert(seq![m].drop_last() =~= Seq::empty());
}

/// A message that ends a history and fits on its own is never dropped.
proof fn lemma_over_budget(messages: Seq<MessageView>)
    requires
        messages.len() % 2 == 1,
        utf8_len(messages.last().content) <= MAX_INPUT,
        !within_budget(messages),
    ensures
        messages.len() >= 3,
{
    if messages.len() == 1 {
        assert(messages =~= seq![messages[0]]);
        lemma_one_message_fits(messages[0]);
    }
}

impl History {
    /// A conversation without a past.
    pub fn new() -> (r: History)
        ensures
            r@ == Seq::<MessageView>::empty(),
            settled(r@),
    {
        let r = History { messages: Vec::new() };
        assert(r@ =~= Seq::<MessageView>::empty());
        r
    }

    /// Forgets the conversation.
    pub fn clear(&mut self)
        ensures
            final(self)@ == Seq::<MessageView>::empty(),
            settled(final(self)@),
    {
        self.messages.clear();
        assert(self@ =~= Seq::<MessageView>::empty());
    }

    /// Whether the messages are within the server's budget.
    fn is_within(&self) -> (r: bool)
        ensures
            r == within_budget(self@),
    {
        self.messages.len() <= MAX_MESSAGES && fits(&self.messages, MAX_BYTES)
    }

    /// Adds a message of the user, and drops the oldest exchanges as far as
    /// the server's budget demands. Tells whether any were dropped.
    pub fn say(&mut self, text: String) -> (dropped: bool)
        requires
            settled(old(self)@),
            !all_space(text@),
            utf8_len(text@) <= MAX_INPUT,
        ensures
            final(self)@ == budgeted(old(self)@.push(user_says(text@))),
            dropped == !within_budget(old(self)@.push(user_says(text@))),
            asking(final(self)@),
    {
        let ghost all = old(self)@.push(user_says(text@));
        self.messages.push(Message { role: "user".to_owned(), content: text });
        assert(self@ =~= all);
        let mut dropped = false;
        while !self.is_within()
            invariant
                asking(self@),
                self@.last() == user_says(text@),
                utf8_len(text@) <= MAX_INPUT,
                budgeted(self@) == budgeted(all),
                !dropped ==> self@ == all,
                dropped ==> !within_budget(all),
            decreases self@.len(),
        {
            proof {
                lemma_over_budget(self@);
            }
            let ghost before = self@;
            self.messages = self.messages.split_off(2);
            assert(self@ =~= before.skip(2));
            assert forall|i: int| 0 <= i < self@.len() implies (#[trigger] self@[i]).role == if i
                % 2 == 0 {
                "user"@
            } else {
                "assistant"@
            } by {
                assert(self@[i] == before[i + 2]);
            }
            dropped = true;
        }
        dropped
    }

    /// Adds the answer to the last message. A blank answer is none: the server
    /// would refuse it, so the message that it answers is dropped instead.
    pub fn answered(&mut self, answer: String)
        requires
            asking(old(self)@),
        ensures
            final(self)@ == if all_space(answer@) {
                old(self)@.drop_last()
            } else {
                old(self)@.push(assistant_says(answer@))
            },
            settled(final(self)@),
    {
        if is_blank(answer.as_str()) {
            self.failed();
        } else {
            self.messages.push(Message { role: "assistant".to_owned(), content: answer });
            assert(self@ =~= old(self)@.push(assistant_says(answer@)));
        }
    }

    /// Drops the last message, which was not answered.
    pub fn failed(&mut self)
        requires
            asking(old(self)@),
        ensures
            final(self)@ == old(self)@.drop_last(),
            settled(final(self)@),
    {
        let _ = self.messages.pop();
        assert(self@ =~= old(self)@.drop_last());
    }

    /// The request that the conversation makes of the server.
    pub fn request(&self) -> (r: Json)
        ensures
            r@ == request_value(self@),
    {
        Json::object().with("messages", Json::Array(message_jsons(&self.messages)))
    }
}

/// The request that a conversation makes of the server.
pub open spec fn request_value(messages: Seq<MessageView>) -> JsonView {
    JsonView::Object(map!["messages"@ => JsonView::Array(message_values(messages))])
}

/// Dropping keeps the newest messages: whole exchanges go, the oldest first,
/// and no more of them than the budget demands.
pub proof fn law_oldest_exchanges_go_first(messages: Seq<MessageView>) -> (k: int)
    requires
        asking(messages),
        utf8_len(messages.last().content) <= MAX_INPUT,
    ensures
        0 <= k < messages.len(),
        k % 2 == 0,
        budgeted(messages) == messages.skip(k),
        within_budget(budgeted(messages)),
        forall|j: int|
            0 <= j < k && j % 2 == 0 ==> !within_budget(#[trigger] messages.skip(j)),
    decreases messages.len(),
{
    if within_budget(messages) {
        assert(messages.skip(0) =~= messages);
        0
    } else {
        lemma_over_budget(messages);
        let rest = messages.skip(2);
        assert forall|i: int| 0 <= i < rest.len() implies (#[trigger] rest[i]).role == if i % 2
            == 0 {
            "user"@
        } else {
            "assistant"@
        } by {
            assert(rest[i] == messages[i + 2]);
        }
        let k = law_oldest_exchanges_go_first(rest);
        assert(rest.skip(k) =~= messages.skip(k + 2));
        assert forall|j: int| 0 <= j < k + 2 && j % 2 == 0 implies !within_budget(
            #[trigger] messages.skip(j),
        ) by {
            if j == 0 {
                assert(messages.skip(0) =~= messages);
            } else {
                assert(rest.skip(j - 2) =~= messages.skip(j));
                assert(!within_budget(rest.skip(j - 2)));
            }
        }
        k + 2
    }
}

/// The server accepts what the client sends: the client keeps to the server's
/// budget, and no message is blank.
pub proof fn law_server_accepts_the_client(history: Seq<MessageView>, text: Seq<char>)
    requires
        settled(history),
        !all_space(text),
        utf8_len(text) <= MAX_INPUT,
    ensures
        acceptable(budgeted(history.push(user_says(text)))),
{
    let all = history.push(user_says(text));
    assert(asking(all));
    let k = law_oldest_exchanges_go_first(all);
    let kept = all.skip(k);
    assert(kept.last() == all.last());
    assert forall|i: int| 0 <= i < kept.len() implies sound(#[trigger] kept[i]) by {
        assert(kept[i] == all[i + k]);
        if i + k < history.len() {
            assert(all[i + k] == history[i + k]);
        }
    }
}

/// What a typed line says is never blank, so the server accepts it.
pub proof fn law_said_text_is_not_blank(line: Seq<char>)
    ensures
        input_of(line) matches InputView::Say(text) ==> !all_space(text) && utf8_len(text)
            <= MAX_INPUT,
{
    lemma_trim_shows(line);
}

/// A turn that failed leaves nothing of itself in the history: what is left
/// are the newest exchanges of before.
pub proof fn law_failed_turn_is_not_saved(history: Seq<MessageView>, text: Seq<char>) -> (k: int)
    requires
        settled(history),
        !all_space(text),
        utf8_len(text) <= MAX_INPUT,
    ensures
        0 <= k <= history.len(),
        budgeted(history.push(user_says(text))).drop_last() == history.skip(k),
{
    let all = history.push(user_says(text));
    assert(asking(all));
    let k = law_oldest_exchanges_go_first(all);
    assert(all.skip(k).drop_last() =~= history.skip(k));
    k
}

/// Which heading was printed last.
#[derive(Clone, Copy, Debug, PartialEq, Eq, Structural)]
pub enum Section {
    Start,
    Summary,
    Answer,
}

/// What the client knows of an answer that streams in.
pub struct Reply {
    decoder: SseDecoder,
    answer: String,
    section: Section,
    completed: bool,
}

/// What a [`Reply`] holds.
pub struct ReplyView {
    pub decoder: SseView,
    pub answer: Seq<char>,
    pub section: Section,
    pub completed: bool,
}

impl View for Reply {
    type V = ReplyView;

    closed spec fn view(&self) -> ReplyView {
        ReplyView {
            decoder: self.decoder@,
            answer: self.answer@,
            section: self.section,
            completed: self.completed,
        }
    }
}

/// What becomes of a reply: what is known after it, what is printed, and the
/// error that ends it, if any.
pub struct Heard {
    pub reply: ReplyView,
    pub printed: Seq<char>,
    pub error: Option<Seq<char>>,
}

/// Something printed.
pub open spec fn prints(reply: ReplyView, printed: Seq<char>) -> Heard {
    Heard { reply, printed, error: None }
}

/// Something wrong.
pub open spec fn fails(reply: ReplyView, error: Seq<char>) -> Heard {
    Heard { reply, printed: Seq::empty(), error: Some(error) }
}

/// What one event does.
pub open spec fn on_event(c: ReplyView, event: JsonView) -> Heard {
    let kind = event.at("type"@).text_or(""@);
    let delta = event.at("delta"@).text_or(""@);
    if kind == "response.created"@ {
        prints(c, event.at("response"@).at("model"@).text_or("AI"@) + " · generating...\n"@)
    } else if kind == "response.reasoning_summary_text.delta"@ {
        prints(
            ReplyView { section: Section::Summary, ..c },
            if c.section == Section::Summary {
                delta
            } else {
                "\nReasoning summary\n"@ + delta
            },
        )
    } else if kind == "response.output_text.delta"@ || kind == "response.refusal.delta"@ {
        prints(
            ReplyView { section: Section::Answer, answer: c.answer + delta, ..c },
            if c.section == Section::Answer {
                delta
            } else {
                "\nAI\n"@ + delta
            },
        )
    } else if kind == "response.reasoning_summary_text.done"@ {
        prints(c, "\n"@)
    } else if kind == "response.completed"@ {
        let usage = event.at("response"@).at("usage"@);
        prints(
            ReplyView { completed: true, ..c },
            "\n\n["@ + json_text(usage.at("input_tokens"@)) + " input · "@ + json_text(
                usage.at("output_tokens"@),
            ) + " output tokens, including reasoning]\n\n"@,
        )
    } else if kind == "response.incomplete"@ {
        fails(
            c,
            "Response stopped early: "@ + event.at("response"@).at("incomplete_details"@).at(
                "reason"@,
            ).text_or("unknown reason"@)
                + ". Ask a shorter question or increase the server token limit."@,
        )
    } else if kind == "response.failed"@ || kind == "error"@ {
        fails(
            c,
            "AI stream failed. Check API billing or retry; the partial answer was not saved to history."@,
        )
    } else if kind == "exec.call"@ {
        prints(c, "\n$ "@ + event.at("command"@).text_or(""@) + "\n"@)
    } else if kind == "exec.done"@ {
        prints(
            c,
            "[exit "@ + signed_decimal(int_or(event.at("exit"@), -1, i64::MIN as int, i64::MAX as int))
                + " · "@ + signed_decimal(int_or(event.at("ms"@), 0, 0, u64::MAX as int)) + "ms]\n"@,
        )
    } else {
        prints(c, Seq::empty())
    }
}

/// An integer from `low` to `high`, or `default` for another value.
pub open spec fn int_or(value: JsonView, default: int, low: int, high: int) -> int {
    match value {
        JsonView::Int(n) => if low <= n <= high {
            n
        } else {
            default
        },
        _ => default,
    }
}

/// What one payload does. The end marker does nothing; what is no JSON ends
/// the reply, instead of printing garbage.
pub open spec fn on_payload(c: ReplyView, data: Seq<char>) -> Heard {
    if data == "[DONE]"@ {
        prints(c, Seq::empty())
    } else {
        match json_parsed(data) {
            Ok(event) => on_event(c, event),
            Err(message) => fails(c, message),
        }
    }
}

/// What several payloads do, up to the first error.
pub open spec fn on_payloads(c: ReplyView, payloads: Seq<Seq<char>>) -> Heard
    decreases payloads.len(),
{
    if payloads.len() == 0 {
        prints(c, Seq::empty())
    } else {
        let first = on_payload(c, payloads[0]);
        if first.error is Some {
            first
        } else {
            let rest = on_payloads(first.reply, payloads.drop_first());
            Heard { printed: first.printed + rest.printed, ..rest }
        }
    }
}

/// What one chunk does.
pub open spec fn on_chunk(c: ReplyView, bytes: Seq<u8>) -> Heard {
    let read = pushed(c.decoder, bytes);
    let next = ReplyView { decoder: read.state, ..c };
    match read.fault {
        Some(fault) => fails(next, fault_text(fault)),
        None => on_payloads(next, read.events),
    }
}

/// The answer that a reply amounts to at the end of the stream. One turn can
/// span several model responses, so the stream is read to its end.
pub open spec fn outcome(c: ReplyView) -> Result<Seq<char>, Seq<char>> {
    if !c.completed {
        Err("Connection ended before completion. Please retry; partial output was not saved."@)
    } else if c.answer.len() == 0 {
        Err("No answer was returned. Please retry with a shorter question."@)
    } else {
        Ok(c.answer)
    }
}

/// A reply of which nothing has come.
pub open spec fn no_reply() -> ReplyView {
    ReplyView { decoder: fresh(), answer: Seq::empty(), section: Section::Start, completed: false }
}

/// The text of a string member, or `default`.
fn text_at<'a>(value: Option<&'a Json>, key: &str, default: &'a str) -> (r: &'a str)
    ensures
        r@ == match value {
            Some(v) => v@.at(key@).text_or(default@),
            None => default@,
        },
{
    match value {
        Some(v) => match v.get_str(key) {
            Some(s) => s,
            None => default,
        },
        None => default,
    }
}

/// The text of a member that may be missing.
fn shown_at(value: Option<&Json>, key: &str) -> (r: String)
    ensures
        r@ == json_text(
            match value {
                Some(v) => v@.at(key@),
                None => JsonView::Null,
            },
        ),
{
    if let Some(v) = value {
        if let Some(member) = v.get(key) {
            return member.text();
        }
    }
    Json::Null.text()
}

/// The member `key` of a value that may be missing.
fn member<'a>(value: Option<&'a Json>, key: &str) -> (r: Option<&'a Json>)
    ensures
        match r {
            Some(m) => value matches Some(v) && v@.field(key@) == Some(m@),
            None => value matches Some(v) ==> v@.field(key@) is None,
        },
{
    match value {
        Some(v) => v.get(key),
        None => None,
    }
}

/// An answer that the server refused: the status, and what the body says.
pub open spec fn refused_value(status: Seq<char>, body: JsonView) -> Seq<char> {
    status + ": "@ + body.at("error"@).text_or("Request failed"@)
}

/// The value of a body, or null where it is no JSON.
pub open spec fn body_value(body: Seq<u8>) -> JsonView {
    if valid_utf8(body) {
        match json_parsed(decode_utf8(body)) {
            Ok(value) => value,
            Err(_) => JsonView::Null,
        }
    } else {
        JsonView::Null
    }
}

/// What to say of an answer that the server refused.
pub fn refused_text(status: &str, body: &[u8]) -> (r: String)
    ensures
        r@ == refused_value(status@, body_value(body@)),
{
    let details = Json::parse_bytes(body);
    let mut out = status.to_owned();
    out.append(": ");
    match details {
        Some(value) => out.append(text_at(Some(&value), "error", "Request failed")),
        None => out.append("Request failed"),
    }
    out
}

impl Reply {
    pub fn new() -> (r: Reply)
        ensures
            r@ == no_reply(),
    {
        Reply {
            decoder: SseDecoder::default(),
            answer: String::new(),
            section: Section::Start,
            completed: false,
        }
    }

    /// Takes one event in. Gives what to print, or the error that ends the
    /// reply.
    pub fn take_event(&mut self, event: &Json) -> (r: Result<String, String>)
        ensures
            final(self)@ == on_event(old(self)@, event@).reply,
            match r {
                Ok(printed) => on_event(old(self)@, event@).error is None && printed@ == on_event(
                    old(self)@,
                    event@,
                ).printed,
                Err(error) => on_event(old(self)@, event@).error == Some(error@),
            },
    {
        let whole = Some(event);
        let response = member(whole, "response");
        let kind = text_at(whole, "type", "");
        let delta = text_at(whole, "delta", "");
        let mut out = String::new();
        if same(kind, "response.created") {
            out = text_at(response, "model", "AI").to_owned();
            out.append(" · generating...\n");
        } else if same(kind, "response.reasoning_summary_text.delta") {
            if self.section != Section::Summary {
                out = "\nReasoning summary\n".to_owned();
                self.section = Section::Summary;
            }
            out.append(delta);
            assert(out@ =~= on_event(old(self)@, event@).printed);
        } else if same(kind, "response.output_text.delta") || same(
            kind,
            "response.refusal.delta",
        ) {
            if self.section != Section::Answer {
                out = "\nAI\n".to_owned();
                self.section = Section::Answer;
            }
            out.append(delta);
            self.answer.append(delta);
            assert(out@ =~= on_event(old(self)@, event@).printed);
        } else if same(kind, "response.reasoning_summary_text.done") {
            out = "\n".to_owned();
        } else if same(kind, "response.completed") {
            self.completed = true;
            let usage = member(response, "usage");
            out = "\n\n[".to_owned();
            out.append(shown_at(usage, "input_tokens").as_str());
            out.append(" input · ");
            out.append(shown_at(usage, "output_tokens").as_str());
            out.append(" output tokens, including reasoning]\n\n");
        } else if same(kind, "response.incomplete") {
            let mut error = "Response stopped early: ".to_owned();
            error.append(
                text_at(member(response, "incomplete_details"), "reason", "unknown reason"),
            );
            error.append(". Ask a shorter question or increase the server token limit.");
            return Err(error);
        } else if same(kind, "response.failed") || same(kind, "error") {
            return Err(
                "AI stream failed. Check API billing or retry; the partial answer was not saved to history.".to_owned(),
            );
        } else if same(kind, "exec.call") {
            out = "\n$ ".to_owned();
            out.append(text_at(whole, "command", ""));
            out.append("\n");
        } else if same(kind, "exec.done") {
            let code: i64 = match member(whole, "exit") {
                Some(value) => match value.as_i64() {
                    Some(n) => n,
                    None => -1,
                },
                None => -1,
            };
            let ms: u64 = match member(whole, "ms") {
                Some(value) => match value.as_u64() {
                    Some(n) => n,
                    None => 0,
                },
                None => 0,
            };
            out = "[exit ".to_owned();
            out.append(signed_text(code).as_str());
            out.append(" · ");
            out.append(decimal_text(ms as u128).as_str());
            out.append("ms]\n");
        }
        Ok(out)
    }

    /// Takes one payload in.
    pub fn take_payload(&mut self, data: &str) -> (r: Result<String, String>)
        ensures
            final(self)@ == on_payload(old(self)@, data@).reply,
            match r {
                Ok(printed) => on_payload(old(self)@, data@).error is None && printed@
                    == on_payload(old(self)@, data@).printed,
                Err(error) => on_payload(old(self)@, data@).error == Some(error@),
            },
    {
        if same(data, "[DONE]") {
            return Ok(String::new());
        }
        match Json::parse(data) {
            Ok(event) => self.take_event(&event),
            Err(message) => Err(message),
        }
    }

    /// Takes one chunk of the stream in. Gives what to print, and the error
    /// that ends the reply, if any.
    pub fn take_chunk(&mut self, bytes: &[u8]) -> (r: (String, Option<String>))
        ensures
            final(self)@ == on_chunk(old(self)@, bytes@).reply,
            r.0@ == on_chunk(old(self)@, bytes@).printed,
            match r.1 {
                Some(error) => on_chunk(old(self)@, bytes@).error == Some(error@),
                None => on_chunk(old(self)@, bytes@).error is None,
            },
    {
        let mut out = String::new();
        let payloads = match self.decoder.push(bytes) {
            Ok(payloads) => payloads,
            Err(message) => return (out, Some(message)),
        };
        let ghost all = texts(payloads@);
        let ghost whole = on_payloads(self@, all);
        assert(all.skip(0) =~= all);
        assert(out@ + whole.printed =~= whole.printed);
        let mut i: usize = 0;
        while i < payloads.len()
            invariant
                i <= payloads@.len(),
                all == texts(payloads@),
                whole == on_chunk(old(self)@, bytes@),
                whole.reply == on_payloads(self@, all.skip(i as int)).reply,
                whole.error == on_payloads(self@, all.skip(i as int)).error,
                whole.printed == out@ + on_payloads(self@, all.skip(i as int)).printed,
            decreases payloads@.len() - i,
        {
            let ghost rest = all.skip(i as int);
            assert(rest.drop_first() =~= all.skip(i + 1));
            assert(rest[0] == payloads@[i as int]@);
            let ghost before = out@;
            let ghost first = on_payload(self@, rest[0]);
            match self.take_payload(payloads[i].as_str()) {
                Ok(printed) => {
                    out.append(printed.as_str());
                    assert(before + (first.printed + on_payloads(self@, all.skip(i + 1)).printed)
                        =~= out@ + on_payloads(self@, all.skip(i + 1)).printed);
                },
                Err(error) => {
                    assert(first.printed =~= Seq::empty());
                    assert(before + Seq::empty() =~= before);
                    return (out, Some(error));
                },
            }
            i = i + 1;
        }
        assert(out@ + Seq::empty() =~= out@);
        (out, None)
    }

    /// The answer, at the end of the stream.
    pub fn finish(self) -> (r: Result<String, String>)
        ensures
            match r {
                Ok(answer) => outcome(self@) == Ok::<Seq<char>, Seq<char>>(answer@),
                Err(error) => outcome(self@) == Err::<Seq<char>, Seq<char>>(error@),
            },
    {
        if !self.completed {
            return Err(
                "Connection ended before completion. Please retry; partial output was not saved.".to_owned(),
            );
        }
        if self.answer.as_str().is_empty() {
            return Err("No answer was returned. Please retry with a shorter question.".to_owned());
        }
        Ok(self.answer)
    }
}

/// What the server frames, the client hears: a frame whose payload reads as a
/// value does to a reply what the value does.
pub proof fn law_client_hears_the_server(c: ReplyView, frame: Seq<char>, value: JsonView)
    requires
        c.decoder == fresh(),
        decodes_to(frame, seq![json_text(value)]),
        reads_as(json_text(value), value),
        json_text(value) != "[DONE]"@,
        utf8_len(frame) <= MAX_PENDING,
    ensures
        on_chunk(c, encode_utf8(frame)) == on_event(c, value),
{
    reveal_with_fuel(on_payloads, 2);
    let bytes = encode_utf8(frame);
    let payloads = seq![json_text(value)];
    assert(c.decoder.pending + bytes =~= bytes);
    assert(payloads.drop_first() =~= Seq::empty());
    let heard = on_event(c, value);
    assert(heard.printed + Seq::empty() =~= heard.printed);
}

/// The answer grows by what an event carries of it, and by nothing else, no
/// matter what came before; a response is complete once an event says so; and
/// an error comes from the failures alone.
pub proof fn law_event_adds_its_delta(c: ReplyView, event: JsonView)
    ensures
        ({
            let heard = on_event(c, event);
            &&& carries_answer(event) ==> heard.reply.answer == c.answer + event.at(
                "delta"@,
            ).text_or(Seq::empty())
            &&& !carries_answer(event) ==> heard.reply.answer == c.answer
            &&& heard.reply.completed <==> c.completed || event.at("type"@) == JsonView::Str(
                "response.completed"@,
            )
            &&& heard.error is Some <==> carries_failure(event)
            &&& heard.error is Some ==> heard.printed.len() == 0
            &&& heard.reply.decoder == c.decoder
        }),
{
    lemma_event_kinds();
    reveal_strlit("");
    assert(""@ =~= Seq::<char>::empty());
}

/// The answer is every piece of it that the payloads carry, in order, wherever
/// the responses among them complete; and there is an error only where a
/// payload is one.
pub proof fn law_answer_is_every_delta(c: ReplyView, payloads: Seq<Seq<char>>)
    ensures
        ({
            let heard = on_payloads(c, payloads);
            &&& heard.error is None <==> forall|i: int|
                0 <= i < payloads.len() ==> !failure_in(#[trigger] payloads[i])
            &&& heard.error is None ==> heard.reply.answer == c.answer + answers_in(payloads)
            &&& heard.error is None ==> (heard.reply.completed <==> c.completed || exists|i: int|
                0 <= i < payloads.len() && completion_in(#[trigger] payloads[i]))
            &&& heard.reply.decoder == c.decoder
        }),
    decreases payloads.len(),
{
    let pieces = payloads.map_values(|data: Seq<char>| answer_in(data));
    if payloads.len() == 0 {
        assert(pieces =~= Seq::empty());
        assert(c.answer + answers_in(payloads) =~= c.answer);
    } else {
        let first = on_payload(c, payloads[0]);
        let tail = payloads.drop_first();
        assert(payloads[0] == payloads[0]);
        if event_in(payloads[0]) is Some {
            law_event_adds_its_delta(c, event_in(payloads[0])->0);
        }
        assert(first.error is Some <==> failure_in(payloads[0]));
        assert(pieces.drop_first() =~= tail.map_values(|data: Seq<char>| answer_in(data)));
        assert(answers_in(payloads) == answer_in(payloads[0]) + answers_in(tail));
        if first.error is None {
            law_answer_is_every_delta(first.reply, tail);
            assert forall|i: int| 0 <= i < tail.len() implies #[trigger] tail[i] == payloads[i
                + 1] by {}
            assert forall|i: int| 1 <= i < payloads.len() implies #[trigger] payloads[i] == tail[i
                - 1] by {}
            assert(first.reply.answer =~= c.answer + answer_in(payloads[0]));
            assert((c.answer + answer_in(payloads[0])) + answers_in(tail) =~= c.answer
                + answers_in(payloads));
            if exists|i: int| 0 <= i < tail.len() && completion_in(#[trigger] tail[i]) {
                let i = choose|i: int| 0 <= i < tail.len() && completion_in(#[trigger] tail[i]);
                assert(completion_in(payloads[i + 1]));
            }
            if exists|i: int| 0 <= i < payloads.len() && completion_in(#[trigger] payloads[i]) {
                let i = choose|i: int|
                    0 <= i < payloads.len() && completion_in(#[trigger] payloads[i]);
                if i > 0 {
                    assert(completion_in(tail[i - 1]));
                }
            }
            if exists|i: int| 0 <= i < tail.len() && failure_in(#[trigger] tail[i]) {
                let i = choose|i: int| 0 <= i < tail.len() && failure_in(#[trigger] tail[i]);
                assert(failure_in(payloads[i + 1]));
            }
        }
    }
}

/// What becomes of a reply over several chunks, up to the first error.
pub open spec fn on_chunks(c: ReplyView, chunks: Seq<Seq<u8>>) -> Heard
    decreases chunks.len(),
{
    if chunks.len() == 0 {
        prints(c, Seq::empty())
    } else {
        let first = on_chunk(c, chunks[0]);
        if first.error is Some {
            first
        } else {
            let rest = on_chunks(first.reply, chunks.drop_first());
            Heard { printed: first.printed + rest.printed, ..rest }
        }
    }
}

proof fn lemma_chunks_are_read(c: ReplyView, chunks: Seq<Seq<u8>>)
    requires
        on_chunks(c, chunks).error is None,
    ensures
        ({
            let read = fed(c.decoder, chunks);
            let end = on_chunks(c, chunks).reply;
            &&& read.fault is None
            &&& end.answer == c.answer + answers_in(read.events)
            &&& end.completed <==> c.completed || exists|i: int|
                0 <= i < read.events.len() && completion_in(#[trigger] read.events[i])
        }),
    decreases chunks.len(),
{
    let all = fed(c.decoder, chunks).events;
    if chunks.len() == 0 {
        assert(all.map_values(|data: Seq<char>| answer_in(data)) =~= Seq::empty());
        assert(c.answer + answers_in(all) =~= c.answer);
    } else {
        let first = on_chunk(c, chunks[0]);
        let read = pushed(c.decoder, chunks[0]);
        law_answer_is_every_delta(ReplyView { decoder: read.state, ..c }, read.events);
        lemma_chunks_are_read(first.reply, chunks.drop_first());
        let rest = fed(read.state, chunks.drop_first()).events;
        assert(all == read.events + rest);
        lemma_answers_concat(read.events, rest);
        assert((c.answer + answers_in(read.events)) + answers_in(rest) =~= c.answer + answers_in(
            all,
        ));
        if exists|i: int| 0 <= i < read.events.len() && completion_in(#[trigger] read.events[i]) {
            let i = choose|i: int|
                0 <= i < read.events.len() && completion_in(#[trigger] read.events[i]);
            assert(all[i] == read.events[i]);
        }
        if exists|i: int| 0 <= i < rest.len() && completion_in(#[trigger] rest[i]) {
            let i = choose|i: int| 0 <= i < rest.len() && completion_in(#[trigger] rest[i]);
            assert(all[i + read.events.len()] == rest[i]);
        }
        if exists|i: int| 0 <= i < all.len() && completion_in(#[trigger] all[i]) {
            let i = choose|i: int| 0 <= i < all.len() && completion_in(#[trigger] all[i]);
            if i < read.events.len() {
                assert(completion_in(read.events[i]));
            } else {
                assert(completion_in(rest[i - read.events.len()]));
            }
        }
    }
}

/// The answer of a stream that is read to its end without an error is every
/// piece of it, over all its responses, if one of them completed and there is
/// any; else there is none, and nothing is saved.
pub proof fn law_answer_of_a_stream(chunks: Seq<Seq<u8>>)
    requires
        on_chunks(no_reply(), chunks).error is None,
    ensures
        ({
            let start = SseView { pending: Seq::empty(), lines: Seq::empty() };
            let payloads = fed(start, chunks).events;
            let completed = exists|i: int|
                0 <= i < payloads.len() && completion_in(#[trigger] payloads[i]);
            let answer = answers_in(payloads);
            let end = outcome(on_chunks(no_reply(), chunks).reply);
            &&& completed && answer.len() > 0 ==> end == Ok::<Seq<char>, Seq<char>>(answer)
            &&& !completed || answer.len() == 0 ==> end is Err
        }),
{
    lemma_chunks_are_read(no_reply(), chunks);
    let answer = answers_in(fed(fresh(), chunks).events);
    assert(Seq::<char>::empty() + answer =~= answer);
}

/// Payloads are printed one after the other: what two runs of them print is
/// what the first prints and then the second.
pub proof fn law_payloads_are_printed_in_order(
    c: ReplyView,
    a: Seq<Seq<char>>,
    b: Seq<Seq<char>>,
)
    requires
        on_payloads(c, a).error is None,
    ensures
        ({
            let first = on_payloads(c, a);
            let second = on_payloads(first.reply, b);
            let whole = on_payloads(c, a + b);
            &&& whole.printed == first.printed + second.printed
            &&& whole.reply == second.reply
            &&& whole.error == second.error
        }),
    decreases a.len(),
{
    if a.len() == 0 {
        assert(a + b =~= b);
        let second = on_payloads(c, b);
        assert(Seq::<char>::empty() + second.printed =~= second.printed);
    } else {
        let first = on_payload(c, a[0]);
        assert((a + b)[0] == a[0]);
        assert((a + b).drop_first() =~= a.drop_first() + b);
        law_payloads_are_printed_in_order(first.reply, a.drop_first(), b);
        let mid = on_payloads(first.reply, a.drop_first());
        let second = on_payloads(mid.reply, b);
        assert(first.printed + (mid.printed + second.printed) =~= (first.printed + mid.printed)
            + second.printed);
    }
}

/// A piece of the answer, or of a summary, is printed in full; it stands under
/// a heading of its kind, which is printed once for pieces that follow each
/// other.
pub proof fn law_deltas_are_printed(c: ReplyView, event: JsonView, next: JsonView)
    requires
        carries_answer(event) && carries_answer(next) || carries_reason(event) && carries_reason(
            next,
        ),
    ensures
        ({
            let first = on_event(c, event);
            let second = on_event(first.reply, next);
            let heading = if carries_answer(event) {
                "\nAI\n"@
            } else {
                "\nReasoning summary\n"@
            };
            let delta = event.at("delta"@).text_or(Seq::empty());
            &&& first.printed == delta || first.printed == heading + delta
            &&& second.printed == next.at("delta"@).text_or(Seq::empty())
            &&& c.section == Section::Start ==> first.printed == heading + delta
        }),
{
    lemma_event_kinds();
    reveal_strlit("");
    assert(""@ =~= Seq::<char>::empty());
}

/// After a piece of the other kind, a heading is printed again.
pub proof fn law_headings_alternate(c: ReplyView, answer: JsonView, summary: JsonView)
    requires
        carries_answer(answer),
        carries_reason(summary),
    ensures
        on_event(on_event(c, summary).reply, answer).printed == "\nAI\n"@ + answer.at(
            "delta"@,
        ).text_or(Seq::empty()),
        on_event(on_event(c, answer).reply, summary).printed == "\nReasoning summary\n"@
            + summary.at("delta"@).text_or(Seq::empty()),
{
    lemma_event_kinds();
    reveal_strlit("");
    assert(""@ =~= Seq::<char>::empty());
}

/// The commands that the server runs are shown with their text, and their ends
/// with exit code and time.
pub proof fn law_commands_are_printed(
    c: ReplyView,
    call: JsonView,
    done: JsonView,
    command: Seq<char>,
    exit: i64,
    ms: u64,
)
    requires
        call.at("type"@) == JsonView::Str("exec.call"@),
        call.at("command"@) == JsonView::Str(command),
        done.at("type"@) == JsonView::Str("exec.done"@),
        done.at("exit"@) == JsonView::Int(exit as int),
        done.at("ms"@) == JsonView::Int(ms as int),
    ensures
        on_event(c, call).printed == "\n$ "@ + command + "\n"@,
        on_event(c, done).printed == "[exit "@ + signed_decimal(exit as int) + " · "@
            + signed_decimal(ms as int) + "ms]\n"@,
        on_event(c, call).reply == c,
        on_event(c, done).reply == c,
{
    lemma_event_kinds();
}

/// A history within the server's limits, 21 messages and 24,000 bytes, is sent
/// whole; any other is not.
pub proof fn law_nothing_is_dropped_within_the_limits(messages: Seq<MessageView>)
    ensures
        messages.len() <= 21 && total_bytes(messages) <= 24_000 ==> budgeted(messages) == messages,
        messages.len() >= 2 && (messages.len() > 21 || total_bytes(messages) > 24_000)
            ==> budgeted(messages).len() < messages.len(),
{
    if messages.len() >= 2 && !within_budget(messages) {
        lemma_budgeted_is_shorter(messages.skip(2));
    }
}

proof fn lemma_budgeted_is_shorter(messages: Seq<MessageView>)
    ensures
        budgeted(messages).len() <= messages.len(),
    decreases messages.len(),
{
    if messages.len() >= 2 && !within_budget(messages) {
        lemma_budgeted_is_shorter(messages.skip(2));
    }
}

/// A typed line means its text without the whitespace around it: a command, or
/// something to say if it says anything and has up to 16,000 bytes.
pub proof fn law_what_a_line_means(line: Seq<char>)
    ensures
        ({
            let text = trim(line);
            let command = text == "/exit"@ || text == "/quit"@ || text == "/new"@;
            &&& input_of(line) == InputView::Quit <==> text == "/exit"@ || text == "/quit"@
            &&& input_of(line) == InputView::New <==> text == "/new"@
            &&& input_of(line) == InputView::Nothing <==> text.len() == 0
            &&& input_of(line) == InputView::TooLong <==> !command && utf8_len(text) > 16_000
            &&& input_of(line) == InputView::Say(text) <==> !command && text.len() > 0 && utf8_len(
                text,
            ) <= 16_000
            &&& input_of(line) matches InputView::Say(said) ==> said == text
        }),
{
    reveal_strlit("/exit");
    reveal_strlit("/quit");
    reveal_strlit("/new");
    assert("/exit"@.len() == 5 && "/quit"@.len() == 5 && "/new"@.len() == 4);
    assert(trim(line).len() == 0 ==> utf8_len(trim(line)) == 0);
}

/// The end of a response prints both token counts, as JSON writes them.
pub proof fn law_usage_is_printed(c: ReplyView, event: JsonView)
    requires
        event.at("type"@) == JsonView::Str("response.completed"@),
    ensures
        on_event(c, event).printed == "\n\n["@ + json_text(
            event.at("response"@).at("usage"@).at("input_tokens"@),
        ) + " input · "@ + json_text(event.at("response"@).at("usage"@).at("output_tokens"@))
            + " output tokens, including reasoning]\n\n"@,
        on_event(c, event).reply.section == c.section,
{
    lemma_event_kinds();
}

/// A refusal is told with its status and with what its body says.
pub proof fn law_refusals_are_told(status: Seq<char>, body: JsonView, message: Seq<char>)
    requires
        body.at("error"@) == JsonView::Str(message),
    ensures
        refused_value(status, body) == status + ": "@ + message,
{
}

/// A request holds every message of the conversation, in order.
pub proof fn law_requests_hold_the_conversation(messages: Seq<MessageView>)
    ensures
        request_value(messages).at("messages"@) == JsonView::Array(message_values(messages)),
{
}

} // verus!
