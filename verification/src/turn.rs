//! One chat turn: the loop of model responses and tool runs, as a machine that
//! is told what happened and says what to send, what to show, and what it
//! waits for.

use vstd::prelude::*;
use vstd::slice::slice_to_vec;
use std::time::Instant;
use crate::chat::chat_payload;
use crate::chat::chat_request;
use crate::clock::elapsed_reading;
use crate::feed::{copy_items, TapFeed};
use crate::events::completion_in;
use crate::feed::{
    all_readings, chunk_payloads, fed_chunk, fed_chunk_at, finished, last_output,
    law_completed_by_its_own_event, on_payloads, quiet, RoundView,
};
use crate::json::Json;
use crate::json::{items_view, json_parsed, json_text, JsonView};
use crate::messages::{message_jsons, Message};
use crate::messages::{message_values, message_views};
use crate::sse::{sse_error, sse_event, sse_ping, SseDecoder};
use crate::sse::{error_value, event_frame, fed, fresh, pushed, texts, SseView};
use crate::text::{decimal_text, same, signed_text};
use crate::text::{decimal, signed_decimal};
use vstd::utf8::encode_utf8;

verus! {

/// At most this many model responses per chat request: enough for real tool
/// chains, bounded against runaway loops.
pub const MAX_TOOL_ROUNDS: u8 = 8;

/// What a turn does to the world.
pub enum Effect {
    /// Bytes for the client.
    Send(Vec<u8>),
    /// A line for the tap.
    Show(String),
}

/// What an [`Effect`] holds.
pub enum EffectView {
    Send(Seq<u8>),
    Show(Seq<char>),
}

impl View for Effect {
    type V = EffectView;

    open spec fn view(&self) -> EffectView {
        match self {
            Effect::Send(bytes) => EffectView::Send(bytes@),
            Effect::Show(line) => EffectView::Show(line@),
        }
    }
}

/// What each effect holds.
pub open spec fn effect_views(effects: Seq<Effect>) -> Seq<EffectView> {
    effects.map_values(|e: Effect| e@)
}

/// Lines, shown one after the other.
pub open spec fn shown_lines(lines: Seq<Seq<char>>) -> Seq<EffectView> {
    lines.map_values(|line: Seq<char>| EffectView::Show(line))
}

/// A frame, sent.
pub open spec fn sent(frame: Seq<char>) -> EffectView {
    EffectView::Send(encode_utf8(frame))
}

/// What a turn is told.
pub enum TurnEvent {
    /// The model's response begins; whether a twin request was needed, and how
    /// long it took.
    Started { hedged: bool, waited_ms: u64 },
    /// The model could not be asked.
    Refused,
    /// A piece of the response.
    Chunk(Vec<u8>),
    /// The end of the response.
    Ended,
    /// The response broke off.
    Interrupted,
    /// Nothing came for a while.
    Tick,
    /// The command has run.
    Ran { code: i32, output: String, ms: u64 },
}

/// What a [`TurnEvent`] holds.
pub enum TurnEventView {
    Started { hedged: bool, waited_ms: u64 },
    Refused,
    Chunk(Seq<u8>),
    Ended,
    Interrupted,
    Tick,
    Ran { code: i32, output: Seq<char>, ms: u64 },
}

impl View for TurnEvent {
    type V = TurnEventView;

    open spec fn view(&self) -> TurnEventView {
        match self {
            TurnEvent::Started { hedged, waited_ms } => TurnEventView::Started {
                hedged: *hedged,
                waited_ms: *waited_ms,
            },
            TurnEvent::Refused => TurnEventView::Refused,
            TurnEvent::Chunk(bytes) => TurnEventView::Chunk(bytes@),
            TurnEvent::Ended => TurnEventView::Ended,
            TurnEvent::Interrupted => TurnEventView::Interrupted,
            TurnEvent::Tick => TurnEventView::Tick,
            TurnEvent::Ran { code, output, ms } => TurnEventView::Ran {
                code: *code,
                output: output@,
                ms: *ms,
            },
        }
    }
}

/// What a turn waits for.
pub enum TurnAction {
    /// The response to a request.
    Ask(Json),
    /// More of the response.
    Read,
    /// The end of a command.
    Run(String),
    /// Nothing: the turn is over.
    Stop,
}

/// What a [`TurnAction`] holds.
pub enum TurnActionView {
    Ask(JsonView),
    Read,
    Run(Seq<char>),
    Stop,
}

impl View for TurnAction {
    type V = TurnActionView;

    open spec fn view(&self) -> TurnActionView {
        match self {
            TurnAction::Ask(payload) => TurnActionView::Ask(payload@),
            TurnAction::Read => TurnActionView::Read,
            TurnAction::Run(command) => TurnActionView::Run(command@),
            TurnAction::Stop => TurnActionView::Stop,
        }
    }
}

/// The phases of a turn.
#[derive(Clone, Copy, Debug, PartialEq, Eq, Structural)]
pub enum Phase {
    Asking,
    Reading,
    Running,
    Stopped,
}

/// One chat turn.
pub struct Turn {
    model: String,
    phase: Phase,
    /// Model responses so far.
    round: u8,
    /// What the model is asked next: at first the conversation, later the last
    /// response's output and the answers to its calls.
    input: Vec<Json>,
    /// The calls that still have to run, as call id and command, last first.
    calls: Vec<(String, String)>,
    decoder: SseDecoder,
    feed: TapFeed,
    output_items: Vec<Json>,
    completed: bool,
}

/// What a [`Turn`] holds, but for its clock; the next call comes first.
#[verifier::ext_equal]
pub struct TurnView {
    pub model: Seq<char>,
    pub phase: Phase,
    pub round: int,
    pub input: Seq<JsonView>,
    pub calls: Seq<(Seq<char>, Seq<char>)>,
    pub decoder: SseView,
    pub progress: RoundView,
}

/// Call id and command of each call.
pub open spec fn call_views(calls: Seq<(String, String)>) -> Seq<(Seq<char>, Seq<char>)> {
    calls.map_values(|c: (String, String)| (c.0@, c.1@))
}

impl View for Turn {
    type V = TurnView;

    closed spec fn view(&self) -> TurnView {
        TurnView {
            model: self.model@,
            phase: self.phase,
            round: self.round as int,
            input: items_view(self.input@),
            calls: call_views(self.calls@).reverse(),
            decoder: self.decoder@,
            progress: RoundView {
                feed: self.feed@,
                output: items_view(self.output_items@),
                completed: self.completed,
            },
        }
    }
}

/// A response of which nothing has come yet.
pub open spec fn no_progress() -> RoundView {
    RoundView { feed: quiet(), output: Seq::empty(), completed: false }
}

/// A turn that can arise: the model is asked only below the limit, and a
/// command is awaited only where there is one.
pub open spec fn turn_sound(t: TurnView) -> bool {
    &&& 0 <= t.round <= MAX_TOOL_ROUNDS
    &&& t.phase == Phase::Asking ==> t.round < MAX_TOOL_ROUNDS
    &&& t.phase == Phase::Running ==> t.calls.len() > 0
}

/// What a turn waits for.
pub open spec fn awaited(t: TurnView) -> TurnActionView {
    match t.phase {
        Phase::Asking => TurnActionView::Ask(chat_request(t.model, t.input)),
        Phase::Reading => TurnActionView::Read,
        Phase::Running => TurnActionView::Run(t.calls[0].1),
        Phase::Stopped => TurnActionView::Stop,
    }
}

/// A function call among the output items: its id and its arguments. A call
/// without an id is malformed and ignored.
pub open spec fn call_of(item: JsonView) -> Option<(Seq<char>, Seq<char>)> {
    if item.field_text("type"@) == Some("function_call"@) {
        match item.field_text("call_id"@) {
            Some(id) => Some((id, item.at("arguments"@).text_or("{}"@))),
            None => None,
        }
    } else {
        None
    }
}

/// The command that a call's arguments ask for; none where they ask for none.
pub open spec fn command_of(arguments: Seq<char>) -> Seq<char> {
    match json_parsed(arguments) {
        Ok(args) => args.at("command"@).text_or(Seq::empty()),
        Err(_) => Seq::empty(),
    }
}

/// The calls among the output items, in order, as id and command.
pub open spec fn calls_of(items: Seq<JsonView>) -> Seq<(Seq<char>, Seq<char>)>
    decreases items.len(),
{
    if items.len() == 0 {
        Seq::empty()
    } else {
        let before = calls_of(items.drop_last());
        match call_of(items.last()) {
            Some(call) => before.push((call.0, command_of(call.1))),
            None => before,
        }
    }
}

/// The event that announces a command.
pub open spec fn exec_call_value(command: Seq<char>) -> JsonView {
    JsonView::Object(
        map!["type"@ => JsonView::Str("exec.call"@), "command"@ => JsonView::Str(command)],
    )
}

/// The event that reports the end of a command.
pub open spec fn exec_done_value(code: i32, ms: u64) -> JsonView {
    JsonView::Object(
        map![
            "type"@ => JsonView::Str("exec.done"@),
            "exit"@ => JsonView::Int(code as int),
            "ms"@ => JsonView::Int(ms as int),
        ],
    )
}

/// The item that answers a function call.
pub open spec fn answer_value(call_id: Seq<char>, output: Seq<char>) -> JsonView {
    JsonView::Object(
        map![
            "type"@ => JsonView::Str("function_call_output"@),
            "call_id"@ => JsonView::Str(call_id),
            "output"@ => JsonView::Str(output),
        ],
    )
}

/// The effects of beginning a command.
pub open spec fn announced(command: Seq<char>) -> Seq<EffectView> {
    seq![
        sent(event_frame(json_text(exec_call_value(command)))),
        EffectView::Show("$ "@ + command),
    ]
}

/// The frame that reports an error to the client.
pub open spec fn error_frame(message: Seq<char>) -> Seq<char> {
    "event: error\ndata: "@ + json_text(error_value(message)) + "\n\n"@
}

/// A turn that ends with an error: a line for the tap, and a frame.
pub open spec fn broken_off(t: TurnView, line: Seq<char>, message: Seq<char>) -> (
    TurnView,
    Seq<EffectView>,
) {
    (
        TurnView { phase: Phase::Stopped, ..t },
        seq![EffectView::Show(line), sent(error_frame(message))],
    )
}

pub open spec fn on_started(t: TurnView, hedged: bool, waited_ms: u64) -> (
    TurnView,
    Seq<EffectView>,
) {
    (
        TurnView {
            phase: Phase::Reading,
            round: t.round + 1,
            decoder: fresh(),
            progress: no_progress(),
            ..t
        },
        if hedged {
            seq![
                EffectView::Show(
                    "⇄ hedged retry fired (+"@ + decimal(waited_ms as nat) + "ms hedge)"@,
                ),
            ]
        } else {
            Seq::empty()
        },
    )
}

/// The end of a response: what was collected is shown, and its calls begin.
/// Without a call, or where the response is not complete, the turn is over.
pub open spec fn on_round_end(t: TurnView) -> (TurnView, Seq<EffectView>) {
    let end = finished(t.progress.feed);
    let calls = calls_of(t.progress.output);
    let progress = RoundView { feed: end.0, ..t.progress };
    if calls.len() == 0 || !t.progress.completed {
        (TurnView { phase: Phase::Stopped, progress, ..t }, shown_lines(end.1))
    } else {
        (
            TurnView { phase: Phase::Running, input: t.progress.output, calls, progress, ..t },
            shown_lines(end.1) + announced(calls[0].1),
        )
    }
}

/// A piece of the response that led to `progress` and to `lines`: the lines
/// are shown, the bytes go out verbatim, and a response that is now complete
/// ends without waiting for the stream to do so.
pub open spec fn on_chunk(
    t: TurnView,
    bytes: Seq<u8>,
    progress: RoundView,
    lines: Seq<Seq<char>>,
) -> (TurnView, Seq<EffectView>) {
    let read = TurnView { decoder: pushed(t.decoder, bytes).state, progress, ..t };
    let passed = shown_lines(lines).push(EffectView::Send(bytes));
    if progress.completed {
        let end = on_round_end(read);
        (end.0, passed + end.1)
    } else {
        (read, passed)
    }
}

/// The end of a command: it is reported, its output answers the call, and the
/// next call begins. After the last one the model is asked again, below the
/// limit.
pub open spec fn on_ran(t: TurnView, code: i32, output: Seq<char>, ms: u64) -> (
    TurnView,
    Seq<EffectView>,
) {
    let input = t.input.push(answer_value(t.calls[0].0, output));
    let calls = t.calls.drop_first();
    let done = seq![
        sent(event_frame(json_text(exec_done_value(code, ms)))),
        EffectView::Show(
            "[exit "@ + signed_decimal(code as int) + " · "@ + decimal(ms as nat) + "ms]"@,
        ),
    ];
    let next = TurnView { input, calls, ..t };
    if calls.len() > 0 {
        (next, done + announced(calls[0].1))
    } else if t.round >= MAX_TOOL_ROUNDS {
        let end = broken_off(
            next,
            "! stopped after 8 tool steps"@,
            "Stopped after 8 tool steps. Ask in smaller pieces."@,
        );
        (end.0, done + end.1)
    } else {
        (TurnView { phase: Phase::Asking, ..next }, done)
    }
}

/// Whether a piece of the response leads to `progress` and to `lines`, and
/// these to the turn `after` and to `effects`.
pub open spec fn chunk_step(
    since: Instant,
    t: TurnView,
    bytes: Seq<u8>,
    progress: RoundView,
    lines: Seq<Seq<char>>,
    after: TurnView,
    effects: Seq<EffectView>,
) -> bool {
    &&& fed_chunk(since, t.progress, chunk_payloads(t.decoder, bytes), progress, lines)
    &&& (after, effects) == on_chunk(t, bytes, progress, lines)
}

/// Whether a piece of the response leads to the turn `after` and to `effects`.
/// What is not determined is how long after `since` a line says that it comes.
pub open spec fn chunk_steps(
    since: Instant,
    t: TurnView,
    bytes: Seq<u8>,
    after: TurnView,
    effects: Seq<EffectView>,
) -> bool {
    exists|progress: RoundView, lines: Seq<Seq<char>>|
        chunk_step(since, t, bytes, progress, lines, after, effects)
}

/// What an event does to a turn whose times count from `since`. An event that
/// the phase does not wait for does nothing.
pub open spec fn turn_step(
    since: Instant,
    t: TurnView,
    event: TurnEventView,
    after: TurnView,
    effects: Seq<EffectView>,
) -> bool {
    match (t.phase, event) {
        (Phase::Asking, TurnEventView::Started { hedged, waited_ms }) => (after, effects)
            == on_started(t, hedged, waited_ms),
        (Phase::Asking, TurnEventView::Refused) => (after, effects) == broken_off(
            t,
            "! follow-up model request failed"@,
            "The model request failed. Please try again."@,
        ),
        (Phase::Reading, TurnEventView::Chunk(bytes)) => chunk_steps(
            since,
            t,
            bytes,
            after,
            effects,
        ),
        (Phase::Reading, TurnEventView::Ended) => (after, effects) == on_round_end(t),
        (Phase::Reading, TurnEventView::Interrupted) => (after, effects) == broken_off(
            t,
            "! upstream stream interrupted"@,
            "Upstream stream interrupted; please retry."@,
        ),
        (Phase::Reading, TurnEventView::Tick) => (after, effects) == (
            t,
            seq![sent(": ping\n\n"@)],
        ),
        (Phase::Running, TurnEventView::Ran { code, output, ms }) => (after, effects) == on_ran(
            t,
            code,
            output,
            ms,
        ),
        _ => (after, effects) == (t, Seq::<EffectView>::empty()),
    }
}

fn send(frame: String) -> (r: Effect)
    ensures
        r@ == sent(frame@),
{
    Effect::Send(slice_to_vec(frame.as_str().as_bytes()))
}

fn show(line: &str) -> (r: Effect)
    ensures
        r@ == EffectView::Show(line@),
{
    Effect::Show(line.to_owned())
}

/// Lines as effects.
fn show_all(lines: Vec<String>) -> (r: Vec<Effect>)
    ensures
        effect_views(r@) == shown_lines(texts(lines@)),
{
    let mut out: Vec<Effect> = Vec::new();
    let mut i: usize = 0;
    while i < lines.len()
        invariant
            i <= lines@.len(),
            effect_views(out@) == shown_lines(texts(lines@)).take(i as int),
        decreases lines@.len() - i,
    {
        let ghost before = effect_views(out@);
        let effect = show(lines[i].as_str());
        out.push(effect);
        assert(effect_views(out@) =~= before.push(effect@));
        assert(shown_lines(texts(lines@)).take(i + 1) =~= shown_lines(texts(lines@)).take(
            i as int,
        ).push(effect@));
        i = i + 1;
    }
    assert(shown_lines(texts(lines@)).take(i as int) =~= shown_lines(texts(lines@)));
    out
}

fn announce(command: &str, out: &mut Vec<Effect>)
    ensures
        effect_views(final(out)@) == effect_views(old(out)@) + announced(command@),
{
    let ghost before = effect_views(out@);
    let value = Json::object().with("type", Json::string("exec.call")).with(
        "command",
        Json::string(command),
    );
    assert(value@ == exec_call_value(command@));
    out.push(send(sse_event(&value)));
    let mut line = "$ ".to_owned();
    line.append(command);
    out.push(Effect::Show(line));
    assert(effect_views(out@) =~= before + announced(command@));
}

fn break_off(line: &str, message: &str, out: &mut Vec<Effect>)
    ensures
        effect_views(final(out)@) == effect_views(old(out)@) + seq![
            EffectView::Show(line@),
            sent(error_frame(message@)),
        ],
{
    let ghost before = effect_views(out@);
    out.push(show(line));
    out.push(send(sse_error(message)));
    assert(effect_views(out@) =~= before + seq![
        EffectView::Show(line@),
        sent(error_frame(message@)),
    ]);
}

/// The command that a call's arguments ask for.
pub fn command_text(arguments: &str) -> (r: String)
    ensures
        r@ == command_of(arguments@),
{
    if let Ok(args) = Json::parse(arguments) {
        if let Some(command) = args.get_str("command") {
            return command.to_owned();
        }
    }
    let none = String::new();
    assert(none@ =~= command_of(arguments@));
    none
}

/// The call that an output item is, as id and command.
fn call_in(item: &Json) -> (r: Option<(String, String)>)
    ensures
        match r {
            Some(call) => call_of(item@) matches Some(c) && call.0@ == c.0 && call.1@
                == command_of(c.1),
            None => call_of(item@) is None,
        },
{
    let is_call = match item.get_str("type") {
        Some(kind) => same(kind, "function_call"),
        None => false,
    };
    if !is_call {
        return None;
    }
    let id = match item.get_str("call_id") {
        Some(id) => id.to_owned(),
        None => return None,
    };
    let command = match item.get_str("arguments") {
        Some(arguments) => command_text(arguments),
        None => command_text("{}"),
    };
    Some((id, command))
}

/// The calls among the output items, last first.
fn collect_calls(items: &Vec<Json>) -> (r: Vec<(String, String)>)
    ensures
        call_views(r@).reverse() == calls_of(items_view(items@)),
{
    let ghost all = items_view(items@);
    let mut out: Vec<(String, String)> = Vec::new();
    let mut i: usize = items.len();
    let ghost mut tail: Seq<(Seq<char>, Seq<char>)> = Seq::empty();
    assert(all.take(i as int) =~= all);
    assert(calls_of(all) =~= calls_of(all) + tail);
    while i > 0
        invariant
            i <= items@.len(),
            all == items_view(items@),
            call_views(out@).reverse() == tail,
            calls_of(all) == calls_of(all.take(i as int)) + tail,
        decreases i,
    {
        i = i - 1;
        assert(all.take(i + 1).drop_last() =~= all.take(i as int));
        assert(all.take(i + 1).last() == items@[i as int]@);
        if let Some(call) = call_in(&items[i]) {
            let ghost c = (call.0@, call.1@);
            let ghost before = out@;
            out.push(call);
            proof {
                let front = calls_of(all.take(i as int));
                assert(front.push(c) + tail =~= front + (seq![c] + tail));
                assert(call_views(out@) =~= call_views(before).push(c));
                assert(call_views(out@).reverse() =~= seq![c] + tail);
                tail = seq![c] + tail;
            }
        }
    }
    assert(calls_of(all) =~= tail);
    out
}

impl Turn {
    /// The zero of the times that are shown: when the first response began.
    pub closed spec fn since(&self) -> Instant {
        self.feed.since()
    }

    /// A turn that answers a conversation.
    pub fn new(model: &str, messages: &Vec<Message>) -> (r: Turn)
        ensures
            r@ == (TurnView {
                model: model@,
                phase: Phase::Asking,
                round: 0,
                input: message_values(message_views(messages@)),
                calls: Seq::empty(),
                decoder: fresh(),
                progress: no_progress(),
            }),
            turn_sound(r@),
    {
        let r = Turn {
            model: model.to_owned(),
            phase: Phase::Asking,
            round: 0,
            input: message_jsons(messages),
            calls: Vec::new(),
            decoder: SseDecoder::default(),
            feed: TapFeed::new(Instant::now()),
            output_items: Vec::new(),
            completed: false,
        };
        assert(r@.calls =~= Seq::empty());
        assert(r@.progress.output =~= Seq::empty());
        r
    }

    /// What the turn waits for.
    pub fn awaits(&self) -> (r: TurnAction)
        requires
            turn_sound(self@),
        ensures
            r@ == awaited(self@),
    {
        match self.phase {
            Phase::Asking => TurnAction::Ask(chat_payload(self.model.as_str(), &self.input)),
            Phase::Reading => TurnAction::Read,
            Phase::Running => {
                assert(self@.calls[0].1 == self.calls@[self.calls@.len() - 1].1@);
                TurnAction::Run(self.calls[self.calls.len() - 1].1.clone())
            },
            Phase::Stopped => TurnAction::Stop,
        }
    }

    /// Ends the response that is being read.
    fn end_round(&mut self, out: &mut Vec<Effect>)
        requires
            turn_sound(old(self)@),
            old(self)@.phase == Phase::Reading,
        ensures
            final(self)@ == on_round_end(old(self)@).0,
            effect_views(final(out)@) == effect_views(old(out)@) + on_round_end(old(self)@).1,
            turn_sound(final(self)@),
            final(self).since() == old(self).since(),
    {
        let ghost t = self@;
        let lines = self.feed.finish();
        let mut shown = show_all(lines);
        let ghost before = effect_views(out@);
        let ghost more = effect_views(shown@);
        out.append(&mut shown);
        assert(effect_views(out@) =~= before + more);
        let calls = collect_calls(&self.output_items);
        if calls.is_empty() || !self.completed {
            assert(calls_of(t.progress.output).len() == calls@.len());
            self.phase = Phase::Stopped;
        } else {
            assert(calls_of(t.progress.output).len() == calls@.len());
            self.phase = Phase::Running;
            self.input = copy_items(&self.output_items);
            self.calls = calls;
            let last: usize = self.calls.len() - 1;
            assert(self@.calls[0].1 == self.calls@[last as int].1@);
            announce(self.calls[last].1.as_str(), out);
            assert(effect_views(out@) =~= before + on_round_end(t).1);
        }
        assert(self@ =~= on_round_end(t).0);
    }

    /// Tells the turn what happened; gives what to send and to show, in order.
    pub fn step(&mut self, event: TurnEvent) -> (effects: Vec<Effect>)
        requires
            turn_sound(old(self)@),
        ensures
            turn_step(
                old(self).since(),
                old(self)@,
                event@,
                final(self)@,
                effect_views(effects@),
            ),
            turn_sound(final(self)@),
            old(self)@.round > 0 || !(event is Started) ==> final(self).since() == old(
                self,
            ).since(),
    {
        let mut out: Vec<Effect> = Vec::new();
        let ghost t = self@;
        let ghost since = self.since();
        assert(effect_views(out@) =~= Seq::empty());
        match (self.phase, event) {
            (Phase::Asking, TurnEvent::Started { hedged, waited_ms }) => {
                let zero = if self.round == 0 {
                    Instant::now()
                } else {
                    self.feed.received()
                };
                self.phase = Phase::Reading;
                self.round = self.round + 1;
                self.decoder = SseDecoder::default();
                self.feed = TapFeed::new(zero);
                self.output_items = Vec::new();
                self.completed = false;
                assert(self@.progress.output =~= Seq::empty());
                if hedged {
                    let mut line = "⇄ hedged retry fired (+".to_owned();
                    line.append(decimal_text(waited_ms as u128).as_str());
                    line.append("ms hedge)");
                    out.push(Effect::Show(line));
                }
                assert(effect_views(out@) =~= on_started(t, hedged, waited_ms).1);
                assert(self@ =~= on_started(t, hedged, waited_ms).0);
            },
            (Phase::Asking, TurnEvent::Refused) => {
                self.phase = Phase::Stopped;
                break_off(
                    "! follow-up model request failed",
                    "The model request failed. Please try again.",
                    &mut out,
                );
                assert(effect_views(out@) =~= broken_off(
                    t,
                    "! follow-up model request failed"@,
                    "The model request failed. Please try again."@,
                ).1);
            },
            (Phase::Reading, TurnEvent::Chunk(bytes)) => {
                let lines = self.feed.feed(
                    &mut self.decoder,
                    bytes.as_slice(),
                    &mut self.output_items,
                    &mut self.completed,
                );
                let ghost progress = self@.progress;
                let ghost said = texts(lines@);
                let ghost passed = shown_lines(said).push(EffectView::Send(bytes@));
                assert(fed_chunk(
                    since,
                    t.progress,
                    chunk_payloads(t.decoder, bytes@),
                    progress,
                    said,
                ));
                out = show_all(lines);
                out.push(Effect::Send(bytes));
                assert(effect_views(out@) =~= passed);
                if self.completed {
                    self.end_round(&mut out);
                }
                assert(self@ =~= on_chunk(t, bytes@, progress, said).0);
                assert(effect_views(out@) =~= on_chunk(t, bytes@, progress, said).1);
                assert(chunk_step(since, t, bytes@, progress, said, self@, effect_views(out@)));
            },
            (Phase::Reading, TurnEvent::Ended) => {
                self.end_round(&mut out);
                assert(effect_views(out@) =~= on_round_end(t).1);
            },
            (Phase::Reading, TurnEvent::Interrupted) => {
                self.phase = Phase::Stopped;
                break_off(
                    "! upstream stream interrupted",
                    "Upstream stream interrupted; please retry.",
                    &mut out,
                );
                assert(effect_views(out@) =~= broken_off(
                    t,
                    "! upstream stream interrupted"@,
                    "Upstream stream interrupted; please retry."@,
                ).1);
            },
            (Phase::Reading, TurnEvent::Tick) => {
                out.push(send(sse_ping()));
                assert(effect_views(out@) =~= seq![sent(": ping\n\n"@)]);
            },
            (Phase::Running, TurnEvent::Ran { code, output, ms }) => {
                self.end_command(code, output, ms, &mut out);
                assert(effect_views(out@) =~= on_ran(t, code, output@, ms).1);
            },
            _ => {},
        }
        out
    }

    /// Ends the command that is running.
    fn end_command(&mut self, code: i32, output: String, ms: u64, out: &mut Vec<Effect>)
        requires
            turn_sound(old(self)@),
            old(self)@.phase == Phase::Running,
        ensures
            final(self)@ == on_ran(old(self)@, code, output@, ms).0,
            effect_views(final(out)@) == effect_views(old(out)@) + on_ran(
                old(self)@,
                code,
                output@,
                ms,
            ).1,
            turn_sound(final(self)@),
            final(self).since() == old(self).since(),
    {
        let ghost t = self@;
        let ghost calls = self.calls@;
        let ghost before = effect_views(out@);
        assert(t.calls.len() == calls.len());
        assert(t.calls[0].0 == calls[calls.len() - 1].0@);
        let done = Json::object().with("type", Json::string("exec.done")).with(
            "exit",
            Json::Signed(code as i64),
        ).with("ms", Json::Unsigned(ms));
        assert(done@ == exec_done_value(code, ms));
        out.push(send(sse_event(&done)));
        let mut line = "[exit ".to_owned();
        line.append(signed_text(code as i64).as_str());
        line.append(" · ");
        line.append(decimal_text(ms as u128).as_str());
        line.append("ms]");
        out.push(Effect::Show(line));
        let ghost reported = seq![
            sent(event_frame(json_text(exec_done_value(code, ms)))),
            EffectView::Show(line@),
        ];
        assert(effect_views(out@) =~= before + reported);
        if let Some(call) = self.calls.pop() {
            let answer = Json::object().with("type", Json::string("function_call_output")).with(
                "call_id",
                Json::Str(call.0),
            ).with("output", Json::Str(output));
            assert(answer@ == answer_value(t.calls[0].0, output@));
            let ghost input = items_view(self.input@);
            self.input.push(answer);
            assert(items_view(self.input@) =~= input.push(answer@));
        }
        assert(self@.calls =~= t.calls.drop_first());
        let left: usize = self.calls.len();
        if left > 0 {
            assert(self@.calls[0].1 == self.calls@[left - 1].1@);
            announce(self.calls[left - 1].1.as_str(), out);
            assert(effect_views(out@) =~= before + on_ran(t, code, output@, ms).1);
        } else if self.round >= MAX_TOOL_ROUNDS {
            self.phase = Phase::Stopped;
            break_off(
                "! stopped after 8 tool steps",
                "Stopped after 8 tool steps. Ask in smaller pieces.",
                out,
            );
            assert(effect_views(out@) =~= before + on_ran(t, code, output@, ms).1);
        } else {
            self.phase = Phase::Asking;
        }
        assert(self@ =~= on_ran(t, code, output@, ms).0);
    }
}

/// Whether the states follow each other by the events, with these effects, in
/// a turn whose times count from `since`.
pub open spec fn turn_run(
    since: Instant,
    states: Seq<TurnView>,
    events: Seq<TurnEventView>,
    effects: Seq<Seq<EffectView>>,
) -> bool {
    &&& states.len() == events.len() + 1
    &&& effects.len() == events.len()
    &&& forall|i: int|
        0 <= i < events.len() ==> turn_step(
            since,
            states[i],
            #[trigger] events[i],
            states[i + 1],
            effects[i],
        )
}

/// The number of model responses that begin in the course of a run.
pub open spec fn responses(states: Seq<TurnView>, events: Seq<TurnEventView>) -> nat
    decreases events.len(),
{
    if events.len() == 0 {
        0
    } else {
        let k = events.len() - 1;
        responses(states, events.drop_last()) + if states[k].phase == Phase::Asking && events[k]
            is Started {
            1nat
        } else {
            0nat
        }
    }
}

proof fn lemma_step_sound(
    since: Instant,
    t: TurnView,
    event: TurnEventView,
    after: TurnView,
    effects: Seq<EffectView>,
)
    requires
        turn_sound(t),
        turn_step(since, t, event, after, effects),
    ensures
        turn_sound(after),
        after.round == t.round + if t.phase == Phase::Asking && event is Started {
            1int
        } else {
            0int
        },
{
}

proof fn lemma_run_counts(
    since: Instant,
    states: Seq<TurnView>,
    events: Seq<TurnEventView>,
    effects: Seq<Seq<EffectView>>,
)
    requires
        turn_run(since, states, events, effects),
        turn_sound(states[0]),
    ensures
        turn_sound(states.last()),
        states.last().round == states[0].round + responses(states, events),
    decreases events.len(),
{
    if events.len() > 0 {
        let k = events.len() - 1;
        let s = states.drop_last();
        let e = events.drop_last();
        let f = effects.drop_last();
        assert forall|i: int| 0 <= i < e.len() implies turn_step(
            since,
            s[i],
            #[trigger] e[i],
            s[i + 1],
            f[i],
        ) by {
            assert(turn_step(since, states[i], events[i], states[i + 1], effects[i]));
        }
        lemma_run_counts(since, s, e, f);
        lemma_responses_prefix(states, e);
        assert(turn_step(since, states[k], events[k], states[k + 1], effects[k]));
        lemma_step_sound(since, states[k], events[k], states[k + 1], effects[k]);
    }
}

/// A state after the last event does not count.
proof fn lemma_responses_prefix(states: Seq<TurnView>, events: Seq<TurnEventView>)
    requires
        events.len() < states.len(),
    ensures
        responses(states.drop_last(), events) == responses(states, events),
    decreases events.len(),
{
    if events.len() > 0 {
        lemma_responses_prefix(states, events.drop_last());
    }
}

/// However a turn goes, it takes no more model responses than the limit
/// allows, and stays sound.
pub proof fn law_responses_are_bounded(
    since: Instant,
    states: Seq<TurnView>,
    events: Seq<TurnEventView>,
    effects: Seq<Seq<EffectView>>,
)
    requires
        turn_run(since, states, events, effects),
        turn_sound(states[0]),
    ensures
        responses(states, events) <= MAX_TOOL_ROUNDS,
        turn_sound(states.last()),
{
    lemma_run_counts(since, states, events, effects);
}

/// A turn that is over does nothing more, whatever happens.
pub proof fn law_stopped_turn_is_silent(
    since: Instant,
    t: TurnView,
    event: TurnEventView,
    after: TurnView,
    effects: Seq<EffectView>,
)
    requires
        t.phase == Phase::Stopped,
        turn_step(since, t, event, after, effects),
    ensures
        after == t,
        effects == Seq::<EffectView>::empty(),
{
}

/// What the client receives by some effects.
pub open spec fn wire(effects: Seq<EffectView>) -> Seq<u8>
    decreases effects.len(),
{
    if effects.len() == 0 {
        Seq::empty()
    } else {
        match effects[0] {
            EffectView::Send(bytes) => bytes + wire(effects.drop_first()),
            EffectView::Show(_) => wire(effects.drop_first()),
        }
    }
}

proof fn lemma_wire_lines(lines: Seq<Seq<char>>, more: Seq<EffectView>)
    ensures
        wire(shown_lines(lines) + more) == wire(more),
    decreases lines.len(),
{
    if lines.len() == 0 {
        assert(shown_lines(lines) + more =~= more);
    } else {
        lemma_wire_lines(lines.drop_first(), more);
        assert((shown_lines(lines) + more).drop_first() =~= shown_lines(lines.drop_first()) + more);
    }
}

/// The client receives every piece of a response verbatim, ahead of what the
/// server adds; and nothing but it, as long as the response goes on.
pub proof fn law_chunks_go_out_verbatim(
    since: Instant,
    t: TurnView,
    bytes: Seq<u8>,
    after: TurnView,
    effects: Seq<EffectView>,
)
    requires
        t.phase == Phase::Reading,
        turn_step(since, t, TurnEventView::Chunk(bytes), after, effects),
    ensures
        bytes.is_prefix_of(wire(effects)),
        after.phase == Phase::Reading ==> wire(effects) == bytes,
{
    let (progress, lines) = choose|progress: RoundView, lines: Seq<Seq<char>>|
        chunk_step(since, t, bytes, progress, lines, after, effects);
    let read = TurnView { decoder: pushed(t.decoder, bytes).state, progress, ..t };
    let more = if progress.completed {
        on_round_end(read).1
    } else {
        Seq::empty()
    };
    let tail = seq![EffectView::Send(bytes)] + more;
    assert(effects =~= shown_lines(lines) + tail);
    lemma_wire_lines(lines, tail);
    assert(tail.drop_first() =~= more);
    assert(wire(tail) == bytes + wire(more));
    assert((bytes + wire(more)).subrange(0, bytes.len() as int) =~= bytes);
    if !progress.completed {
        assert(bytes + wire(more) =~= bytes);
    }
}

/// A turn after several commands have run, one after the other.
pub open spec fn after_runs(t: TurnView, results: Seq<(i32, Seq<char>, u64)>) -> TurnView
    decreases results.len(),
{
    if results.len() == 0 {
        t
    } else {
        let r = results[0];
        after_runs(on_ran(t, r.0, r.1, r.2).0, results.drop_first())
    }
}

/// The items that answer calls.
pub open spec fn answers(
    calls: Seq<(Seq<char>, Seq<char>)>,
    results: Seq<(i32, Seq<char>, u64)>,
) -> Seq<JsonView> {
    Seq::new(calls.len(), |i: int| answer_value(calls[i].0, results[i].1))
}

/// Every call of a response is answered by the output of its command, under
/// its own id and in order; then the model is asked again with the response's
/// output and these answers, unless the limit is reached.
pub proof fn law_calls_are_answered(t: TurnView, results: Seq<(i32, Seq<char>, u64)>)
    requires
        turn_sound(t),
        t.phase == Phase::Running,
        results.len() == t.calls.len(),
    ensures
        after_runs(t, results).input == t.input + answers(t.calls, results),
        after_runs(t, results).phase == if t.round < MAX_TOOL_ROUNDS {
            Phase::Asking
        } else {
            Phase::Stopped
        },
    decreases results.len(),
{
    let r = results[0];
    let next = on_ran(t, r.0, r.1, r.2).0;
    if t.calls.len() == 1 {
        assert(results.drop_first() =~= Seq::empty());
        assert(after_runs(next, results.drop_first()) == next);
        assert(next.input =~= t.input + answers(t.calls, results));
    } else {
        law_calls_are_answered(next, results.drop_first());
        assert(next.input + answers(next.calls, results.drop_first()) =~= t.input + answers(
            t.calls,
            results,
        ));
    }
}

/// When a response begins, nothing is left of an earlier one: nothing waits to
/// be decoded or shown, there is no output, and it is not complete. What the
/// model is asked does not change.
pub proof fn law_response_starts_afresh(
    since: Instant,
    t: TurnView,
    hedged: bool,
    waited_ms: u64,
    after: TurnView,
    effects: Seq<EffectView>,
)
    requires
        t.phase == Phase::Asking,
        turn_step(since, t, TurnEventView::Started { hedged, waited_ms }, after, effects),
    ensures
        after.phase == Phase::Reading,
        after.round == t.round + 1,
        after.model == t.model,
        after.input == t.input,
        after.decoder.pending.len() == 0,
        after.decoder.lines.len() == 0,
        after.progress.output.len() == 0,
        !after.progress.completed,
        after.progress.feed.answer.len() == 0,
        after.progress.feed.reason.len() == 0,
        !after.progress.feed.first_text,
        wire(effects).len() == 0,
        hedged <==> effects.len() == 1,
        effects.len() <= 1,
{
    reveal_with_fuel(wire, 2);
    if hedged {
        assert(effects.drop_first() =~= Seq::empty());
    }
}

/// Whether an output item is a function call that can be answered.
pub open spec fn is_call(item: JsonView) -> bool {
    item.at("type"@) == JsonView::Str("function_call"@) && item.at("call_id"@) is Str
}

/// The command that a function call asks for.
pub open spec fn command_in(item: JsonView) -> Seq<char> {
    match json_parsed(item.at("arguments"@).text_or("{}"@)) {
        Ok(args) => args.at("command"@).text_or(Seq::empty()),
        Err(_) => Seq::empty(),
    }
}

/// The calls of an output are its function calls, all of them and in order,
/// each with its own id and command.
pub proof fn law_calls_are_the_function_calls(items: Seq<JsonView>)
    ensures
        calls_of(items) == items.filter(|item: JsonView| is_call(item)).map_values(
            |item: JsonView| (item.at("call_id"@)->Str_0, command_in(item)),
        ),
    decreases items.len(),
{
    let keep = |item: JsonView| is_call(item);
    let call = |item: JsonView| (item.at("call_id"@)->Str_0, command_in(item));
    reveal(Seq::filter);
    if items.len() > 0 {
        let before = items.drop_last();
        let last = items.last();
        law_calls_are_the_function_calls(before);
        if is_call(last) {
            assert(items.filter(keep) =~= before.filter(keep).push(last));
            assert(items.filter(keep).map_values(call) =~= before.filter(keep).map_values(
                call,
            ).push(call(last)));
        } else {
            assert(items.filter(keep) =~= before.filter(keep));
        }
    } else {
        assert(items.filter(keep).map_values(call) =~= Seq::empty());
    }
}

/// The payloads that a chunk completes.
pub open spec fn payloads_of(decoder: SseView, bytes: Seq<u8>) -> Seq<Seq<char>> {
    match pushed(decoder, bytes).fault {
        None => pushed(decoder, bytes).events,
        Some(_) => Seq::empty(),
    }
}

/// A response is read until one of its own payloads says that it is complete;
/// until then no command runs. The commands that run after it are the function
/// calls in its own output, and without any the turn is over.
pub proof fn law_response_is_read_to_its_end(
    since: Instant,
    t: TurnView,
    bytes: Seq<u8>,
    after: TurnView,
    effects: Seq<EffectView>,
)
    requires
        t.phase == Phase::Reading,
        !t.progress.completed,
        turn_step(since, t, TurnEventView::Chunk(bytes), after, effects),
    ensures
        ({
            let payloads = payloads_of(t.decoder, bytes);
            let complete = exists|i: int|
                0 <= i < payloads.len() && completion_in(#[trigger] payloads[i]);
            let output = last_output(t.progress.output, payloads);
            &&& after.phase == Phase::Reading <==> !complete
            &&& !complete ==> !after.progress.completed && after.progress.output
                == t.progress.output
            &&& !complete ==> after.input == t.input && after.calls == t.calls
            &&& after.decoder == pushed(t.decoder, bytes).state
            &&& after.round == t.round
            &&& after.phase == Phase::Running ==> after.input == output && after.calls == calls_of(
                output,
            )
            &&& complete ==> (after.phase == Phase::Running <==> calls_of(output).len() > 0)
            &&& complete ==> (after.phase == Phase::Stopped <==> calls_of(output).len() == 0)
        }),
{
    let (progress, lines) = choose|progress: RoundView, lines: Seq<Seq<char>>|
        chunk_step(since, t, bytes, progress, lines, after, effects);
    let payloads = chunk_payloads(t.decoder, bytes);
    assert(payloads == payloads_of(t.decoder, bytes));
    let times = choose|times: Seq<nat>|
        all_readings(since, times) && #[trigger] fed_chunk_at(
            t.progress,
            payloads,
            times,
            progress,
            lines,
        );
    law_completed_by_its_own_event(t.progress, payloads, times);
    let complete = exists|i: int| 0 <= i < payloads.len() && completion_in(#[trigger] payloads[i]);
    if !complete {
        lemma_no_completion_no_output(t.progress.output, payloads);
    }
}

proof fn lemma_no_completion_no_output(output: Seq<JsonView>, payloads: Seq<Seq<char>>)
    requires
        forall|i: int| 0 <= i < payloads.len() ==> !completion_in(#[trigger] payloads[i]),
    ensures
        last_output(output, payloads) == output,
    decreases payloads.len(),
{
    if payloads.len() > 0 {
        let before = payloads.drop_last();
        assert forall|i: int| 0 <= i < before.len() implies !completion_in(
            #[trigger] before[i],
        ) by {
            assert(before[i] == payloads[i]);
        }
        assert(!completion_in(payloads[payloads.len() - 1]));
        lemma_no_completion_no_output(output, before);
    }
}

proof fn lemma_reads_on(
    since: Instant,
    states: Seq<TurnView>,
    events: Seq<TurnEventView>,
    effects: Seq<Seq<EffectView>>,
    chunks: Seq<Seq<u8>>,
)
    requires
        turn_run(since, states, events, effects),
        states[0].phase == Phase::Reading,
        !states[0].progress.completed,
        events.len() == chunks.len(),
        forall|i: int|
            0 <= i < chunks.len() ==> #[trigger] events[i] == TurnEventView::Chunk(chunks[i]),
        fed(states[0].decoder, chunks).fault is None,
        forall|i: int|
            0 <= i < fed(states[0].decoder, chunks).events.len() ==> !completion_in(
                #[trigger] fed(states[0].decoder, chunks).events[i],
            ),
    ensures
        states.last().phase == Phase::Reading,
        !states.last().progress.completed,
        states.last().progress.output == states[0].progress.output,
        states.last().decoder == fed(states[0].decoder, chunks).state,
    decreases chunks.len(),
{
    if chunks.len() > 0 {
        assert(events[0] == TurnEventView::Chunk(chunks[0]));
        assert(turn_step(since, states[0], events[0], states[1], effects[0]));
        let read = pushed(states[0].decoder, chunks[0]);
        let all = fed(states[0].decoder, chunks).events;
        let rest = fed(read.state, chunks.drop_first()).events;
        assert(all == read.events + rest);
        assert forall|i: int| 0 <= i < read.events.len() implies !completion_in(
            #[trigger] read.events[i],
        ) by {
            assert(read.events[i] == all[i]);
        }
        assert forall|i: int| 0 <= i < rest.len() implies !completion_in(#[trigger] rest[i]) by {
            assert(rest[i] == all[i + read.events.len()]);
        }
        law_response_is_read_to_its_end(since, states[0], chunks[0], states[1], effects[0]);
        let s = states.drop_first();
        let e = events.drop_first();
        let f = effects.drop_first();
        let c = chunks.drop_first();
        assert forall|i: int| 0 <= i < e.len() implies turn_step(
            since,
            s[i],
            #[trigger] e[i],
            s[i + 1],
            f[i],
        ) by {
            assert(e[i] == events[i + 1]);
            assert(turn_step(since, states[i + 1], events[i + 1], states[i + 2], effects[i + 1]));
        }
        assert forall|i: int| 0 <= i < c.len() implies #[trigger] e[i] == TurnEventView::Chunk(
            c[i],
        ) by {
            assert(e[i] == events[i + 1]);
        }
        lemma_reads_on(since, s, e, f, c);
        assert(s.last() == states.last());
    }
}

/// From its start on, a response is decoded by itself, and read as long as none
/// of its own payloads says that it is complete, however it is cut into chunks
/// and whatever the responses before it were.
pub proof fn law_response_is_read_by_itself(
    since: Instant,
    states: Seq<TurnView>,
    events: Seq<TurnEventView>,
    effects: Seq<Seq<EffectView>>,
    chunks: Seq<Seq<u8>>,
)
    requires
        turn_run(since, states, events, effects),
        states[0].phase == Phase::Asking,
        events.len() == chunks.len() + 1,
        events[0] is Started,
        forall|i: int|
            0 <= i < chunks.len() ==> #[trigger] events[i + 1] == TurnEventView::Chunk(chunks[i]),
        fed(SseView { pending: Seq::empty(), lines: Seq::empty() }, chunks).fault is None,
        forall|i: int|
            0 <= i < fed(
                SseView { pending: Seq::empty(), lines: Seq::empty() },
                chunks,
            ).events.len() ==> !completion_in(
                #[trigger] fed(
                    SseView { pending: Seq::empty(), lines: Seq::empty() },
                    chunks,
                ).events[i],
            ),
    ensures
        states.last().phase == Phase::Reading,
        !states.last().progress.completed,
        states.last().progress.output.len() == 0,
{
    assert(turn_step(since, states[0], events[0], states[1], effects[0]));
    match events[0] {
        TurnEventView::Started { hedged, waited_ms } => {
            law_response_starts_afresh(
                since,
                states[0],
                hedged,
                waited_ms,
                states[1],
                effects[0],
            );
        },
        _ => {},
    }
    let s = states.drop_first();
    let e = events.drop_first();
    let f = effects.drop_first();
    assert(s[0].decoder.pending =~= Seq::empty());
    assert(s[0].decoder.lines =~= Seq::empty());
    assert forall|i: int| 0 <= i < e.len() implies turn_step(
        since,
        s[i],
        #[trigger] e[i],
        s[i + 1],
        f[i],
    ) by {
        assert(e[i] == events[i + 1]);
        assert(turn_step(since, states[i + 1], events[i + 1], states[i + 2], effects[i + 1]));
    }
    assert forall|i: int| 0 <= i < chunks.len() implies #[trigger] e[i] == TurnEventView::Chunk(
        chunks[i],
    ) by {
        assert(e[i] == events[i + 1]);
    }
    lemma_reads_on(since, s, e, f, chunks);
    assert(s.last() == states.last());
    assert(s[0].progress.output =~= Seq::empty());
}

/// A response that ends or breaks off before it is complete runs nothing and
/// is not followed by another request; of one that breaks off the client is
/// told.
pub proof fn law_unfinished_response_runs_nothing(
    since: Instant,
    t: TurnView,
    event: TurnEventView,
    after: TurnView,
    effects: Seq<EffectView>,
)
    requires
        t.phase == Phase::Reading,
        !t.progress.completed,
        event == TurnEventView::Ended || event == TurnEventView::Interrupted,
        turn_step(since, t, event, after, effects),
    ensures
        after.phase == Phase::Stopped,
        event == TurnEventView::Ended ==> wire(effects).len() == 0,
        event == TurnEventView::Interrupted ==> wire(effects) == encode_utf8(
            "event: error\ndata: "@ + json_text(
                JsonView::Object(
                    map![
                        "type"@ => JsonView::Str("error"@),
                        "message"@ => JsonView::Str("Upstream stream interrupted; please retry."@),
                    ],
                ),
            ) + "\n\n"@,
        ),
{
    reveal_with_fuel(wire, 3);
    if event == TurnEventView::Ended {
        let lines = finished(t.progress.feed).1;
        lemma_wire_lines(lines, Seq::empty());
        assert(shown_lines(lines) + Seq::empty() =~= shown_lines(lines));
    } else {
        assert(effects.drop_first().drop_first() =~= Seq::empty());
        assert(wire(effects) =~= effects[1]->Send_0);
    }
}

/// A pause in a response only keeps the connection alive.
pub proof fn law_pause_keeps_the_connection(
    since: Instant,
    t: TurnView,
    after: TurnView,
    effects: Seq<EffectView>,
)
    requires
        t.phase == Phase::Reading,
        turn_step(since, t, TurnEventView::Tick, after, effects),
    ensures
        after == t,
        effects == seq![EffectView::Send(encode_utf8(": ping\n\n"@))],
{
}

/// What the model is asked carries all that is to be asked, and nothing else;
/// and the command that runs is that of the next call.
pub proof fn law_requests_carry_the_input(t: TurnView)
    ensures
        t.phase == Phase::Asking ==> (awaited(t) matches TurnActionView::Ask(payload) && payload.at(
            "input"@,
        ) == JsonView::Array(t.input) && payload.at("model"@) == JsonView::Str(t.model)
            && payload.at("stream"@) == JsonView::Bool(true)),
        t.phase == Phase::Running ==> awaited(t) == TurnActionView::Run(t.calls[0].1),
        t.phase == Phase::Reading ==> awaited(t) == TurnActionView::Read,
        t.phase == Phase::Stopped ==> awaited(t) == TurnActionView::Stop,
{
    reveal_strlit("input");
    reveal_strlit("model");
    reveal_strlit("stream");
    reveal_strlit("instructions");
    reveal_strlit("tools");
    reveal_strlit("store");
    reveal_strlit("reasoning");
    reveal_strlit("max_output_tokens");
    reveal_strlit("service_tier");
    assert("input"@.len() == 5 && "model"@.len() == 5 && "stream"@.len() == 6);
    assert("tools"@.len() == 5 && "store"@.len() == 5 && "reasoning"@.len() == 9);
    assert("instructions"@.len() == 12 && "max_output_tokens"@.len() == 17);
    assert("service_tier"@.len() == 12);
    assert("input"@[0] == 'i' && "model"@[0] == 'm' && "tools"@[0] == 't' && "store"@[0] == 's');
}

/// The end of a command answers its call, under its id, with its whole output;
/// it is reported to the client with code and time; and then the next call
/// runs, or the model is asked again, for at most eight responses.
pub proof fn law_ended_command_answers_its_call(
    since: Instant,
    t: TurnView,
    code: i32,
    output: Seq<char>,
    ms: u64,
    after: TurnView,
    effects: Seq<EffectView>,
)
    requires
        t.phase == Phase::Running,
        t.calls.len() > 0,
        turn_step(since, t, TurnEventView::Ran { code, output, ms }, after, effects),
    ensures
        after.input == t.input.push(
            JsonView::Object(
                map![
                    "type"@ => JsonView::Str("function_call_output"@),
                    "call_id"@ => JsonView::Str(t.calls[0].0),
                    "output"@ => JsonView::Str(output),
                ],
            ),
        ),
        after.calls == t.calls.drop_first(),
        after.round == t.round,
        after.phase == if t.calls.len() > 1 {
            Phase::Running
        } else if t.round < 8 {
            Phase::Asking
        } else {
            Phase::Stopped
        },
        effects.len() >= 2,
        effects[0] == EffectView::Send(
            encode_utf8(
                "data: "@ + json_text(
                    JsonView::Object(
                        map![
                            "type"@ => JsonView::Str("exec.done"@),
                            "exit"@ => JsonView::Int(code as int),
                            "ms"@ => JsonView::Int(ms as int),
                        ],
                    ),
                ) + "\n\n"@,
            ),
        ),
        t.calls.len() > 1 ==> effects.len() == 4 && effects[2] == EffectView::Send(
            encode_utf8(
                "data: "@ + json_text(
                    JsonView::Object(
                        map![
                            "type"@ => JsonView::Str("exec.call"@),
                            "command"@ => JsonView::Str(t.calls[1].1),
                        ],
                    ),
                ) + "\n\n"@,
            ),
        ) && effects[3] == EffectView::Show("$ "@ + t.calls[1].1),
        after.phase == Phase::Asking ==> effects.len() == 2,
        after.phase == Phase::Stopped ==> effects.len() == 4,
{
}

/// The first command of a response is announced to the client and to the
/// observers, last of all that the end of the response does.
pub proof fn law_first_command_is_announced(
    since: Instant,
    t: TurnView,
    event: TurnEventView,
    after: TurnView,
    effects: Seq<EffectView>,
)
    requires
        t.phase == Phase::Reading,
        turn_step(since, t, event, after, effects),
        after.phase == Phase::Running,
    ensures
        effects.len() >= 2,
        effects[effects.len() - 2] == EffectView::Send(
            encode_utf8(
                "data: "@ + json_text(
                    JsonView::Object(
                        map![
                            "type"@ => JsonView::Str("exec.call"@),
                            "command"@ => JsonView::Str(after.calls[0].1),
                        ],
                    ),
                ) + "\n\n"@,
            ),
        ),
        effects.last() == EffectView::Show("$ "@ + after.calls[0].1),
{
    match event {
        TurnEventView::Chunk(bytes) => {
            let (progress, lines) = choose|progress: RoundView, lines: Seq<Seq<char>>|
                chunk_step(since, t, bytes, progress, lines, after, effects);
            let read = TurnView { decoder: pushed(t.decoder, bytes).state, progress, ..t };
            let end = on_round_end(read);
            let passed = shown_lines(lines).push(EffectView::Send(bytes));
            assert(effects == passed + end.1);
        },
        _ => {},
    }
}

/// Where the model cannot be asked, the turn is over, and client and observers
/// are told.
pub proof fn law_refused_request_ends_the_turn(
    since: Instant,
    t: TurnView,
    after: TurnView,
    effects: Seq<EffectView>,
)
    requires
        t.phase == Phase::Asking,
        turn_step(since, t, TurnEventView::Refused, after, effects),
    ensures
        after.phase == Phase::Stopped,
        effects.len() == 2,
        effects[0] is Show,
        wire(effects) == encode_utf8(
            "event: error\ndata: "@ + json_text(
                JsonView::Object(
                    map![
                        "type"@ => JsonView::Str("error"@),
                        "message"@ => JsonView::Str("The model request failed. Please try again."@),
                    ],
                ),
            ) + "\n\n"@,
        ),
{
    reveal_with_fuel(wire, 3);
    assert(effects.drop_first().drop_first() =~= Seq::empty());
    assert(wire(effects) =~= effects[1]->Send_0);
}

/// All that a piece of a response shows to the observers is shown, in order,
/// before the piece goes out.
pub proof fn law_observers_see_every_line(
    since: Instant,
    t: TurnView,
    bytes: Seq<u8>,
    after: TurnView,
    effects: Seq<EffectView>,
) -> (r: (RoundView, Seq<Seq<char>>, Seq<nat>))
    requires
        t.phase == Phase::Reading,
        turn_step(since, t, TurnEventView::Chunk(bytes), after, effects),
    ensures
        on_payloads(t.progress, payloads_of(t.decoder, bytes), r.2) == (r.0, r.1),
        forall|i: int| 0 <= i < r.2.len() ==> elapsed_reading(since, #[trigger] r.2[i]),
        effects.len() > r.1.len(),
        forall|i: int| 0 <= i < r.1.len() ==> #[trigger] effects[i] == EffectView::Show(r.1[i]),
        effects[r.1.len() as int] == EffectView::Send(bytes),
        after.phase == Phase::Reading ==> effects.len() == r.1.len() + 1 && after.progress == r.0,
{
    let (progress, lines) = choose|progress: RoundView, lines: Seq<Seq<char>>|
        chunk_step(since, t, bytes, progress, lines, after, effects);
    let payloads = chunk_payloads(t.decoder, bytes);
    assert(payloads == payloads_of(t.decoder, bytes));
    let times = choose|times: Seq<nat>|
        all_readings(since, times) && #[trigger] fed_chunk_at(
            t.progress,
            payloads,
            times,
            progress,
            lines,
        );
    (progress, lines, times)
}

/// At the end of a response all that was collected is shown, in order.
pub proof fn law_observers_see_the_rest(
    since: Instant,
    t: TurnView,
    after: TurnView,
    effects: Seq<EffectView>,
)
    requires
        t.phase == Phase::Reading,
        !t.progress.completed,
        turn_step(since, t, TurnEventView::Ended, after, effects),
    ensures
        effects.len() == finished(t.progress.feed).1.len(),
        forall|i: int|
            0 <= i < effects.len() ==> #[trigger] effects[i] == EffectView::Show(
                finished(t.progress.feed).1[i],
            ),
{
}

} // verus!
