//! The streams of a voice turn: the transcript that comes in, the model's
//! answer that is cut into phrases, and the speech that goes out.

use vstd::prelude::*;
use crate::events::{carries_answer, carries_failure, lemma_event_kinds};
use crate::json::Json;
use crate::json::{items_view, json_parsed, JsonView};
use crate::messages::{message_jsons, Message};
use crate::messages::{message_value, message_values, message_views, MessageView};
use crate::sse::SseDecoder;
use crate::sse::{error_value, fresh, pushed, texts, SseView};
use crate::text::{byte_len, is_blank, same, without_suffixes};
use crate::text::{all_space, drop_suffixes, law_suffixes_go, utf8_len};
use crate::voice::{failed, phrase};
use crate::voice::{
    law_last_phrases_leave_nothing, law_phrases_end_at_the_first_chance, law_phrases_keep_the_text,
    lemma_phrase_chars, phrase_chars, phrase_may_end, phrases,
};
use vstd::utf8::*;

verus! {

/// From this many bytes on, no more of a transcription's raw body is kept.
pub const MAX_RAW: usize = 512_000;

/// The most bytes of a transcript.
pub const MAX_TRANSCRIPT: usize = 4000;

/// What the transcription's stream has said so far.
pub struct Transcriber {
    decoder: SseDecoder,
    transcript: String,
    done: bool,
    raw: Vec<u8>,
}

/// What a [`Transcriber`] holds.
pub struct TranscriberView {
    pub decoder: SseView,
    pub transcript: Seq<char>,
    pub done: bool,
    pub raw: Seq<u8>,
}

impl View for Transcriber {
    type V = TranscriberView;

    closed spec fn view(&self) -> TranscriberView {
        TranscriberView {
            decoder: self.decoder@,
            transcript: self.transcript@,
            done: self.done,
            raw: self.raw@,
        }
    }
}

/// What comes of a piece of the transcription: what is known after it, the
/// events for the client, and the failure that ends it, if any.
pub struct Transcribed {
    pub state: TranscriberView,
    pub events: Seq<JsonView>,
    pub failure: Option<Seq<char>>,
}

/// The event that passes a piece of the transcript on.
pub open spec fn transcript_delta_value(delta: Seq<char>) -> JsonView {
    JsonView::Object(
        map![
            "type"@ => JsonView::Str("voice.transcript.delta"@),
            "delta"@ => JsonView::Str(delta),
        ],
    )
}

/// The transcript that a value amounts to on its own, if it does.
pub open spec fn whole_text(t: TranscriberView, value: JsonView) -> TranscriberView {
    match value.field_text("text"@) {
        Some(text) => if t.done {
            t
        } else {
            TranscriberView { transcript: text, done: true, ..t }
        },
        None => t,
    }
}

/// What one event does. A value of an unknown type that holds a text is a
/// transcription that was not streamed.
pub open spec fn on_asr_event(t: TranscriberView, value: JsonView) -> Transcribed {
    let kind = value.at("type"@).as_text();
    if kind == Some("transcript.text.delta"@) {
        let delta = value.at("delta"@).text_or(""@);
        Transcribed {
            state: TranscriberView { transcript: t.transcript + delta, ..t },
            events: seq![transcript_delta_value(delta)],
            failure: None,
        }
    } else if kind == Some("transcript.text.done"@) {
        Transcribed {
            state: TranscriberView {
                transcript: value.at("text"@).text_or(t.transcript),
                done: true,
                ..t
            },
            events: Seq::empty(),
            failure: None,
        }
    } else if kind == Some("error"@) {
        Transcribed { state: t, events: Seq::empty(), failure: Some("Transcription failed."@) }
    } else {
        Transcribed { state: whole_text(t, value), events: Seq::empty(), failure: None }
    }
}

/// What one payload does; what is no JSON does nothing.
pub open spec fn on_asr_payload(t: TranscriberView, data: Seq<char>) -> Transcribed {
    match json_parsed(data) {
        Ok(value) => on_asr_event(t, value),
        Err(_) => Transcribed { state: t, events: Seq::empty(), failure: None },
    }
}

/// What several payloads do, up to the first failure.
pub open spec fn on_asr_payloads(t: TranscriberView, payloads: Seq<Seq<char>>) -> Transcribed
    decreases payloads.len(),
{
    if payloads.len() == 0 {
        Transcribed { state: t, events: Seq::empty(), failure: None }
    } else {
        let first = on_asr_payload(t, payloads[0]);
        if first.failure is Some {
            first
        } else {
            let rest = on_asr_payloads(first.state, payloads.drop_first());
            Transcribed { events: first.events + rest.events, ..rest }
        }
    }
}

/// What one chunk does.
pub open spec fn on_asr_chunk(t: TranscriberView, bytes: Seq<u8>) -> Transcribed {
    let read = pushed(t.decoder, bytes);
    let next = TranscriberView {
        decoder: read.state,
        raw: if t.raw.len() < MAX_RAW {
            t.raw + bytes
        } else {
            t.raw
        },
        ..t
    };
    if read.fault is Some {
        Transcribed {
            state: next,
            events: Seq::empty(),
            failure: Some("Invalid transcription stream."@),
        }
    } else {
        on_asr_payloads(next, read.events)
    }
}

/// What is known at the end of the stream: a body without framing may be the
/// whole transcription.
pub open spec fn asr_end(t: TranscriberView) -> TranscriberView {
    if !t.done && valid_utf8(t.raw) {
        match json_parsed(decode_utf8(t.raw)) {
            Ok(value) => whole_text(t, value),
            Err(_) => t,
        }
    } else {
        t
    }
}

/// The transcript, if it can be used.
pub open spec fn asr_outcome(t: TranscriberView) -> Result<Seq<char>, Seq<char>> {
    let end = asr_end(t);
    if !end.done || all_space(end.transcript) || utf8_len(end.transcript) > MAX_TRANSCRIPT {
        Err("No usable speech was transcribed. Try a shorter, clear recording."@)
    } else {
        Ok(end.transcript)
    }
}

/// The string member `key`, or nothing.
fn text_member(value: &Json, key: &str) -> (r: String)
    ensures
        r@ == value@.at(key@).text_or(""@),
{
    match value.get_str(key) {
        Some(text) => text.to_owned(),
        None => "".to_owned(),
    }
}

/// A transcription of which nothing has come.
pub open spec fn no_transcript() -> TranscriberView {
    TranscriberView {
        decoder: fresh(),
        transcript: Seq::empty(),
        done: false,
        raw: Seq::empty(),
    }
}

impl Transcriber {
    pub fn new() -> (r: Transcriber)
        ensures
            r@ == no_transcript(),
    {
        Transcriber {
            decoder: SseDecoder::default(),
            transcript: String::new(),
            done: false,
            raw: Vec::new(),
        }
    }

    /// Whether the transcript is complete.
    pub fn is_done(&self) -> (r: bool)
        ensures
            r == self@.done,
    {
        self.done
    }

    /// Takes a value that may be the whole transcription.
    fn take_whole(&mut self, value: &Json)
        ensures
            final(self)@ == whole_text(old(self)@, value@),
    {
        if !self.done {
            if let Some(text) = value.get_str("text") {
                self.transcript = text.to_owned();
                self.done = true;
            }
        }
    }

    /// Takes one payload in.
    pub fn take_payload(&mut self, data: &str) -> (r: (Vec<Json>, Option<String>))
        ensures
            final(self)@ == on_asr_payload(old(self)@, data@).state,
            items_view(r.0@) == on_asr_payload(old(self)@, data@).events,
            match r.1 {
                Some(failure) => on_asr_payload(old(self)@, data@).failure == Some(failure@),
                None => on_asr_payload(old(self)@, data@).failure is None,
            },
    {
        let mut events: Vec<Json> = Vec::new();
        assert(items_view(events@) =~= Seq::empty());
        let value = match Json::parse(data) {
            Ok(value) => value,
            Err(_) => return (events, None),
        };
        let kind = value.get_str("type");
        let name = match kind {
            Some(name) => name,
            None => "",
        };
        if kind.is_some() && same(name, "transcript.text.delta") {
            let delta = text_member(&value, "delta");
            self.transcript.append(delta.as_str());
            let event = Json::object().with("type", Json::string("voice.transcript.delta")).with(
                "delta",
                Json::Str(delta),
            );
            events.push(event);
            assert(items_view(events@) =~= seq![transcript_delta_value(delta@)]);
        } else if kind.is_some() && same(name, "transcript.text.done") {
            if let Some(text) = value.get_str("text") {
                self.transcript = text.to_owned();
            }
            self.done = true;
        } else if kind.is_some() && same(name, "error") {
            return (events, Some("Transcription failed.".to_owned()));
        } else {
            self.take_whole(&value);
        }
        (events, None)
    }

    /// Takes one chunk of the stream in. Gives the events for the client, and
    /// the failure that ends the transcription, if any.
    pub fn take_chunk(&mut self, bytes: &[u8]) -> (r: (Vec<Json>, Option<String>))
        ensures
            final(self)@ == on_asr_chunk(old(self)@, bytes@).state,
            items_view(r.0@) == on_asr_chunk(old(self)@, bytes@).events,
            match r.1 {
                Some(failure) => on_asr_chunk(old(self)@, bytes@).failure == Some(failure@),
                None => on_asr_chunk(old(self)@, bytes@).failure is None,
            },
    {
        let mut events: Vec<Json> = Vec::new();
        assert(items_view(events@) =~= Seq::empty());
        if self.raw.len() < MAX_RAW {
            self.raw.extend_from_slice(bytes);
            assert(self.raw@ =~= old(self)@.raw + bytes@);
        }
        let payloads = match self.decoder.push(bytes) {
            Ok(payloads) => payloads,
            Err(_) => return (events, Some("Invalid transcription stream.".to_owned())),
        };
        let ghost all = texts(payloads@);
        let ghost whole = on_asr_payloads(self@, all);
        assert(all.skip(0) =~= all);
        assert(items_view(events@) + whole.events =~= whole.events);
        let mut i: usize = 0;
        while i < payloads.len()
            invariant
                i <= payloads@.len(),
                all == texts(payloads@),
                whole == on_asr_chunk(old(self)@, bytes@),
                whole.state == on_asr_payloads(self@, all.skip(i as int)).state,
                whole.failure == on_asr_payloads(self@, all.skip(i as int)).failure,
                whole.events == items_view(events@) + on_asr_payloads(
                    self@,
                    all.skip(i as int),
                ).events,
            decreases payloads@.len() - i,
        {
            let ghost rest = all.skip(i as int);
            assert(rest.drop_first() =~= all.skip(i + 1));
            assert(rest[0] == payloads@[i as int]@);
            let ghost before = items_view(events@);
            let ghost first = on_asr_payload(self@, rest[0]);
            let step = self.take_payload(payloads[i].as_str());
            let mut more = step.0;
            let ghost added = items_view(more@);
            events.append(&mut more);
            assert(items_view(events@) =~= before + added);
            if let Some(failure) = step.1 {
                return (events, Some(failure));
            }
            assert(before + (first.events + on_asr_payloads(self@, all.skip(i + 1)).events)
                =~= items_view(events@) + on_asr_payloads(self@, all.skip(i + 1)).events);
            i = i + 1;
        }
        assert(items_view(events@) + Seq::empty() =~= items_view(events@));
        (events, None)
    }

    /// The transcript, at the end of the stream; or why it cannot be used.
    pub fn finish(self) -> (r: Result<String, String>)
        ensures
            match r {
                Ok(text) => asr_outcome(self@) == Ok::<Seq<char>, Seq<char>>(text@),
                Err(failure) => asr_outcome(self@) == Err::<Seq<char>, Seq<char>>(failure@),
            },
    {
        let mut end = self;
        if !end.done {
            if let Some(value) = Json::parse_bytes(end.raw.as_slice()) {
                end.take_whole(&value);
            }
        }
        assert(end@ == asr_end(self@));
        if !end.done || is_blank(end.transcript.as_str()) || byte_len(end.transcript.as_str())
            > MAX_TRANSCRIPT {
            Err("No usable speech was transcribed. Try a shorter, clear recording.".to_owned())
        } else {
            Ok(end.transcript)
        }
    }
}

/// The address of an audio service beside the model's.
pub open spec fn audio_url_of(endpoint: Seq<char>, service: Seq<char>) -> Seq<char> {
    drop_suffixes(endpoint, "/responses"@) + "/audio/"@ + service
}

/// The address of an audio service beside the model's.
pub fn audio_url(endpoint: &str, service: &str) -> (r: String)
    ensures
        r@ == audio_url_of(endpoint@, service@),
{
    let mut out = without_suffixes(endpoint, "/responses");
    out.append("/audio/");
    out.append(service);
    out
}

/// The request for the model's answer to a transcript.
pub open spec fn voice_request_value(
    model: Seq<char>,
    history: Seq<MessageView>,
    transcript: Seq<char>,
) -> JsonView {
    JsonView::Object(
        map![
            "model"@ => JsonView::Str(model),
            "input"@ => JsonView::Array(
                message_values(history).push(
                    message_value(MessageView { role: "user"@, content: transcript }),
                ),
            ),
            "stream"@ => JsonView::Bool(true),
            "store"@ => JsonView::Bool(false),
            "reasoning"@ => JsonView::Object(map![
                "effort"@ => JsonView::Str("low"@),
                "summary"@ => JsonView::Str("auto"@),
            ]),
            "max_output_tokens"@ => JsonView::Int(2048),
            "instructions"@ => JsonView::Str("You are Rove, a helpful voice assistant. Reply concisely in natural spoken sentences. Start with a short useful sentence. Avoid markdown and long lists. You have no shell or file tools; never claim to run commands."@),
        ],
    )
}

/// The request for the model's answer to a transcript.
pub fn voice_payload(model: &str, history: &Vec<Message>, transcript: &str) -> (r: Json)
    ensures
        r@ == voice_request_value(model@, message_views(history@), transcript@),
{
    let mut input = message_jsons(history);
    let ghost before = items_view(input@);
    let last = Json::object().with("role", Json::string("user")).with(
        "content",
        Json::string(transcript),
    );
    assert(last@ == message_value(MessageView { role: "user"@, content: transcript@ }));
    input.push(last);
    assert(items_view(input@) =~= before.push(last@));
    let reasoning = Json::object().with("effort", Json::string("low")).with(
        "summary",
        Json::string("auto"),
    );
    let r = Json::object().with("model", Json::string(model)).with("input", Json::Array(input)).with(
        "stream",
        Json::Bool(true),
    ).with("store", Json::Bool(false)).with("reasoning", reasoning).with(
        "max_output_tokens",
        Json::Unsigned(2048),
    ).with(
        "instructions",
        Json::string(
            "You are Rove, a helpful voice assistant. Reply concisely in natural spoken sentences. Start with a short useful sentence. Avoid markdown and long lists. You have no shell or file tools; never claim to run commands.",
        ),
    );
    r
}

/// What the model's answer does.
pub enum VoiceEffect {
    /// A phrase to speak.
    Speak(String),
    /// No more phrases follow.
    Close,
    /// An event for the client.
    Send(Json),
}

/// What a [`VoiceEffect`] holds.
pub enum VoiceEffectView {
    Speak(Seq<char>),
    Close,
    Send(JsonView),
}

impl View for VoiceEffect {
    type V = VoiceEffectView;

    open spec fn view(&self) -> VoiceEffectView {
        match self {
            VoiceEffect::Speak(text) => VoiceEffectView::Speak(text@),
            VoiceEffect::Close => VoiceEffectView::Close,
            VoiceEffect::Send(value) => VoiceEffectView::Send(value@),
        }
    }
}

/// What each effect holds.
pub open spec fn voice_effects(effects: Seq<VoiceEffect>) -> Seq<VoiceEffectView> {
    effects.map_values(|e: VoiceEffect| e@)
}

/// The model's answer while it streams.
pub struct VoiceReply {
    decoder: SseDecoder,
    pending: String,
    done: bool,
}

/// What a [`VoiceReply`] holds.
pub struct VoiceReplyView {
    pub decoder: SseView,
    /// What is not spoken yet.
    pub pending: Seq<char>,
    pub done: bool,
}

impl View for VoiceReply {
    type V = VoiceReplyView;

    closed spec fn view(&self) -> VoiceReplyView {
        VoiceReplyView { decoder: self.decoder@, pending: self.pending@, done: self.done }
    }
}

/// What comes of a piece of the answer: what is known after it, the effects,
/// and whether the turn stops here, with a last event or without one.
pub struct Answered {
    pub state: VoiceReplyView,
    pub effects: Seq<VoiceEffectView>,
    pub stopped: bool,
}

/// Phrases to speak, as long as speech is open.
pub open spec fn spoken(texts: Seq<Seq<char>>, open: bool) -> Seq<VoiceEffectView> {
    if open {
        texts.map_values(|text: Seq<char>| VoiceEffectView::Speak(text))
    } else {
        Seq::empty()
    }
}

/// Events that end a turn without an answer.
pub open spec fn is_failure(kind: Seq<char>) -> bool {
    kind == "response.failed"@ || kind == "response.incomplete"@ || kind == "error"@
}

/// What one event does: a piece of the answer is cut into phrases; the end of
/// the answer is spoken and closes the speech; and every event is passed on.
pub open spec fn on_voice_event(v: VoiceReplyView, value: JsonView) -> Answered {
    let kind = value.at("type"@).text_or(""@);
    if kind == "response.output_text.delta"@ || kind == "response.refusal.delta"@ {
        let cut = phrases(v.pending + value.at("delta"@).text_or(""@), false);
        Answered {
            state: VoiceReplyView { pending: cut.1, ..v },
            effects: spoken(cut.0, !v.done).push(VoiceEffectView::Send(value)),
            stopped: false,
        }
    } else if kind == "response.completed"@ {
        let cut = phrases(v.pending, true);
        Answered {
            state: VoiceReplyView { pending: cut.1, done: true, ..v },
            effects: (if v.done {
                Seq::empty()
            } else {
                spoken(cut.0, true).push(VoiceEffectView::Close)
            }).push(VoiceEffectView::Send(value)),
            stopped: false,
        }
    } else {
        Answered {
            state: v,
            effects: seq![VoiceEffectView::Send(value)],
            stopped: is_failure(kind),
        }
    }
}

/// What one payload does; what is no JSON does nothing.
pub open spec fn on_voice_payload(v: VoiceReplyView, data: Seq<char>) -> Answered {
    match json_parsed(data) {
        Ok(value) => on_voice_event(v, value),
        Err(_) => Answered { state: v, effects: Seq::empty(), stopped: false },
    }
}

/// What several payloads do, until the turn stops.
pub open spec fn on_voice_payloads(v: VoiceReplyView, payloads: Seq<Seq<char>>) -> Answered
    decreases payloads.len(),
{
    if payloads.len() == 0 {
        Answered { state: v, effects: Seq::empty(), stopped: false }
    } else {
        let first = on_voice_payload(v, payloads[0]);
        if first.stopped {
            first
        } else {
            let rest = on_voice_payloads(first.state, payloads.drop_first());
            Answered { effects: first.effects + rest.effects, ..rest }
        }
    }
}

/// What one chunk does. A chunk that cannot be decoded stops the turn with an
/// error event.
pub open spec fn on_voice_chunk(v: VoiceReplyView, bytes: Seq<u8>) -> Answered {
    let read = pushed(v.decoder, bytes);
    let next = VoiceReplyView { decoder: read.state, ..v };
    if read.fault is Some {
        Answered {
            state: next,
            effects: seq![
                VoiceEffectView::Send(error_value("Invalid model stream."@)),
            ],
            stopped: true,
        }
    } else {
        on_voice_payloads(next, read.events)
    }
}

/// Takes every phrase out of the buffer.
fn cut_phrases(buffer: &mut String, finish: bool) -> (r: Vec<String>)
    ensures
        texts(r@) == phrases(old(buffer)@, finish).0,
        final(buffer)@ == phrases(old(buffer)@, finish).1,
{
    let ghost whole = phrases(buffer@, finish);
    let mut out: Vec<String> = Vec::new();
    assert(texts(out@) + whole.0 =~= whole.0);
    loop
        invariant
            whole == phrases(old(buffer)@, finish),
            whole.0 == texts(out@) + phrases(buffer@, finish).0,
            whole.1 == phrases(buffer@, finish).1,
        ensures
            whole.0 == texts(out@),
            whole.1 == buffer@,
        decreases buffer@.len(),
    {
        let ghost s = buffer@;
        proof {
            lemma_phrase_chars(s, finish);
        }
        match phrase(buffer, finish) {
            Some(text) => {
                let ghost before = texts(out@);
                let ghost rest = phrases(buffer@, finish);
                out.push(text);
                assert(texts(out@) =~= before.push(text@));
                assert(before + (seq![text@] + rest.0) =~= texts(out@) + rest.0);
            },
            None => {
                assert(texts(out@) + Seq::empty() =~= texts(out@));
                break;
            },
        }
    }
    out
}

/// Phrases as effects.
fn speak_all(lines: Vec<String>, open: bool) -> (r: Vec<VoiceEffect>)
    ensures
        voice_effects(r@) == spoken(texts(lines@), open),
{
    let mut out: Vec<VoiceEffect> = Vec::new();
    if open {
        let ghost all = spoken(texts(lines@), true);
        let mut i: usize = 0;
        while i < lines.len()
            invariant
                i <= lines@.len(),
                all == spoken(texts(lines@), true),
                voice_effects(out@) == all.take(i as int),
            decreases lines@.len() - i,
        {
            let ghost before = voice_effects(out@);
            let effect = VoiceEffect::Speak(lines[i].clone());
            out.push(effect);
            assert(voice_effects(out@) =~= before.push(effect@));
            assert(all.take(i + 1) =~= all.take(i as int).push(effect@));
            i = i + 1;
        }
        assert(all.take(i as int) =~= all);
    } else {
        assert(voice_effects(out@) =~= Seq::empty());
    }
    out
}

/// An answer of which nothing has come.
pub open spec fn no_answer() -> VoiceReplyView {
    VoiceReplyView { decoder: fresh(), pending: Seq::empty(), done: false }
}

impl VoiceReply {
    pub fn new() -> (r: VoiceReply)
        ensures
            r@ == no_answer(),
    {
        VoiceReply { decoder: SseDecoder::default(), pending: String::new(), done: false }
    }

    /// Whether the answer is complete.
    pub fn is_done(&self) -> (r: bool)
        ensures
            r == self@.done,
    {
        self.done
    }

    /// Takes one payload in. Gives the effects, and whether the turn stops.
    pub fn take_payload(&mut self, data: &str) -> (r: (Vec<VoiceEffect>, bool))
        ensures
            final(self)@ == on_voice_payload(old(self)@, data@).state,
            voice_effects(r.0@) == on_voice_payload(old(self)@, data@).effects,
            r.1 == on_voice_payload(old(self)@, data@).stopped,
    {
        let mut out: Vec<VoiceEffect> = Vec::new();
        assert(voice_effects(out@) =~= Seq::empty());
        let value = match Json::parse(data) {
            Ok(value) => value,
            Err(_) => return (out, false),
        };
        let kind = text_member(&value, "type");
        let mut stopped = false;
        if same(kind.as_str(), "response.output_text.delta") || same(
            kind.as_str(),
            "response.refusal.delta",
        ) {
            self.pending.append(text_member(&value, "delta").as_str());
            let cut = cut_phrases(&mut self.pending, false);
            out = speak_all(cut, !self.done);
        } else if same(kind.as_str(), "response.completed") {
            let cut = cut_phrases(&mut self.pending, true);
            if !self.done {
                out = speak_all(cut, true);
                let ghost before = voice_effects(out@);
                out.push(VoiceEffect::Close);
                assert(voice_effects(out@) =~= before.push(VoiceEffectView::Close));
            }
            self.done = true;
        } else {
            stopped = same(kind.as_str(), "response.failed") || same(
                kind.as_str(),
                "response.incomplete",
            ) || same(kind.as_str(), "error");
        }
        let ghost before = voice_effects(out@);
        let ghost passed = VoiceEffectView::Send(value@);
        out.push(VoiceEffect::Send(value));
        assert(voice_effects(out@) =~= before.push(passed));
        assert(before.len() == 0 ==> before.push(passed) =~= seq![passed]);
        (out, stopped)
    }

    /// Takes one chunk of the stream in. Gives the effects, and whether the
    /// turn stops.
    pub fn take_chunk(&mut self, bytes: &[u8]) -> (r: (Vec<VoiceEffect>, bool))
        ensures
            final(self)@ == on_voice_chunk(old(self)@, bytes@).state,
            voice_effects(r.0@) == on_voice_chunk(old(self)@, bytes@).effects,
            r.1 == on_voice_chunk(old(self)@, bytes@).stopped,
    {
        let mut out: Vec<VoiceEffect> = Vec::new();
        assert(voice_effects(out@) =~= Seq::empty());
        let payloads = match self.decoder.push(bytes) {
            Ok(payloads) => payloads,
            Err(_) => {
                out.push(VoiceEffect::Send(failed("Invalid model stream.")));
                assert(voice_effects(out@) =~= on_voice_chunk(old(self)@, bytes@).effects);
                return (out, true);
            },
        };
        let ghost all = texts(payloads@);
        let ghost whole = on_voice_payloads(self@, all);
        assert(all.skip(0) =~= all);
        assert(voice_effects(out@) + whole.effects =~= whole.effects);
        let mut i: usize = 0;
        while i < payloads.len()
            invariant
                i <= payloads@.len(),
                all == texts(payloads@),
                whole == on_voice_chunk(old(self)@, bytes@),
                whole.state == on_voice_payloads(self@, all.skip(i as int)).state,
                whole.stopped == on_voice_payloads(self@, all.skip(i as int)).stopped,
                whole.effects == voice_effects(out@) + on_voice_payloads(
                    self@,
                    all.skip(i as int),
                ).effects,
            decreases payloads@.len() - i,
        {
            let ghost rest = all.skip(i as int);
            assert(rest.drop_first() =~= all.skip(i + 1));
            assert(rest[0] == payloads@[i as int]@);
            let ghost before = voice_effects(out@);
            let ghost first = on_voice_payload(self@, rest[0]);
            let step = self.take_payload(payloads[i].as_str());
            let mut more = step.0;
            let ghost added = voice_effects(more@);
            out.append(&mut more);
            assert(voice_effects(out@) =~= before + added);
            if step.1 {
                return (out, true);
            }
            assert(before + (first.effects + on_voice_payloads(self@, all.skip(i + 1)).effects)
                =~= voice_effects(out@) + on_voice_payloads(self@, all.skip(i + 1)).effects);
            i = i + 1;
        }
        assert(voice_effects(out@) + Seq::empty() =~= voice_effects(out@));
        (out, false)
    }
}

/// What is spoken by some effects.
pub open spec fn speech(effects: Seq<VoiceEffectView>) -> Seq<char>
    decreases effects.len(),
{
    if effects.len() == 0 {
        Seq::empty()
    } else {
        match effects[0] {
            VoiceEffectView::Speak(text) => text + speech(effects.drop_first()),
            _ => speech(effects.drop_first()),
        }
    }
}

proof fn lemma_speech_concat(a: Seq<VoiceEffectView>, b: Seq<VoiceEffectView>)
    ensures
        speech(a + b) == speech(a) + speech(b),
    decreases a.len(),
{
    if a.len() == 0 {
        assert(a + b =~= b);
        assert(speech(a) + speech(b) =~= speech(b));
    } else {
        lemma_speech_concat(a.drop_first(), b);
        assert((a + b).drop_first() =~= a.drop_first() + b);
        assert(speech(a + b) =~= speech(a) + speech(b));
    }
}

proof fn lemma_speech_of_phrases(texts: Seq<Seq<char>>)
    ensures
        speech(spoken(texts, true)) == texts.flatten(),
    decreases texts.len(),
{
    let all = spoken(texts, true);
    if texts.len() > 0 {
        lemma_speech_of_phrases(texts.drop_first());
        assert(all.drop_first() =~= spoken(texts.drop_first(), true));
    } else {
        assert(texts.flatten() =~= Seq::empty());
    }
}

proof fn lemma_speech_of_event(v: VoiceReplyView, value: JsonView)
    requires
        !v.done,
    ensures
        speech(on_voice_event(v, value).effects) + on_voice_event(v, value).state.pending
            == v.pending + answer_piece(value),
        value.at("type"@).text_or(""@) == "response.completed"@ ==> on_voice_event(
            v,
            value,
        ).state.pending.len() == 0,
{
    reveal_with_fuel(speech, 3);
    let kind = value.at("type"@).text_or(""@);
    let send = seq![VoiceEffectView::Send(value)];
    let r = on_voice_event(v, value);
    assert(speech(send) =~= Seq::empty());
    if kind == "response.output_text.delta"@ || kind == "response.refusal.delta"@ {
        let all = v.pending + value.at("delta"@).text_or(""@);
        let cut = phrases(all, false);
        law_phrases_keep_the_text(all, false);
        lemma_speech_of_phrases(cut.0);
        lemma_speech_concat(spoken(cut.0, true), send);
        assert(r.effects =~= spoken(cut.0, true) + send);
        assert(speech(r.effects) =~= cut.0.flatten());
        lemma_kinds_differ();
    } else if kind == "response.completed"@ {
        let cut = phrases(v.pending, true);
        let tail = seq![VoiceEffectView::Close, VoiceEffectView::Send(value)];
        law_phrases_keep_the_text(v.pending, true);
        law_last_phrases_leave_nothing(v.pending);
        lemma_speech_of_phrases(cut.0);
        lemma_speech_concat(spoken(cut.0, true), tail);
        assert(tail.drop_first() =~= send);
        assert(speech(tail) =~= Seq::empty());
        assert(r.effects =~= spoken(cut.0, true) + tail);
        assert(speech(r.effects) + r.state.pending =~= v.pending + answer_piece(value));
    } else {
        assert(speech(r.effects) + r.state.pending =~= v.pending + answer_piece(value));
    }
}

proof fn lemma_kinds_differ()
    ensures
        "response.output_text.delta"@ != "response.completed"@,
        "response.refusal.delta"@ != "response.completed"@,
{
    reveal_strlit("response.output_text.delta");
    reveal_strlit("response.refusal.delta");
    reveal_strlit("response.completed");
    assert("response.output_text.delta"@.len() != "response.completed"@.len());
    assert("response.refusal.delta"@.len() != "response.completed"@.len());
}

/// The piece of the answer that an event carries.
pub open spec fn answer_piece(value: JsonView) -> Seq<char> {
    let kind = value.at("type"@).text_or(""@);
    if kind == "response.output_text.delta"@ || kind == "response.refusal.delta"@ {
        value.at("delta"@).text_or(""@)
    } else {
        Seq::empty()
    }
}

/// The answer that some events carry.
pub open spec fn whole_answer(values: Seq<JsonView>) -> Seq<char>
    decreases values.len(),
{
    if values.len() == 0 {
        Seq::empty()
    } else {
        answer_piece(values[0]) + whole_answer(values.drop_first())
    }
}

/// What several events do, one after the other.
pub open spec fn on_voice_events(v: VoiceReplyView, values: Seq<JsonView>) -> Answered
    decreases values.len(),
{
    if values.len() == 0 {
        Answered { state: v, effects: Seq::empty(), stopped: false }
    } else {
        let first = on_voice_event(v, values[0]);
        let rest = on_voice_events(first.state, values.drop_first());
        Answered { effects: first.effects + rest.effects, ..rest }
    }
}

/// The whole answer is spoken, in order and nothing twice: up to its end what
/// was spoken and what still waits are what came, and at the end nothing
/// waits.
pub proof fn law_whole_answer_is_spoken(
    v: VoiceReplyView,
    values: Seq<JsonView>,
    completion: JsonView,
)
    requires
        !v.done,
        forall|i: int|
            0 <= i < values.len() ==> (#[trigger] values[i]).at("type"@).text_or(""@)
                != "response.completed"@,
        completion.at("type"@).text_or(""@) == "response.completed"@,
    ensures
        speech(on_voice_events(v, values).effects) + on_voice_events(v, values).state.pending
            == v.pending + whole_answer(values),
        speech(on_voice_events(v, values.push(completion)).effects) == v.pending + whole_answer(
            values,
        ),
    decreases values.len(),
{
    lemma_kinds_differ();
    let all = values.push(completion);
    if values.len() == 0 {
        reveal_with_fuel(on_voice_events, 2);
        let none = Seq::<VoiceEffectView>::empty();
        lemma_speech_of_event(v, completion);
        assert(all.drop_first() =~= values);
        let r = on_voice_event(v, completion);
        assert(r.effects + none =~= r.effects);
        assert(speech(none) + v.pending =~= v.pending + whole_answer(values));
        assert(speech(r.effects) =~= v.pending + whole_answer(values));
    } else {
        let first = on_voice_event(v, values[0]);
        let tail = values.drop_first();
        assert forall|i: int| 0 <= i < tail.len() implies (#[trigger] tail[i]).at("type"@).text_or(
            ""@,
        ) != "response.completed"@ by {
            assert(tail[i] == values[i + 1]);
        }
        assert(values[0].at("type"@).text_or(""@) != "response.completed"@);
        lemma_speech_of_event(v, values[0]);
        law_whole_answer_is_spoken(first.state, tail, completion);
        let rest = on_voice_events(first.state, tail);
        let end = on_voice_events(first.state, tail.push(completion));
        assert(all.drop_first() =~= tail.push(completion));
        lemma_speech_concat(first.effects, rest.effects);
        lemma_speech_concat(first.effects, end.effects);
        let said = speech(first.effects);
        assert((said + speech(rest.effects)) + rest.state.pending =~= said + (first.state.pending
            + whole_answer(tail)));
        assert(said + (first.state.pending + whole_answer(tail)) =~= (said + first.state.pending)
            + whole_answer(tail));
        assert((v.pending + answer_piece(values[0])) + whole_answer(tail) =~= v.pending
            + whole_answer(values));
    }
}

/// The character for six bits, in the standard alphabet of Base64.
pub open spec fn sextet(n: int) -> char {
    if n < 26 {
        (65 + n) as char
    } else if n < 52 {
        (71 + n) as char
    } else if n < 62 {
        (n - 4) as char
    } else if n == 62 {
        '+'
    } else {
        '/'
    }
}

/// Base64 with the standard alphabet and padding: three bytes make four
/// characters of six bits each; a last group of one or two bytes is filled up
/// with zero bits, and with `=` in place of the characters that it lacks.
pub open spec fn base64_text(bytes: Seq<u8>) -> Seq<char>
    decreases bytes.len(),
{
    if bytes.len() == 0 {
        Seq::empty()
    } else if bytes.len() == 1 {
        let n = bytes[0] as int * 16;
        seq![sextet(n / 64), sextet(n % 64), '=', '=']
    } else if bytes.len() == 2 {
        let n = (bytes[0] as int * 256 + bytes[1] as int) * 4;
        seq![sextet(n / 4096), sextet(n / 64 % 64), sextet(n % 64), '=']
    } else {
        let n = (bytes[0] as int * 256 + bytes[1] as int) * 256 + bytes[2] as int;
        seq![sextet(n / 262144), sextet(n / 4096 % 64), sextet(n / 64 % 64), sextet(n % 64)]
            + base64_text(bytes.skip(3))
    }
}

/// Whether the Base64 text of so many bytes can be allocated.
pub open spec fn base64_fits(n: nat) -> bool {
    4 * ((n + 2) / 3) <= isize::MAX
}

/// `base64::Engine::encode` of the engine `STANDARD`: Base64 with the standard
/// alphabet and padding. It panics where the text cannot be allocated.
#[verifier::external_body]
fn base64_encode(bytes: &[u8]) -> (r: String)
    requires
        base64_fits(bytes@.len()),
    ensures
        r@ == base64_text(bytes@),
{
    base64::Engine::encode(&base64::engine::general_purpose::STANDARD, bytes)
}

proof fn lemma_sextet(a: int, b: int)
    requires
        0 <= a < 64,
        0 <= b < 64,
    ensures
        sextet(a) != '=',
        sextet(a) == sextet(b) ==> a == b,
{
}

/// Equal sextets make equal groups.
proof fn lemma_same_group(p: int, q: int)
    requires
        0 <= p < 0x100_0000,
        0 <= q < 0x100_0000,
        sextet(p / 262144) == sextet(q / 262144),
        sextet(p / 4096 % 64) == sextet(q / 4096 % 64),
        sextet(p / 64 % 64) == sextet(q / 64 % 64),
        sextet(p % 64) == sextet(q % 64),
    ensures
        p == q,
{
    lemma_sextet(p / 262144, q / 262144);
    lemma_sextet(p / 4096 % 64, q / 4096 % 64);
    lemma_sextet(p / 64 % 64, q / 64 % 64);
    lemma_sextet(p % 64, q % 64);
}

/// Equal groups of equally many bytes hold equal bytes.
proof fn lemma_group_bytes(a: Seq<u8>, b: Seq<u8>)
    requires
        a.len() > 0,
        b.len() > 0,
        a.len() >= 3 <==> b.len() >= 3,
        a.len() < 3 ==> a.len() == b.len(),
        group(a) == group(b),
    ensures
        a[0] == b[0],
        a.len() > 1 ==> a[1] == b[1],
        a.len() > 2 ==> a[2] == b[2],
{
}

/// The audio can be recovered: different bytes have different Base64 texts.
pub proof fn law_base64_is_lossless(a: Seq<u8>, b: Seq<u8>)
    requires
        base64_text(a) == base64_text(b),
    ensures
        a == b,
    decreases a.len(),
{
    let x = base64_text(a);
    let y = base64_text(b);
    if a.len() == 0 || b.len() == 0 {
        assert(x.len() == 0 <==> a.len() == 0);
        assert(y.len() == 0 <==> b.len() == 0);
        assert(a =~= b);
    } else {
        lemma_first_group(a);
        lemma_first_group(b);
        let p = group(a);
        let q = group(b);
        lemma_sextet(p / 64 % 64, q / 64 % 64);
        lemma_sextet(p % 64, q % 64);
        lemma_sextet(q / 64 % 64, p / 64 % 64);
        lemma_sextet(q % 64, p % 64);
        assert(x[2] == y[2] && x[3] == y[3]);
        assert(a.len() > 1 <==> b.len() > 1);
        assert(a.len() > 2 <==> b.len() > 2);
        assert(sextet(p / 64 % 64) == sextet(q / 64 % 64));
        assert(sextet(p % 64) == sextet(q % 64));
        lemma_same_group(p, q);
        lemma_group_bytes(a, b);
        if a.len() >= 3 {
            assert(x.skip(4) =~= base64_text(a.skip(3)));
            assert(y.skip(4) =~= base64_text(b.skip(3)));
            law_base64_is_lossless(a.skip(3), b.skip(3));
            assert(a.take(3) =~= b.take(3));
            assert(a =~= a.take(3) + a.skip(3));
            assert(b =~= b.take(3) + b.skip(3));
        } else {
            assert(a =~= b);
        }
    }
}

/// The bits of the first group, with zero bits for bytes that it lacks.
spec fn group(bytes: Seq<u8>) -> int {
    bytes[0] as int * 65536 + (if bytes.len() > 1 {
        bytes[1] as int * 256
    } else {
        0
    }) + (if bytes.len() > 2 {
        bytes[2] as int
    } else {
        0
    })
}

/// The text begins with the characters of the first group.
proof fn lemma_first_group(bytes: Seq<u8>)
    requires
        bytes.len() > 0,
    ensures
        base64_text(bytes).len() >= 4,
        0 <= group(bytes) < 0x100_0000,
        base64_text(bytes)[0] == sextet(group(bytes) / 262144),
        base64_text(bytes)[1] == sextet(group(bytes) / 4096 % 64),
        base64_text(bytes)[2] == if bytes.len() > 1 {
            sextet(group(bytes) / 64 % 64)
        } else {
            '='
        },
        base64_text(bytes)[3] == if bytes.len() > 2 {
            sextet(group(bytes) % 64)
        } else {
            '='
        },
        bytes.len() <= 2 ==> base64_text(bytes).len() == 4,
        bytes.len() == 1 ==> group(bytes) / 64 % 64 == 0 && group(bytes) % 64 == 0,
        bytes.len() == 2 ==> group(bytes) % 64 == 0,
{
}

/// The request to speak a phrase.
pub open spec fn speech_value(text: Seq<char>) -> JsonView {
    JsonView::Object(
        map![
            "model"@ => JsonView::Str("gpt-4o-mini-tts"@),
            "voice"@ => JsonView::Str("coral"@),
            "input"@ => JsonView::Str(text),
            "response_format"@ => JsonView::Str("pcm"@),
            "instructions"@ => JsonView::Str("Speak naturally and clearly, at a conversational pace."@),
        ],
    )
}

/// The request to speak a phrase; none for a phrase that says nothing.
pub fn speech_payload(text: &str) -> (r: Option<Json>)
    ensures
        match r {
            Some(payload) => !all_space(text@) && payload@ == speech_value(text@),
            None => all_space(text@),
        },
{
    if is_blank(text) {
        return None;
    }
    Some(
        Json::object().with("model", Json::string("gpt-4o-mini-tts")).with(
            "voice",
            Json::string("coral"),
        ).with("input", Json::string(text)).with("response_format", Json::string("pcm")).with(
            "instructions",
            Json::string("Speak naturally and clearly, at a conversational pace."),
        ),
    )
}

/// An event of a voice turn that carries a number of milliseconds.
pub open spec fn timed_value(kind: Seq<char>, key: Seq<char>, ms: u64) -> JsonView {
    JsonView::Object(map!["type"@ => JsonView::Str(kind), key => JsonView::Int(ms as int)])
}

/// The event that passes a piece of speech on.
pub open spec fn audio_delta_value(bytes: Seq<u8>, segment: int) -> JsonView {
    JsonView::Object(
        map![
            "type"@ => JsonView::Str("voice.audio.delta"@),
            "audio"@ => JsonView::Str(base64_text(bytes)),
            "sample_rate"@ => JsonView::Int(24000),
            "segment"@ => JsonView::Int(segment),
        ],
    )
}

/// The speech of a turn: phrases are spoken one after the other, each as a
/// segment of its own.
pub struct Speaker {
    first: bool,
    segment: u64,
}

/// What a [`Speaker`] holds.
pub struct SpeakerView {
    /// Whether nothing was heard yet.
    pub first: bool,
    /// Segments that are complete.
    pub segment: int,
}

impl View for Speaker {
    type V = SpeakerView;

    closed spec fn view(&self) -> SpeakerView {
        SpeakerView { first: self.first, segment: self.segment as int }
    }
}

/// The events for a piece of speech, `ms` into the turn; the first one of the
/// turn is announced.
pub open spec fn audio_events(s: SpeakerView, bytes: Seq<u8>, ms: u64) -> Seq<JsonView> {
    let delta = audio_delta_value(bytes, s.segment);
    if s.first {
        seq![timed_value("voice.first_audio"@, "server_ms"@, ms), delta]
    } else {
        seq![delta]
    }
}

impl Speaker {
    pub fn new() -> (r: Speaker)
        ensures
            r@ == (SpeakerView { first: true, segment: 0 }),
    {
        Speaker { first: true, segment: 0 }
    }

    /// Takes a piece of speech, `ms` into the turn. Gives the events for the
    /// client.
    pub fn take_chunk(&mut self, bytes: &[u8], ms: u64) -> (events: Vec<Json>)
        requires
            base64_fits(bytes@.len()),
        ensures
            final(self)@ == (SpeakerView { first: false, ..old(self)@ }),
            items_view(events@) == audio_events(old(self)@, bytes@, ms),
    {
        let mut events: Vec<Json> = Vec::new();
        if self.first {
            self.first = false;
            events.push(
                Json::object().with("type", Json::string("voice.first_audio")).with(
                    "server_ms",
                    Json::Unsigned(ms),
                ),
            );
        }
        let audio = base64_encode(bytes);
        events.push(
            Json::object().with("type", Json::string("voice.audio.delta")).with(
                "audio",
                Json::Str(audio),
            ).with("sample_rate", Json::Unsigned(24000)).with(
                "segment",
                Json::Unsigned(self.segment),
            ),
        );
        assert(items_view(events@) =~= audio_events(old(self)@, bytes@, ms));
        events
    }

    /// Ends the segment of a phrase.
    pub fn end_segment(&mut self)
        requires
            old(self)@.segment < u64::MAX,
        ensures
            final(self)@ == (SpeakerView { segment: old(self)@.segment + 1, ..old(self)@ }),
    {
        self.segment = self.segment + 1;
    }
}

/// The event that reports that there is no speech.
pub open spec fn voice_error_value(message: Seq<char>) -> JsonView {
    JsonView::Object(
        map!["type"@ => JsonView::Str("voice.error"@), "message"@ => JsonView::Str(message)],
    )
}

fn voice_error(message: &str) -> (r: Json)
    ensures
        r@ == voice_error_value(message@),
{
    Json::object().with("type", Json::string("voice.error")).with(
        "message",
        Json::string(message),
    )
}

/// Speech could not be made; the text is still there.
pub open spec fn speech_failed_value() -> JsonView {
    voice_error_value("Speech generation failed. The text answer is still available."@)
}

/// Speech could not be made; the text is still there.
pub fn speech_failed() -> (r: Json)
    ensures
        r@ == speech_failed_value(),
{
    voice_error("Speech generation failed. The text answer is still available.")
}

/// Speech broke off.
pub open spec fn speech_interrupted_value() -> JsonView {
    voice_error_value("Speech stream interrupted."@)
}

/// Speech broke off.
pub fn speech_interrupted() -> (r: Json)
    ensures
        r@ == speech_interrupted_value(),
{
    voice_error("Speech stream interrupted.")
}

/// The event that begins a turn.
pub open spec fn stage_value() -> JsonView {
    JsonView::Object(
        map![
            "type"@ => JsonView::Str("voice.stage"@),
            "stage"@ => JsonView::Str("transcribing"@),
        ],
    )
}

/// The event that begins a turn.
pub fn stage_transcribing() -> (r: Json)
    ensures
        r@ == stage_value(),
{
    Json::object().with("type", Json::string("voice.stage")).with(
        "stage",
        Json::string("transcribing"),
    )
}

/// The event that gives the transcript, `ms` into the turn.
pub open spec fn transcribed_value(text: Seq<char>, ms: u64) -> JsonView {
    JsonView::Object(
        map![
            "type"@ => JsonView::Str("voice.transcribed"@),
            "text"@ => JsonView::Str(text),
            "asr_ms"@ => JsonView::Int(ms as int),
        ],
    )
}

/// The event that gives the transcript, `ms` into the turn.
pub fn transcribed_event(text: &str, ms: u64) -> (r: Json)
    ensures
        r@ == transcribed_value(text@, ms),
{
    Json::object().with("type", Json::string("voice.transcribed")).with(
        "text",
        Json::string(text),
    ).with("asr_ms", Json::Unsigned(ms))
}

/// The event that ends a turn, `ms` into it.
pub open spec fn completed_value(ms: u64) -> JsonView {
    timed_value("voice.completed"@, "server_ms"@, ms)
}

/// The event that ends a turn, `ms` into it.
pub fn completed_event(ms: u64) -> (r: Json)
    ensures
        r@ == completed_value(ms),
{
    Json::object().with("type", Json::string("voice.completed")).with(
        "server_ms",
        Json::Unsigned(ms),
    )
}

/// What can end a voice turn from outside.
#[derive(Clone, Copy, Debug, PartialEq, Eq, Structural)]
pub enum VoiceFault {
    /// The recording could not be passed on.
    NoTranscription,
    /// The model could not be asked.
    NoModel,
    /// The model's stream ended before the answer did.
    EndedEarly,
    /// The turn took too long.
    TimedOut,
}

/// What the client is told of a fault.
pub open spec fn voice_fault_text(fault: VoiceFault) -> Seq<char> {
    match fault {
        VoiceFault::NoTranscription =>
            "Transcription failed. Check audio model access or try again."@,
        VoiceFault::NoModel => "The model request failed. Please try again."@,
        VoiceFault::EndedEarly => "The model stream ended early."@,
        VoiceFault::TimedOut => "Voice request timed out."@,
    }
}

/// The event that tells the client of a fault.
pub fn fault_event(fault: VoiceFault) -> (r: Json)
    ensures
        r@ == error_value(voice_fault_text(fault)),
{
    match fault {
        VoiceFault::NoTranscription => failed(
            "Transcription failed. Check audio model access or try again.",
        ),
        VoiceFault::NoModel => failed("The model request failed. Please try again."),
        VoiceFault::EndedEarly => failed("The model stream ended early."),
        VoiceFault::TimedOut => failed("Voice request timed out."),
    }
}

/// What an event of the transcription does: a piece of the transcript follows
/// the pieces before it, and is passed on; the end may bring the whole; an
/// error is a failure; and a text on its own is the whole, unless there is one
/// already.
pub proof fn law_what_the_transcription_says(
    t: TranscriberView,
    value: JsonView,
    text: Seq<char>,
)
    ensures
        ({
            let kind = value.at("type"@);
            let heard = on_asr_event(t, value);
            &&& kind == JsonView::Str("transcript.text.delta"@) && value.at("delta"@)
                == JsonView::Str(text) ==> {
                &&& heard.state.transcript == t.transcript + text
                &&& heard.state.done == t.done
                &&& heard.events.len() == 1
                &&& heard.events[0].at("type"@) == JsonView::Str("voice.transcript.delta"@)
                &&& heard.events[0].at("delta"@) == JsonView::Str(text)
                &&& heard.failure is None
            }
            &&& kind == JsonView::Str("transcript.text.done"@) ==> {
                &&& heard.state.done
                &&& value.at("text"@) == JsonView::Str(text) ==> heard.state.transcript == text
                &&& !(value.at("text"@) is Str) ==> heard.state.transcript == t.transcript
                &&& heard.events.len() == 0
                &&& heard.failure is None
            }
            &&& heard.failure is Some <==> kind == JsonView::Str("error"@)
            &&& kind != JsonView::Str("transcript.text.delta"@) && kind != JsonView::Str(
                "transcript.text.done"@,
            ) && kind != JsonView::Str("error"@) ==> {
                &&& heard.events.len() == 0
                &&& !t.done && value.at("text"@) == JsonView::Str(text) ==> heard.state.transcript
                    == text && heard.state.done
                &&& t.done || !(value.at("text"@) is Str) ==> heard.state == t
            }
            &&& heard.state.decoder == t.decoder
            &&& heard.state.raw == t.raw
        }),
{
    reveal_strlit("transcript.text.delta");
    reveal_strlit("transcript.text.done");
    reveal_strlit("error");
    reveal_strlit("type");
    reveal_strlit("delta");
    assert("transcript.text.delta"@.len() == 21 && "transcript.text.done"@.len() == 20);
    assert("error"@.len() == 5 && "type"@.len() == 4 && "delta"@.len() == 5);
}

/// The piece of a transcript that a payload carries.
pub open spec fn transcript_in(data: Seq<char>) -> Seq<char> {
    match json_parsed(data) {
        Ok(value) => if value.at("type"@) == JsonView::Str("transcript.text.delta"@) {
            value.at("delta"@).text_or(Seq::empty())
        } else {
            Seq::empty()
        },
        Err(_) => Seq::empty(),
    }
}

/// The pieces of a transcript that payloads carry, one after the other.
pub open spec fn transcripts_in(payloads: Seq<Seq<char>>) -> Seq<char>
    decreases payloads.len(),
{
    if payloads.len() == 0 {
        Seq::empty()
    } else {
        transcript_in(payloads[0]) + transcripts_in(payloads.drop_first())
    }
}

/// Whether a payload says nothing of the transcript as a whole: it is a piece
/// of it, or no event that the transcription knows.
pub open spec fn says_no_whole(data: Seq<char>) -> bool {
    json_parsed(data) matches Ok(value) ==> value.at("type"@) == JsonView::Str(
        "transcript.text.delta"@,
    ) || (value.at("type"@) != JsonView::Str("transcript.text.done"@) && value.at("type"@)
        != JsonView::Str("error"@) && !(value.at("text"@) is Str))
}

/// A transcript that streams is every piece of it, in order.
pub proof fn law_transcript_is_every_delta(t: TranscriberView, payloads: Seq<Seq<char>>)
    requires
        forall|i: int| 0 <= i < payloads.len() ==> says_no_whole(#[trigger] payloads[i]),
    ensures
        on_asr_payloads(t, payloads).state.transcript == t.transcript + transcripts_in(payloads),
        on_asr_payloads(t, payloads).state.done == t.done,
        on_asr_payloads(t, payloads).failure is None,
    decreases payloads.len(),
{
    if payloads.len() == 0 {
        assert(t.transcript + Seq::empty() =~= t.transcript);
    } else {
        let data = payloads[0];
        let tail = payloads.drop_first();
        let first = on_asr_payload(t, data);
        assert(says_no_whole(payloads[0]));
        assert forall|i: int| 0 <= i < tail.len() implies says_no_whole(#[trigger] tail[i]) by {
            assert(tail[i] == payloads[i + 1]);
        }
        reveal_strlit("");
        assert(""@ =~= Seq::<char>::empty());
        if let Ok(value) = json_parsed(data) {
            law_what_the_transcription_says(t, value, value.at("delta"@).text_or(Seq::empty()));
        }
        assert(first.state.transcript =~= t.transcript + transcript_in(data));
        law_transcript_is_every_delta(first.state, tail);
        assert((t.transcript + transcript_in(data)) + transcripts_in(tail) =~= t.transcript
            + transcripts_in(payloads));
    }
}

/// A transcript can be used exactly if it is complete, says something, and has
/// up to 4,000 bytes; a body without framing counts where nothing else came.
pub proof fn law_which_transcripts_are_used(t: TranscriberView, value: JsonView, text: Seq<char>)
    ensures
        t.done ==> (asr_outcome(t) is Ok <==> !all_space(t.transcript) && utf8_len(t.transcript)
            <= 4000),
        t.done && asr_outcome(t) is Ok ==> asr_outcome(t) == Ok::<Seq<char>, Seq<char>>(
            t.transcript,
        ),
        !t.done && valid_utf8(t.raw) && json_parsed(decode_utf8(t.raw)) == Ok::<
            JsonView,
            Seq<char>,
        >(value) && value.at("text"@) == JsonView::Str(text) && !all_space(text) && utf8_len(text)
            <= 4000 ==> asr_outcome(t) == Ok::<Seq<char>, Seq<char>>(text),
        !t.done && (!valid_utf8(t.raw) || json_parsed(decode_utf8(t.raw)) is Err) ==> asr_outcome(
            t,
        ) is Err,
{
}

/// Of the raw body everything is kept until it has 512,000 bytes.
pub proof fn law_raw_body_is_kept(t: TranscriberView, bytes: Seq<u8>)
    requires
        t.raw.len() < 512_000,
    ensures
        on_asr_chunk(t, bytes).state.raw == t.raw + bytes,
        on_asr_chunk(t, bytes).state.decoder == pushed(t.decoder, bytes).state,
        pushed(t.decoder, bytes).fault is Some ==> on_asr_chunk(t, bytes).failure is Some,
{
    let read = pushed(t.decoder, bytes);
    let next = TranscriberView { decoder: read.state, raw: t.raw + bytes, ..t };
    lemma_payloads_keep_the_raw(next, read.events);
}

proof fn lemma_payloads_keep_the_raw(t: TranscriberView, payloads: Seq<Seq<char>>)
    ensures
        on_asr_payloads(t, payloads).state.raw == t.raw,
        on_asr_payloads(t, payloads).state.decoder == t.decoder,
    decreases payloads.len(),
{
    if payloads.len() > 0 {
        lemma_payloads_keep_the_raw(
            on_asr_payload(t, payloads[0]).state,
            payloads.drop_first(),
        );
    }
}

/// The events for the client among some effects.
pub open spec fn sends(effects: Seq<VoiceEffectView>) -> Seq<JsonView>
    decreases effects.len(),
{
    if effects.len() == 0 {
        Seq::empty()
    } else {
        match effects.last() {
            VoiceEffectView::Send(value) => sends(effects.drop_last()).push(value),
            _ => sends(effects.drop_last()),
        }
    }
}

proof fn lemma_sends_concat(a: Seq<VoiceEffectView>, b: Seq<VoiceEffectView>)
    ensures
        sends(a + b) == sends(a) + sends(b),
    decreases b.len(),
{
    if b.len() == 0 {
        assert(a + b =~= a);
        assert(sends(a) + sends(b) =~= sends(a));
    } else {
        lemma_sends_concat(a, b.drop_last());
        assert((a + b).drop_last() =~= a + b.drop_last());
        assert(sends(a + b) =~= sends(a) + sends(b));
    }
}

proof fn lemma_spoken_sends_nothing(texts: Seq<Seq<char>>, open: bool)
    ensures
        sends(spoken(texts, open)).len() == 0,
    decreases texts.len(),
{
    if open && texts.len() > 0 {
        lemma_spoken_sends_nothing(texts.drop_last(), open);
        assert(spoken(texts, open).drop_last() =~= spoken(texts.drop_last(), open));
    }
}

/// Every event of the answer goes to the client, unchanged and once, after what
/// it makes be spoken.
pub proof fn law_event_is_passed_on(v: VoiceReplyView, value: JsonView)
    ensures
        sends(on_voice_event(v, value).effects) == seq![value],
        on_voice_event(v, value).effects.last() == VoiceEffectView::Send(value),
        on_voice_event(v, value).state.decoder == v.decoder,
        on_voice_event(v, value).state.done <==> v.done || value.at("type"@) == JsonView::Str(
            "response.completed"@,
        ),
        on_voice_event(v, value).stopped <==> value.at("type"@) == JsonView::Str(
            "response.failed"@,
        ) || value.at("type"@) == JsonView::Str("response.incomplete"@) || value.at("type"@)
            == JsonView::Str("error"@),
{
    lemma_event_kinds();
    reveal_strlit("");
    let effects = on_voice_event(v, value).effects;
    let before = effects.drop_last();
    let kind = value.at("type"@).text_or(""@);
    let cut = phrases(v.pending + value.at("delta"@).text_or(""@), false);
    let end = phrases(v.pending, true);
    lemma_spoken_sends_nothing(cut.0, !v.done);
    lemma_spoken_sends_nothing(end.0, true);
    assert(effects.last() == VoiceEffectView::Send(value));
    if kind == "response.output_text.delta"@ || kind == "response.refusal.delta"@ {
        assert(before =~= spoken(cut.0, !v.done));
    } else if kind == "response.completed"@ {
        if v.done {
            assert(before =~= Seq::empty());
        } else {
            assert(before =~= spoken(end.0, true).push(VoiceEffectView::Close));
            assert(before.drop_last() =~= spoken(end.0, true));
        }
    } else {
        assert(before =~= Seq::empty());
    }
    assert(sends(before) =~= Seq::empty());
    assert(sends(effects) =~= seq![value]);
}

/// The events in payloads, in order.
pub open spec fn events_among(payloads: Seq<Seq<char>>) -> Seq<JsonView>
    decreases payloads.len(),
{
    if payloads.len() == 0 {
        Seq::empty()
    } else {
        match json_parsed(payloads[0]) {
            Ok(value) => seq![value] + events_among(payloads.drop_first()),
            Err(_) => events_among(payloads.drop_first()),
        }
    }
}

/// As long as the answer does not fail, all its events go to the client, in
/// order.
pub proof fn law_all_events_are_passed_on(v: VoiceReplyView, payloads: Seq<Seq<char>>)
    requires
        !on_voice_payloads(v, payloads).stopped,
    ensures
        sends(on_voice_payloads(v, payloads).effects) == events_among(payloads),
    decreases payloads.len(),
{
    if payloads.len() > 0 {
        let first = on_voice_payload(v, payloads[0]);
        let rest = on_voice_payloads(first.state, payloads.drop_first());
        law_all_events_are_passed_on(first.state, payloads.drop_first());
        lemma_sends_concat(first.effects, rest.effects);
        match json_parsed(payloads[0]) {
            Ok(value) => {
                law_event_is_passed_on(v, value);
            },
            Err(_) => {
                assert(sends(first.effects) + sends(rest.effects) =~= sends(rest.effects));
            },
        }
    }
}

/// The pieces of the answer that payloads of a voice turn carry.
pub open spec fn spoken_in(payloads: Seq<Seq<char>>) -> Seq<char>
    decreases payloads.len(),
{
    if payloads.len() == 0 {
        Seq::empty()
    } else {
        (match json_parsed(payloads[0]) {
            Ok(value) => if carries_answer(value) {
                value.at("delta"@).text_or(Seq::empty())
            } else {
                Seq::empty()
            },
            Err(_) => Seq::empty(),
        }) + spoken_in(payloads.drop_first())
    }
}

/// A piece of the answer is not held back: what it makes be spoken, and what
/// waits after it, are what waited before and the piece, in order; and no
/// complete phrase waits.
pub proof fn law_phrases_are_spoken_at_once(v: VoiceReplyView, value: JsonView, i: int)
    requires
        !v.done,
        carries_answer(value),
    ensures
        ({
            let said = on_voice_event(v, value);
            &&& speech(said.effects) + said.state.pending == v.pending + value.at("delta"@).text_or(
                Seq::empty(),
            )
            &&& 0 <= i < said.state.pending.len() ==> !phrase_may_end(said.state.pending, i)
        }),
{
    lemma_event_kinds();
    lemma_kinds_differ();
    reveal_strlit("");
    assert(""@ =~= Seq::<char>::empty());
    lemma_speech_of_event(v, value);
    let all = v.pending + value.at("delta"@).text_or(Seq::empty());
    lemma_rest_is_unfinished(all);
    law_phrases_end_at_the_first_chance(phrases(all, false).1, false);
}

proof fn lemma_rest_is_unfinished(s: Seq<char>)
    ensures
        phrase_chars(phrases(s, false).1, false) is None,
    decreases s.len(),
{
    lemma_phrase_chars(s, false);
    if let Some(k) = phrase_chars(s, false) {
        lemma_rest_is_unfinished(s.skip(k));
    }
}

/// Over a stream that has not ended, nothing of the answer is lost or comes
/// twice: what was spoken and what waits are what came.
pub proof fn law_stream_is_spoken_as_it_comes(v: VoiceReplyView, payloads: Seq<Seq<char>>)
    requires
        !v.done,
        !on_voice_payloads(v, payloads).stopped,
        !on_voice_payloads(v, payloads).state.done,
    ensures
        speech(on_voice_payloads(v, payloads).effects) + on_voice_payloads(
            v,
            payloads,
        ).state.pending == v.pending + spoken_in(payloads),
    decreases payloads.len(),
{
    if payloads.len() == 0 {
        assert(speech(Seq::empty()) + v.pending =~= v.pending + spoken_in(payloads));
    } else {
        let first = on_voice_payload(v, payloads[0]);
        let tail = payloads.drop_first();
        let rest = on_voice_payloads(first.state, tail);
        lemma_done_lasts(first.state, tail);
        let piece = match json_parsed(payloads[0]) {
            Ok(value) => if carries_answer(value) {
                value.at("delta"@).text_or(Seq::empty())
            } else {
                Seq::empty()
            },
            Err(_) => Seq::empty(),
        };
        assert(speech(first.effects) + first.state.pending =~= v.pending + piece) by {
            lemma_event_kinds();
            lemma_kinds_differ();
            reveal_strlit("");
            match json_parsed(payloads[0]) {
                Ok(value) => {
                    law_event_is_passed_on(v, value);
                    if carries_answer(value) {
                        law_phrases_are_spoken_at_once(v, value, 0);
                    } else {
                        reveal_with_fuel(speech, 2);
                        assert(first.effects =~= seq![VoiceEffectView::Send(value)]);
                        assert(first.effects.drop_first() =~= Seq::empty());
                    }
                },
                Err(_) => {},
            }
        }
        law_stream_is_spoken_as_it_comes(first.state, tail);
        lemma_speech_concat(first.effects, rest.effects);
        assert((speech(first.effects) + speech(rest.effects)) + rest.state.pending =~= speech(
            first.effects,
        ) + (first.state.pending + spoken_in(tail)));
        assert((speech(first.effects) + first.state.pending) + spoken_in(tail) =~= v.pending
            + spoken_in(payloads));
    }
}

proof fn lemma_done_lasts(v: VoiceReplyView, payloads: Seq<Seq<char>>)
    ensures
        v.done ==> on_voice_payloads(v, payloads).state.done,
    decreases payloads.len(),
{
    if payloads.len() > 0 {
        lemma_done_lasts(on_voice_payload(v, payloads[0]).state, payloads.drop_first());
    }
}

/// The end of the answer speaks what waits, all of it, and closes the speech,
/// once.
pub proof fn law_completion_closes_the_speech(v: VoiceReplyView, value: JsonView)
    requires
        value.at("type"@) == JsonView::Str("response.completed"@),
    ensures
        ({
            let said = on_voice_event(v, value);
            let n = said.effects.len();
            &&& said.state.done
            &&& !v.done ==> said.state.pending.len() == 0
            &&& !v.done ==> speech(said.effects) == v.pending
            &&& !v.done ==> n >= 2 && said.effects[n - 2] == VoiceEffectView::Close
            &&& v.done ==> said.effects == seq![VoiceEffectView::Send(value)]
        }),
{
    lemma_event_kinds();
    lemma_kinds_differ();
    reveal_strlit("");
    law_last_phrases_leave_nothing(v.pending);
    law_phrases_keep_the_text(v.pending, true);
    let said = on_voice_event(v, value);
    if !v.done {
        lemma_speech_of_event(v, value);
        assert(speech(said.effects) + said.state.pending =~= speech(said.effects));
    } else {
        assert(said.effects =~= seq![VoiceEffectView::Send(value)]);
    }
}

/// The model is asked with the history and then the transcript, as a message of
/// the user.
pub proof fn law_voice_request_carries_the_transcript(
    model: Seq<char>,
    history: Seq<MessageView>,
    transcript: Seq<char>,
)
    ensures
        ({
            let request = voice_request_value(model, history, transcript);
            &&& request.at("model"@) == JsonView::Str(model)
            &&& request.at("stream"@) == JsonView::Bool(true)
            &&& request.at("input"@) == JsonView::Array(
                message_values(history).push(
                    JsonView::Object(
                        map![
                            "role"@ => JsonView::Str("user"@),
                            "content"@ => JsonView::Str(transcript),
                        ],
                    ),
                ),
            )
        }),
{
    reveal_strlit("input");
    reveal_strlit("model");
    reveal_strlit("stream");
    reveal_strlit("store");
    reveal_strlit("instructions");
    reveal_strlit("reasoning");
    reveal_strlit("max_output_tokens");
    assert("input"@.len() == 5 && "model"@.len() == 5 && "stream"@.len() == 6);
    assert("store"@.len() == 5 && "reasoning"@.len() == 9);
    assert("instructions"@.len() == 12 && "max_output_tokens"@.len() == 17);
    assert("input"@[0] == 'i' && "model"@[0] == 'm' && "store"@[0] == 's');
}

/// A request to speak carries the phrase, unchanged.
pub proof fn law_speech_request_carries_the_phrase(text: Seq<char>)
    ensures
        speech_value(text).at("input"@) == JsonView::Str(text),
{
    reveal_strlit("input");
    reveal_strlit("model");
    reveal_strlit("voice");
    reveal_strlit("response_format");
    reveal_strlit("instructions");
    assert("input"@.len() == 5 && "response_format"@.len() == 15 && "instructions"@.len() == 12);
    assert("input"@[0] == 'i' && "model"@[0] == 'm' && "voice"@[0] == 'v');
}

/// The audio services are beside the responses of the model.
pub proof fn law_audio_is_beside_the_model(base: Seq<char>, service: Seq<char>)
    requires
        !"/responses"@.is_suffix_of(base),
    ensures
        audio_url_of(base + "/responses"@, service) == base + "/audio/"@ + service,
        audio_url_of(base, service) == base + "/audio/"@ + service,
{
    reveal_strlit("/responses");
    law_suffixes_go(base, "/responses"@);
}

/// A piece of speech is passed on as it is, with the number of its segment; the
/// first one of a turn is announced before it, and no other.
pub proof fn law_audio_is_passed_on(s: SpeakerView, bytes: Seq<u8>, ms: u64)
    ensures
        ({
            let events = audio_events(s, bytes, ms);
            let delta = events.last();
            &&& events.len() == if s.first {
                2int
            } else {
                1int
            }
            &&& delta.at("type"@) == JsonView::Str("voice.audio.delta"@)
            &&& delta.at("audio"@) == JsonView::Str(base64_text(bytes))
            &&& delta.at("segment"@) == JsonView::Int(s.segment)
            &&& delta.at("sample_rate"@) == JsonView::Int(24000)
            &&& s.first ==> events[0].at("type"@) == JsonView::Str("voice.first_audio"@)
            &&& s.first ==> events[0].at("server_ms"@) == JsonView::Int(ms as int)
        }),
{
    reveal_strlit("type");
    reveal_strlit("audio");
    reveal_strlit("segment");
    reveal_strlit("sample_rate");
    reveal_strlit("server_ms");
    assert("type"@.len() == 4 && "audio"@.len() == 5 && "segment"@.len() == 7);
    assert("sample_rate"@.len() == 11 && "server_ms"@.len() == 9);
}

/// A chunk of the transcription is heard in full: where it can be decoded, all
/// its payloads are taken, in order.
pub proof fn law_transcription_chunks_are_heard(t: TranscriberView, bytes: Seq<u8>)
    requires
        pushed(t.decoder, bytes).fault is None,
        forall|i: int|
            0 <= i < pushed(t.decoder, bytes).events.len() ==> says_no_whole(
                #[trigger] pushed(t.decoder, bytes).events[i],
            ),
    ensures
        on_asr_chunk(t, bytes).state.transcript == t.transcript + transcripts_in(
            pushed(t.decoder, bytes).events,
        ),
        on_asr_chunk(t, bytes).state.done == t.done,
        on_asr_chunk(t, bytes).failure is None,
{
    let read = pushed(t.decoder, bytes);
    let next = TranscriberView {
        decoder: read.state,
        raw: if t.raw.len() < MAX_RAW {
            t.raw + bytes
        } else {
            t.raw
        },
        ..t
    };
    law_transcript_is_every_delta(next, read.events);
}

/// A chunk of the answer is heard in full: where it can be decoded and does not
/// fail, all its events go to the client, in order; where it cannot be decoded,
/// the answer stops.
pub proof fn law_answer_chunks_are_heard(v: VoiceReplyView, bytes: Seq<u8>)
    ensures
        ({
            let read = pushed(v.decoder, bytes);
            let said = on_voice_chunk(v, bytes);
            &&& read.fault is Some ==> said.stopped
            &&& !said.stopped ==> sends(said.effects) == events_among(read.events)
            &&& said.state.decoder == read.state
            &&& !v.done && !said.stopped && !said.state.done ==> speech(said.effects)
                + said.state.pending == v.pending + spoken_in(read.events)
        }),
{
    let read = pushed(v.decoder, bytes);
    let next = VoiceReplyView { decoder: read.state, ..v };
    lemma_payloads_keep_the_decoder(next, read.events);
    if read.fault is None && !on_voice_payloads(next, read.events).stopped {
        law_all_events_are_passed_on(next, read.events);
        if !v.done && !on_voice_payloads(next, read.events).state.done {
            law_stream_is_spoken_as_it_comes(next, read.events);
        }
    }
}

proof fn lemma_payloads_keep_the_decoder(v: VoiceReplyView, payloads: Seq<Seq<char>>)
    ensures
        on_voice_payloads(v, payloads).state.decoder == v.decoder,
    decreases payloads.len(),
{
    if payloads.len() > 0 {
        lemma_payloads_keep_the_decoder(
            on_voice_payload(v, payloads[0]).state,
            payloads.drop_first(),
        );
    }
}

/// The answer stops exactly where one of its events is a failure.
pub proof fn law_failures_stop_the_answer(v: VoiceReplyView, payloads: Seq<Seq<char>>)
    ensures
        on_voice_payloads(v, payloads).stopped <==> exists|i: int|
            0 <= i < payloads.len() && fails_in(#[trigger] payloads[i]),
    decreases payloads.len(),
{
    if payloads.len() > 0 {
        let first = on_voice_payload(v, payloads[0]);
        let tail = payloads.drop_first();
        if let Ok(value) = json_parsed(payloads[0]) {
            law_event_is_passed_on(v, value);
        }
        assert(first.stopped <==> fails_in(payloads[0]));
        if !first.stopped {
            law_failures_stop_the_answer(first.state, tail);
            if exists|i: int| 0 <= i < tail.len() && fails_in(#[trigger] tail[i]) {
                let i = choose|i: int| 0 <= i < tail.len() && fails_in(#[trigger] tail[i]);
                assert(fails_in(payloads[i + 1]));
            }
            if exists|i: int| 0 <= i < payloads.len() && fails_in(#[trigger] payloads[i]) {
                let i = choose|i: int| 0 <= i < payloads.len() && fails_in(#[trigger] payloads[i]);
                assert(fails_in(tail[i - 1]));
            }
        }
    }
}

/// Whether a payload of the answer says that it failed.
pub open spec fn fails_in(data: Seq<char>) -> bool {
    json_parsed(data) matches Ok(value) && carries_failure(value)
}

} // verus!
