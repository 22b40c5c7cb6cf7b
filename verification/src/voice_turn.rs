//! One voice turn: a recording is transcribed, the transcript answered, and the
//! answer spoken. A machine that is told what happened, and says what to send
//! and to speak, and what it waits for.

use vstd::prelude::*;
use crate::json::Json;
use crate::json::{items_view, JsonView};
use crate::messages::Message;
use crate::messages::{message_views, MessageView};
use crate::speech::{
    completed_event, fault_event, stage_transcribing, transcribed_event, voice_payload,
    Transcriber, VoiceEffect, VoiceFault, VoiceReply,
};
use crate::speech::{
    asr_outcome, completed_value, no_answer, no_transcript, on_asr_chunk, on_voice_chunk,
    stage_value, transcribed_value, voice_effects, voice_fault_text, voice_request_value,
    TranscriberView, VoiceEffectView, VoiceReplyView,
};
use crate::sse::error_value;
use crate::voice::failed;

verus! {

/// How long the answer and its speech may take together, in seconds.
pub const ANSWER_SECS: u64 = 180;

/// What a voice turn is told.
pub enum VoiceEvent {
    /// The service that was asked responds.
    Accepted,
    /// It could not be asked, or refused.
    Refused,
    /// A piece of its response: of the transcription, or of the answer.
    Chunk(Vec<u8>),
    /// Its response ended or broke off.
    Ended,
    /// An event of the speech.
    Speech(Json),
    /// All that there is to speak was spoken.
    SpeechEnded,
    /// The time for the answer is over.
    Late,
}

/// What a [`VoiceEvent`] holds.
pub enum VoiceEventView {
    Accepted,
    Refused,
    Chunk(Seq<u8>),
    Ended,
    Speech(JsonView),
    SpeechEnded,
    Late,
}

impl View for VoiceEvent {
    type V = VoiceEventView;

    open spec fn view(&self) -> VoiceEventView {
        match self {
            VoiceEvent::Accepted => VoiceEventView::Accepted,
            VoiceEvent::Refused => VoiceEventView::Refused,
            VoiceEvent::Chunk(bytes) => VoiceEventView::Chunk(bytes@),
            VoiceEvent::Ended => VoiceEventView::Ended,
            VoiceEvent::Speech(value) => VoiceEventView::Speech(value@),
            VoiceEvent::SpeechEnded => VoiceEventView::SpeechEnded,
            VoiceEvent::Late => VoiceEventView::Late,
        }
    }
}

/// What a voice turn waits for.
pub enum VoiceAction {
    /// The response to the recording.
    Transcribe,
    /// More of the transcription.
    Listen,
    /// The response to a request of the model.
    Ask(Json),
    /// More of the answer, more of the speech, or both.
    Answer { answer: bool, speech: bool },
    /// Nothing: the turn is over.
    Stop,
}

/// What a [`VoiceAction`] holds.
pub enum VoiceActionView {
    Transcribe,
    Listen,
    Ask(JsonView),
    Answer { answer: bool, speech: bool },
    Stop,
}

impl View for VoiceAction {
    type V = VoiceActionView;

    open spec fn view(&self) -> VoiceActionView {
        match self {
            VoiceAction::Transcribe => VoiceActionView::Transcribe,
            VoiceAction::Listen => VoiceActionView::Listen,
            VoiceAction::Ask(payload) => VoiceActionView::Ask(payload@),
            VoiceAction::Answer { answer, speech } => VoiceActionView::Answer {
                answer: *answer,
                speech: *speech,
            },
            VoiceAction::Stop => VoiceActionView::Stop,
        }
    }
}

/// The stages of a voice turn.
#[derive(Clone, Copy, Debug, PartialEq, Eq, Structural)]
pub enum Stage {
    Recorded,
    Transcribing,
    Asking,
    Answering,
    Completed,
    Failed,
}

/// One voice turn.
pub struct VoiceTurn {
    model: String,
    history: Vec<Message>,
    stage: Stage,
    transcriber: Transcriber,
    transcript: String,
    reply: VoiceReply,
    spoken: bool,
}

/// What a [`VoiceTurn`] holds.
#[verifier::ext_equal]
pub struct VoiceTurnView {
    pub model: Seq<char>,
    pub history: Seq<MessageView>,
    pub stage: Stage,
    pub transcriber: TranscriberView,
    pub transcript: Seq<char>,
    pub reply: VoiceReplyView,
    /// Whether all was spoken.
    pub spoken: bool,
}

impl View for VoiceTurn {
    type V = VoiceTurnView;

    closed spec fn view(&self) -> VoiceTurnView {
        VoiceTurnView {
            model: self.model@,
            history: message_views(self.history@),
            stage: self.stage,
            transcriber: self.transcriber@,
            transcript: self.transcript@,
            reply: self.reply@,
            spoken: self.spoken,
        }
    }
}

/// A turn that has just begun.
pub open spec fn recorded(model: Seq<char>, history: Seq<MessageView>) -> VoiceTurnView {
    VoiceTurnView {
        model,
        history,
        stage: Stage::Recorded,
        transcriber: no_transcript(),
        transcript: Seq::empty(),
        reply: no_answer(),
        spoken: false,
    }
}

/// A turn that can arise: there is no answer before the model is asked, and
/// the turn completes when both the answer and the speech have ended.
pub open spec fn voice_sound(t: VoiceTurnView) -> bool {
    &&& stage_rank(t.stage) < stage_rank(Stage::Answering) ==> !t.reply.done && !t.spoken
    &&& t.stage == Stage::Answering ==> !(t.reply.done && t.spoken)
    &&& t.stage == Stage::Completed ==> t.reply.done && t.spoken
}

/// What a turn waits for.
pub open spec fn voice_awaited(t: VoiceTurnView) -> VoiceActionView {
    match t.stage {
        Stage::Recorded => VoiceActionView::Transcribe,
        Stage::Transcribing => VoiceActionView::Listen,
        Stage::Asking => VoiceActionView::Ask(
            voice_request_value(t.model, t.history, t.transcript),
        ),
        Stage::Answering => VoiceActionView::Answer { answer: !t.reply.done, speech: !t.spoken },
        Stage::Completed => VoiceActionView::Stop,
        Stage::Failed => VoiceActionView::Stop,
    }
}

/// Events, sent one after the other.
pub open spec fn sent_events(events: Seq<JsonView>) -> Seq<VoiceEffectView> {
    events.map_values(|value: JsonView| VoiceEffectView::Send(value))
}

/// A turn that fails, with a message for the client.
pub open spec fn voice_failed(
    t: VoiceTurnView,
    effects: Seq<VoiceEffectView>,
    message: Seq<char>,
) -> (VoiceTurnView, Seq<VoiceEffectView>) {
    (
        VoiceTurnView { stage: Stage::Failed, ..t },
        effects.push(VoiceEffectView::Send(error_value(message))),
    )
}

/// The end of the transcription: a transcript that can be used is told, and
/// the model asked; without one the turn fails.
pub open spec fn on_transcript(
    t: VoiceTurnView,
    effects: Seq<VoiceEffectView>,
    ms: u64,
) -> (VoiceTurnView, Seq<VoiceEffectView>) {
    let over = VoiceTurnView { transcriber: no_transcript(), ..t };
    match asr_outcome(t.transcriber) {
        Ok(text) => (
            VoiceTurnView { stage: Stage::Asking, transcript: text, ..over },
            effects.push(VoiceEffectView::Send(transcribed_value(text, ms))),
        ),
        Err(message) => voice_failed(over, effects, message),
    }
}

/// A piece of the transcription, which may be its last.
pub open spec fn on_listened(t: VoiceTurnView, bytes: Seq<u8>, ms: u64) -> (
    VoiceTurnView,
    Seq<VoiceEffectView>,
) {
    let heard = on_asr_chunk(t.transcriber, bytes);
    let next = VoiceTurnView { transcriber: heard.state, ..t };
    match heard.failure {
        Some(message) => voice_failed(next, sent_events(heard.events), message),
        None => if heard.state.done {
            on_transcript(next, sent_events(heard.events), ms)
        } else {
            (next, sent_events(heard.events))
        },
    }
}

/// The turn completes when both the answer and the speech have ended.
pub open spec fn settled_voice(t: VoiceTurnView, effects: Seq<VoiceEffectView>, ms: u64) -> (
    VoiceTurnView,
    Seq<VoiceEffectView>,
) {
    if t.reply.done && t.spoken {
        (
            VoiceTurnView { stage: Stage::Completed, ..t },
            effects.push(VoiceEffectView::Send(completed_value(ms))),
        )
    } else {
        (t, effects)
    }
}

/// A piece of the answer.
pub open spec fn on_answered(t: VoiceTurnView, bytes: Seq<u8>, ms: u64) -> (
    VoiceTurnView,
    Seq<VoiceEffectView>,
) {
    let said = on_voice_chunk(t.reply, bytes);
    let next = VoiceTurnView { reply: said.state, ..t };
    if said.stopped {
        (VoiceTurnView { stage: Stage::Failed, ..next }, said.effects)
    } else {
        settled_voice(next, said.effects, ms)
    }
}

/// What an event does to a turn, `ms` after it began. An event that the stage
/// does not wait for does nothing.
pub open spec fn voice_step(t: VoiceTurnView, event: VoiceEventView, ms: u64) -> (
    VoiceTurnView,
    Seq<VoiceEffectView>,
) {
    let nothing = Seq::<VoiceEffectView>::empty();
    match (t.stage, event) {
        (Stage::Recorded, VoiceEventView::Accepted) => (
            VoiceTurnView { stage: Stage::Transcribing, ..t },
            nothing,
        ),
        (Stage::Recorded, VoiceEventView::Refused) => voice_failed(
            t,
            nothing,
            voice_fault_text(VoiceFault::NoTranscription),
        ),
        (Stage::Transcribing, VoiceEventView::Chunk(bytes)) => on_listened(t, bytes, ms),
        (Stage::Transcribing, VoiceEventView::Ended) => on_transcript(t, nothing, ms),
        (Stage::Asking, VoiceEventView::Accepted) => (
            VoiceTurnView { stage: Stage::Answering, ..t },
            nothing,
        ),
        (Stage::Asking, VoiceEventView::Refused) => voice_failed(
            t,
            nothing,
            voice_fault_text(VoiceFault::NoModel),
        ),
        (Stage::Answering, VoiceEventView::Chunk(bytes)) => if t.reply.done {
            (t, nothing)
        } else {
            on_answered(t, bytes, ms)
        },
        (Stage::Answering, VoiceEventView::Ended) => if t.reply.done {
            (t, nothing)
        } else {
            voice_failed(t, nothing, voice_fault_text(VoiceFault::EndedEarly))
        },
        (Stage::Answering, VoiceEventView::Speech(value)) => if t.spoken {
            (t, nothing)
        } else {
            (t, nothing.push(VoiceEffectView::Send(value)))
        },
        (Stage::Answering, VoiceEventView::SpeechEnded) => settled_voice(
            VoiceTurnView { spoken: true, ..t },
            nothing,
            ms,
        ),
        (Stage::Answering, VoiceEventView::Late) => voice_failed(
            t,
            nothing,
            voice_fault_text(VoiceFault::TimedOut),
        ),
        _ => (t, nothing),
    }
}

/// Adds an event for the client.
fn send_event(out: &mut Vec<VoiceEffect>, value: Json)
    ensures
        voice_effects(final(out)@) == voice_effects(old(out)@).push(
            VoiceEffectView::Send(value@),
        ),
{
    let ghost before = voice_effects(out@);
    let ghost sent = VoiceEffectView::Send(value@);
    out.push(VoiceEffect::Send(value));
    assert(voice_effects(out@) =~= before.push(sent));
}

/// Sends events, one after the other.
fn send_events(events: Vec<Json>) -> (out: Vec<VoiceEffect>)
    ensures
        voice_effects(out@) == sent_events(items_view(events@)),
{
    let ghost all = items_view(events@);
    let mut out: Vec<VoiceEffect> = Vec::new();
    assert(voice_effects(out@) =~= sent_events(all.take(0)));
    for event in iter: events
        invariant
            all == items_view(iter.seq()),
            voice_effects(out@) == sent_events(all.take(iter.index())),
    {
        assert(sent_events(all.take(iter.index() + 1)) =~= sent_events(
            all.take(iter.index()),
        ).push(VoiceEffectView::Send(event@)));
        send_event(&mut out, event);
    }
    assert(all.take(all.len() as int) =~= all);
    out
}

impl VoiceTurn {
    /// Begins a turn that answers a recording. Gives its first effects too.
    pub fn begin(model: &str, history: Vec<Message>) -> (r: (VoiceTurn, Vec<VoiceEffect>))
        ensures
            r.0@ == recorded(model@, message_views(history@)),
            voice_sound(r.0@),
            voice_effects(r.1@) == seq![VoiceEffectView::Send(stage_value())],
    {
        let turn = VoiceTurn {
            model: model.to_owned(),
            history,
            stage: Stage::Recorded,
            transcriber: Transcriber::new(),
            transcript: String::new(),
            reply: VoiceReply::new(),
            spoken: false,
        };
        assert(turn@.transcript =~= Seq::empty());
        let mut out: Vec<VoiceEffect> = Vec::new();
        send_event(&mut out, stage_transcribing());
        assert(voice_effects(out@) =~= seq![VoiceEffectView::Send(stage_value())]);
        (turn, out)
    }

    /// What the turn waits for.
    pub fn awaits(&self) -> (r: VoiceAction)
        ensures
            r@ == voice_awaited(self@),
    {
        match self.stage {
            Stage::Recorded => VoiceAction::Transcribe,
            Stage::Transcribing => VoiceAction::Listen,
            Stage::Asking => VoiceAction::Ask(
                voice_payload(self.model.as_str(), &self.history, self.transcript.as_str()),
            ),
            Stage::Answering => VoiceAction::Answer {
                answer: !self.reply.is_done(),
                speech: !self.spoken,
            },
            Stage::Completed => VoiceAction::Stop,
            Stage::Failed => VoiceAction::Stop,
        }
    }

    /// Ends the turn with a fault.
    fn fail(&mut self, fault: VoiceFault) -> (out: Vec<VoiceEffect>)
        ensures
            final(self)@ == voice_failed(old(self)@, Seq::empty(), voice_fault_text(fault)).0,
            voice_effects(out@) == voice_failed(
                old(self)@,
                Seq::empty(),
                voice_fault_text(fault),
            ).1,
    {
        self.stage = Stage::Failed;
        let mut out: Vec<VoiceEffect> = Vec::new();
        assert(voice_effects(out@) =~= Seq::empty());
        send_event(&mut out, fault_event(fault));
        out
    }

    /// Ends the transcription.
    fn end_transcription(&mut self, ms: u64, out: &mut Vec<VoiceEffect>)
        ensures
            final(self)@ == on_transcript(old(self)@, voice_effects(old(out)@), ms).0,
            voice_effects(final(out)@) == on_transcript(
                old(self)@,
                voice_effects(old(out)@),
                ms,
            ).1,
    {
        let mut transcriber = Transcriber::new();
        core::mem::swap(&mut transcriber, &mut self.transcriber);
        match transcriber.finish() {
            Ok(text) => {
                send_event(out, transcribed_event(text.as_str(), ms));
                self.transcript = text;
                self.stage = Stage::Asking;
            },
            Err(message) => {
                send_event(out, failed(message.as_str()));
                self.stage = Stage::Failed;
            },
        }
    }

    /// Takes a piece of the transcription in.
    fn listen(&mut self, bytes: &[u8], ms: u64) -> (out: Vec<VoiceEffect>)
        ensures
            final(self)@ == on_listened(old(self)@, bytes@, ms).0,
            voice_effects(out@) == on_listened(old(self)@, bytes@, ms).1,
    {
        let (events, failure) = self.transcriber.take_chunk(bytes);
        let mut out = send_events(events);
        match failure {
            Some(message) => {
                send_event(&mut out, failed(message.as_str()));
                self.stage = Stage::Failed;
            },
            None => {
                if self.transcriber.is_done() {
                    self.end_transcription(ms, &mut out);
                }
            },
        }
        out
    }

    /// Completes the turn, if both the answer and the speech have ended.
    fn settle(&mut self, ms: u64, out: &mut Vec<VoiceEffect>)
        ensures
            final(self)@ == settled_voice(old(self)@, voice_effects(old(out)@), ms).0,
            voice_effects(final(out)@) == settled_voice(
                old(self)@,
                voice_effects(old(out)@),
                ms,
            ).1,
    {
        if self.reply.is_done() && self.spoken {
            self.stage = Stage::Completed;
            send_event(out, completed_event(ms));
        }
    }

    /// Tells the turn what happened, `ms` after it began; gives what to send
    /// and to speak, in order.
    pub fn step(&mut self, event: VoiceEvent, ms: u64) -> (effects: Vec<VoiceEffect>)
        requires
            voice_sound(old(self)@),
        ensures
            final(self)@ == voice_step(old(self)@, event@, ms).0,
            voice_effects(effects@) == voice_step(old(self)@, event@, ms).1,
            voice_sound(final(self)@),
    {
        let mut out: Vec<VoiceEffect> = Vec::new();
        assert(voice_effects(out@) =~= Seq::empty());
        match (self.stage, event) {
            (Stage::Recorded, VoiceEvent::Accepted) => {
                self.stage = Stage::Transcribing;
            },
            (Stage::Recorded, VoiceEvent::Refused) => {
                out = self.fail(VoiceFault::NoTranscription);
            },
            (Stage::Transcribing, VoiceEvent::Chunk(bytes)) => {
                out = self.listen(bytes.as_slice(), ms);
            },
            (Stage::Transcribing, VoiceEvent::Ended) => {
                self.end_transcription(ms, &mut out);
            },
            (Stage::Asking, VoiceEvent::Accepted) => {
                self.stage = Stage::Answering;
            },
            (Stage::Asking, VoiceEvent::Refused) => {
                out = self.fail(VoiceFault::NoModel);
            },
            (Stage::Answering, VoiceEvent::Chunk(bytes)) => {
                if !self.reply.is_done() {
                    let (effects, stopped) = self.reply.take_chunk(bytes.as_slice());
                    out = effects;
                    if stopped {
                        self.stage = Stage::Failed;
                    } else {
                        self.settle(ms, &mut out);
                    }
                }
            },
            (Stage::Answering, VoiceEvent::Ended) => {
                if !self.reply.is_done() {
                    out = self.fail(VoiceFault::EndedEarly);
                }
            },
            (Stage::Answering, VoiceEvent::Speech(value)) => {
                if !self.spoken {
                    send_event(&mut out, value);
                }
            },
            (Stage::Answering, VoiceEvent::SpeechEnded) => {
                self.spoken = true;
                self.settle(ms, &mut out);
            },
            (Stage::Answering, VoiceEvent::Late) => {
                out = self.fail(VoiceFault::TimedOut);
            },
            _ => {},
        }
        out
    }
}

/// The place of a stage in a turn that does not fail.
pub open spec fn stage_rank(stage: Stage) -> int {
    match stage {
        Stage::Recorded => 0,
        Stage::Transcribing => 1,
        Stage::Asking => 2,
        Stage::Answering => 3,
        Stage::Completed => 4,
        Stage::Failed => 5,
    }
}

/// A turn goes through its stages in order, one at a time and never back; it
/// may fail at any of them but the last.
pub proof fn law_stages_come_in_order(t: VoiceTurnView, event: VoiceEventView, ms: u64)
    ensures
        ({
            let next = voice_step(t, event, ms).0.stage;
            ||| next == t.stage
            ||| stage_rank(next) == stage_rank(t.stage) + 1 && next != Stage::Failed
            ||| next == Stage::Failed && t.stage != Stage::Completed
        }),
{
}

/// A turn completes exactly when both the answer and the speech have ended,
/// unless it fails; the client is then told so, last of all.
pub proof fn law_completed_when_both_ended(t: VoiceTurnView, event: VoiceEventView, ms: u64)
    requires
        voice_sound(t),
    ensures
        ({
            let step = voice_step(t, event, ms);
            &&& step.0.stage == Stage::Completed <==> t.stage == Stage::Completed || (t.stage
                == Stage::Answering && step.0.stage != Stage::Failed && step.0.reply.done
                && step.0.spoken)
            &&& step.0.stage == Stage::Completed && t.stage != Stage::Completed ==> step.1.len()
                > 0 && step.1.last() == VoiceEffectView::Send(completed_value(ms))
        }),
{
}

/// A turn that is over does nothing more, whatever happens.
pub proof fn law_ended_voice_turn_is_silent(t: VoiceTurnView, event: VoiceEventView, ms: u64)
    requires
        t.stage == Stage::Completed || t.stage == Stage::Failed,
    ensures
        voice_step(t, event, ms) == (t, Seq::<VoiceEffectView>::empty()),
{
}

/// A turn after several events, each with its time, and the effects of each.
pub open spec fn voice_after(
    t: VoiceTurnView,
    events: Seq<(VoiceEventView, u64)>,
) -> VoiceTurnView
    decreases events.len(),
{
    if events.len() == 0 {
        t
    } else {
        let before = voice_after(t, events.drop_last());
        voice_step(before, events.last().0, events.last().1).0
    }
}

/// What is done about the speech in the course of some events.
pub open spec fn speech_effects(
    t: VoiceTurnView,
    events: Seq<(VoiceEventView, u64)>,
) -> Seq<VoiceEffectView>
    decreases events.len(),
{
    if events.len() == 0 {
        Seq::empty()
    } else {
        let before = speech_effects(t, events.drop_last());
        match events.last().0 {
            VoiceEventView::Speech(_) => before + voice_step(
                voice_after(t, events.drop_last()),
                events.last().0,
                events.last().1,
            ).1,
            _ => before,
        }
    }
}

/// The speech among some events.
pub open spec fn speech_among(events: Seq<(VoiceEventView, u64)>) -> Seq<JsonView>
    decreases events.len(),
{
    if events.len() == 0 {
        Seq::empty()
    } else {
        match events.last().0 {
            VoiceEventView::Speech(value) => speech_among(events.drop_last()).push(value),
            _ => speech_among(events.drop_last()),
        }
    }
}

/// While the answer is given, and until the speech has ended, an event of the
/// speech goes to the client at once, unchanged and once, whether or not the
/// text of the answer is complete; it does nothing else.
pub proof fn law_speech_is_passed_on(t: VoiceTurnView, value: JsonView, ms: u64)
    requires
        t.stage == Stage::Answering,
        !t.spoken,
    ensures
        voice_step(t, VoiceEventView::Speech(value), ms).0 == t,
        voice_step(t, VoiceEventView::Speech(value), ms).1 == seq![VoiceEffectView::Send(value)],
{
    assert(Seq::<VoiceEffectView>::empty().push(VoiceEffectView::Send(value)) =~= seq![
        VoiceEffectView::Send(value),
    ]);
}

proof fn lemma_answering_lasts(
    t: VoiceTurnView,
    events: Seq<(VoiceEventView, u64)>,
)
    requires
        t.stage == Stage::Answering,
        !t.spoken,
        forall|i: int|
            0 <= i < events.len() ==> !((#[trigger] events[i]).0 is SpeechEnded),
        voice_after(t, events).stage == Stage::Answering,
    ensures
        !voice_after(t, events).spoken,
        events.len() > 0 ==> voice_after(t, events.drop_last()).stage == Stage::Answering,
    decreases events.len(),
{
    if events.len() > 0 {
        let before = events.drop_last();
        assert forall|i: int| 0 <= i < before.len() implies !((#[trigger] before[i]).0
            is SpeechEnded) by {
            assert(before[i] == events[i]);
        }
        assert(!(events[events.len() - 1].0 is SpeechEnded));
        let mid = voice_after(t, before);
        assert(mid.stage == Stage::Answering) by {
            lemma_from_answering(t, before);
        }
        lemma_answering_lasts(t, before);
    }
}

/// Once answering, a turn answers, is complete, or failed.
proof fn lemma_from_answering(t: VoiceTurnView, events: Seq<(VoiceEventView, u64)>)
    requires
        t.stage == Stage::Answering,
    ensures
        ({
            let stage = voice_after(t, events).stage;
            stage == Stage::Answering || stage == Stage::Completed || stage == Stage::Failed
        }),
    decreases events.len(),
{
    if events.len() > 0 {
        lemma_from_answering(t, events.drop_last());
    }
}

/// Over a run of a turn that answers, until the speech ends, the events of the
/// speech that the client is sent are those that came, all of them and in
/// order, however they mix with the answer.
pub proof fn law_all_speech_is_passed_on(t: VoiceTurnView, events: Seq<(VoiceEventView, u64)>)
    requires
        t.stage == Stage::Answering,
        !t.spoken,
        forall|i: int|
            0 <= i < events.len() ==> !((#[trigger] events[i]).0 is SpeechEnded),
        voice_after(t, events).stage == Stage::Answering,
    ensures
        speech_effects(t, events) == speech_among(events).map_values(
            |value: JsonView| VoiceEffectView::Send(value),
        ),
    decreases events.len(),
{
    let send = |value: JsonView| VoiceEffectView::Send(value);
    if events.len() == 0 {
        assert(speech_among(events).map_values(send) =~= Seq::empty());
    } else {
        let before = events.drop_last();
        assert forall|i: int| 0 <= i < before.len() implies !((#[trigger] before[i]).0
            is SpeechEnded) by {
            assert(before[i] == events[i]);
        }
        lemma_answering_lasts(t, events);
        lemma_answering_lasts(t, before);
        law_all_speech_is_passed_on(t, before);
        match events.last().0 {
            VoiceEventView::Speech(value) => {
                law_speech_is_passed_on(voice_after(t, before), value, events.last().1);
                assert(speech_among(events).map_values(send) =~= speech_among(before).map_values(
                    send,
                ).push(send(value)));
                assert(speech_effects(t, events) =~= speech_effects(t, before).push(send(value)));
            },
            _ => {},
        }
    }
}

/// What the answer's stream makes happen, happens in full and in order; only
/// the end of the turn may follow it. The other parts of the turn stay.
pub proof fn law_answer_effects_are_kept(t: VoiceTurnView, bytes: Seq<u8>, ms: u64)
    requires
        t.stage == Stage::Answering,
        !t.reply.done,
    ensures
        ({
            let said = on_voice_chunk(t.reply, bytes);
            let step = voice_step(t, VoiceEventView::Chunk(bytes), ms);
            &&& step.0.reply == said.state
            &&& step.0.spoken == t.spoken
            &&& step.0.transcript == t.transcript
            &&& said.stopped <==> step.0.stage == Stage::Failed
            &&& step.1 == if step.0.stage == Stage::Completed {
                said.effects.push(VoiceEffectView::Send(completed_value(ms)))
            } else {
                said.effects
            }
        }),
{
}

/// A transcript that can be used is told to the client, and asked of the model
/// after the history, as a message of the user; one that cannot be used is the
/// end of the turn, and the client is told why.
pub proof fn law_transcript_is_asked(t: VoiceTurnView, ms: u64)
    requires
        t.stage == Stage::Transcribing,
    ensures
        ({
            let step = voice_step(t, VoiceEventView::Ended, ms);
            match asr_outcome(t.transcriber) {
                Ok(text) => {
                    &&& step.0.stage == Stage::Asking
                    &&& step.1.len() == 1
                    &&& step.1[0] == VoiceEffectView::Send(transcribed_value(text, ms))
                    &&& voice_awaited(step.0) == VoiceActionView::Ask(
                        voice_request_value(t.model, t.history, text),
                    )
                },
                Err(message) => {
                    &&& step.0.stage == Stage::Failed
                    &&& step.1.len() == 1
                    &&& step.1[0] == VoiceEffectView::Send(error_value(message))
                },
            }
        }),
{
}

/// The transcription's stream is heard in full: the client is sent its events
/// in order, and it ends as it would at its end as soon as it is complete.
pub proof fn law_transcription_is_heard(t: VoiceTurnView, bytes: Seq<u8>, ms: u64)
    requires
        t.stage == Stage::Transcribing,
        on_asr_chunk(t.transcriber, bytes).failure is None,
    ensures
        ({
            let heard = on_asr_chunk(t.transcriber, bytes);
            let sent = heard.events.map_values(|value: JsonView| VoiceEffectView::Send(value));
            let next = VoiceTurnView { transcriber: heard.state, ..t };
            let step = voice_step(t, VoiceEventView::Chunk(bytes), ms);
            let end = voice_step(next, VoiceEventView::Ended, ms);
            &&& !heard.state.done ==> step == (next, sent)
            &&& heard.state.done ==> step.0 == end.0 && step.1 == sent + end.1
        }),
{
    let heard = on_asr_chunk(t.transcriber, bytes);
    let sent = heard.events.map_values(|value: JsonView| VoiceEffectView::Send(value));
    let next = VoiceTurnView { transcriber: heard.state, ..t };
    assert(sent =~= sent_events(heard.events));
    let step = voice_step(t, VoiceEventView::Chunk(bytes), ms);
    let end = voice_step(next, VoiceEventView::Ended, ms);
    assert(heard.state.done ==> step.1 =~= sent + end.1);
}

/// A turn fails exactly where a service refuses, the transcription fails or
/// says nothing that can be used, the answer fails, ends early or takes too
/// long; and the client is told what it was, last of all.
pub proof fn law_how_a_voice_turn_fails(t: VoiceTurnView, event: VoiceEventView, ms: u64)
    requires
        t.stage != Stage::Failed,
    ensures
        ({
            let step = voice_step(t, event, ms);
            let last = step.1.last();
            &&& step.0.stage == Stage::Failed <==> match (t.stage, event) {
                (Stage::Recorded, VoiceEventView::Refused) => true,
                (Stage::Asking, VoiceEventView::Refused) => true,
                (Stage::Transcribing, VoiceEventView::Ended) => asr_outcome(t.transcriber) is Err,
                (Stage::Transcribing, VoiceEventView::Chunk(bytes)) => {
                    let heard = on_asr_chunk(t.transcriber, bytes);
                    heard.failure is Some || (heard.state.done && asr_outcome(heard.state) is Err)
                },
                (Stage::Answering, VoiceEventView::Chunk(bytes)) => !t.reply.done
                    && on_voice_chunk(t.reply, bytes).stopped,
                (Stage::Answering, VoiceEventView::Ended) => !t.reply.done,
                (Stage::Answering, VoiceEventView::Late) => true,
                _ => false,
            }
            &&& t.stage == Stage::Recorded && event is Refused ==> last == VoiceEffectView::Send(
                error_value("Transcription failed. Check audio model access or try again."@),
            )
            &&& t.stage == Stage::Asking && event is Refused ==> last == VoiceEffectView::Send(
                error_value("The model request failed. Please try again."@),
            )
            &&& t.stage == Stage::Answering && event is Ended && !t.reply.done ==> last
                == VoiceEffectView::Send(error_value("The model stream ended early."@))
            &&& t.stage == Stage::Answering && event is Late ==> last == VoiceEffectView::Send(
                error_value("Voice request timed out."@),
            )
            &&& t.stage == Stage::Transcribing && (event matches VoiceEventView::Chunk(bytes)
                && on_asr_chunk(t.transcriber, bytes).failure is Some) ==> last
                == VoiceEffectView::Send(
                error_value(on_asr_chunk(t.transcriber, event->Chunk_0).failure->0),
            )
        }),
{
}

/// A service that accepts begins the next stage, and changes nothing else; the
/// end of the speech is remembered; and what a turn does not wait for does
/// nothing.
pub proof fn law_how_a_voice_turn_goes_on(t: VoiceTurnView, event: VoiceEventView, ms: u64)
    ensures
        t.stage == Stage::Recorded ==> voice_step(t, VoiceEventView::Accepted, ms) == (
            VoiceTurnView { stage: Stage::Transcribing, ..t },
            Seq::<VoiceEffectView>::empty(),
        ),
        t.stage == Stage::Asking ==> voice_step(t, VoiceEventView::Accepted, ms) == (
            VoiceTurnView { stage: Stage::Answering, ..t },
            Seq::<VoiceEffectView>::empty(),
        ),
        t.stage == Stage::Answering ==> voice_step(t, VoiceEventView::SpeechEnded, ms).0.spoken
            && voice_step(t, VoiceEventView::SpeechEnded, ms).0.reply == t.reply,
        t.stage == Stage::Answering && t.reply.done && (event is Chunk || event is Ended)
            ==> voice_step(t, event, ms) == (t, Seq::<VoiceEffectView>::empty()),
        t.stage == Stage::Answering ==> voice_awaited(t) == (VoiceActionView::Answer {
            answer: !t.reply.done,
            speech: !t.spoken,
        }),
        t.stage == Stage::Recorded ==> voice_awaited(t) == VoiceActionView::Transcribe,
        t.stage == Stage::Transcribing ==> voice_awaited(t) == VoiceActionView::Listen,
        t.stage == Stage::Completed || t.stage == Stage::Failed ==> voice_awaited(t)
            == VoiceActionView::Stop,
        voice_step(t, event, ms).0.model == t.model,
        voice_step(t, event, ms).0.history == t.history,
{
}

} // verus!
