//! The speech of one voice turn: phrases are spoken one after the other, each
//! by a request of its own. A machine that is told what happened, and says what
//! to pass on and what it waits for.

use vstd::prelude::*;
use crate::json::Json;
use crate::json::{items_view, JsonView};
use crate::speech::{speech_failed, speech_interrupted, speech_payload, Speaker};
use crate::speech::{
    audio_delta_value, audio_events, base64_fits, speech_failed_value, speech_interrupted_value,
    speech_value, SpeakerView,
};
use crate::text::all_space;

verus! {

/// What the speech is told.
pub enum SpeechEvent {
    /// A phrase to speak.
    Phrase(String),
    /// No more phrases follow.
    NoMore,
    /// The request to speak a phrase is served.
    Accepted,
    /// It could not be made, or was refused.
    Refused,
    /// A piece of the audio.
    Chunk(Vec<u8>),
    /// The end of a phrase's audio.
    Ended,
    /// The audio broke off.
    Interrupted,
    /// Nobody listens any more.
    Deserted,
}

/// What a [`SpeechEvent`] holds.
pub enum SpeechEventView {
    Phrase(Seq<char>),
    NoMore,
    Accepted,
    Refused,
    Chunk(Seq<u8>),
    Ended,
    Interrupted,
    Deserted,
}

impl View for SpeechEvent {
    type V = SpeechEventView;

    open spec fn view(&self) -> SpeechEventView {
        match self {
            SpeechEvent::Phrase(text) => SpeechEventView::Phrase(text@),
            SpeechEvent::NoMore => SpeechEventView::NoMore,
            SpeechEvent::Accepted => SpeechEventView::Accepted,
            SpeechEvent::Refused => SpeechEventView::Refused,
            SpeechEvent::Chunk(bytes) => SpeechEventView::Chunk(bytes@),
            SpeechEvent::Ended => SpeechEventView::Ended,
            SpeechEvent::Interrupted => SpeechEventView::Interrupted,
            SpeechEvent::Deserted => SpeechEventView::Deserted,
        }
    }
}

/// What the speech waits for.
pub enum SpeechAction {
    /// The next phrase.
    Await,
    /// The response to a request to speak.
    Request(Json),
    /// More of the audio.
    Read,
    /// Nothing: the speech is over.
    Stop,
}

/// What a [`SpeechAction`] holds.
pub enum SpeechActionView {
    Await,
    Request(JsonView),
    Read,
    Stop,
}

impl View for SpeechAction {
    type V = SpeechActionView;

    open spec fn view(&self) -> SpeechActionView {
        match self {
            SpeechAction::Await => SpeechActionView::Await,
            SpeechAction::Request(payload) => SpeechActionView::Request(payload@),
            SpeechAction::Read => SpeechActionView::Read,
            SpeechAction::Stop => SpeechActionView::Stop,
        }
    }
}

/// Where the speech stands.
enum SpeechStage {
    Waiting,
    /// A phrase is asked for, by this request.
    Asking(Json),
    Reading,
    Over,
}

/// Where the speech stands.
pub enum SpeechStageView {
    Waiting,
    Asking(JsonView),
    Reading,
    Over,
}

/// The speech of one voice turn.
pub struct SpeechTurn {
    speaker: Speaker,
    stage: SpeechStage,
}

/// What a [`SpeechTurn`] holds.
pub struct SpeechTurnView {
    pub speaker: SpeakerView,
    pub stage: SpeechStageView,
}

impl View for SpeechTurn {
    type V = SpeechTurnView;

    closed spec fn view(&self) -> SpeechTurnView {
        SpeechTurnView {
            speaker: self.speaker@,
            stage: match self.stage {
                SpeechStage::Waiting => SpeechStageView::Waiting,
                SpeechStage::Asking(payload) => SpeechStageView::Asking(payload@),
                SpeechStage::Reading => SpeechStageView::Reading,
                SpeechStage::Over => SpeechStageView::Over,
            },
        }
    }
}

/// Speech of which nothing was said yet.
pub open spec fn unspoken() -> SpeechTurnView {
    SpeechTurnView {
        speaker: SpeakerView { first: true, segment: 0 },
        stage: SpeechStageView::Waiting,
    }
}

/// What the speech waits for.
pub open spec fn speech_awaited(t: SpeechTurnView) -> SpeechActionView {
    match t.stage {
        SpeechStageView::Waiting => SpeechActionView::Await,
        SpeechStageView::Asking(payload) => SpeechActionView::Request(payload),
        SpeechStageView::Reading => SpeechActionView::Read,
        SpeechStageView::Over => SpeechActionView::Stop,
    }
}

/// The same speech at another stage.
pub open spec fn at_stage(t: SpeechTurnView, stage: SpeechStageView) -> SpeechTurnView {
    SpeechTurnView { stage, ..t }
}

/// What an event does to the speech, `ms` into the turn: the speech after it,
/// and the events for the client. A phrase that says nothing is skipped; a
/// request that fails, or audio that breaks off, ends the speech; a segment
/// ends with its audio. An event that the stage does not wait for does nothing.
pub open spec fn speech_step(t: SpeechTurnView, event: SpeechEventView, ms: u64) -> (
    SpeechTurnView,
    Seq<JsonView>,
) {
    let nothing = Seq::<JsonView>::empty();
    match (t.stage, event) {
        (_, SpeechEventView::Deserted) => (at_stage(t, SpeechStageView::Over), nothing),
        (SpeechStageView::Waiting, SpeechEventView::Phrase(text)) => if all_space(text) {
            (t, nothing)
        } else {
            (at_stage(t, SpeechStageView::Asking(speech_value(text))), nothing)
        },
        (SpeechStageView::Waiting, SpeechEventView::NoMore) => (
            at_stage(t, SpeechStageView::Over),
            nothing,
        ),
        (SpeechStageView::Asking(_), SpeechEventView::Accepted) => (
            at_stage(t, SpeechStageView::Reading),
            nothing,
        ),
        (SpeechStageView::Asking(_), SpeechEventView::Refused) => (
            at_stage(t, SpeechStageView::Over),
            seq![speech_failed_value()],
        ),
        (SpeechStageView::Reading, SpeechEventView::Chunk(bytes)) => (
            SpeechTurnView { speaker: SpeakerView { first: false, ..t.speaker }, ..t },
            audio_events(t.speaker, bytes, ms),
        ),
        (SpeechStageView::Reading, SpeechEventView::Ended) => (
            SpeechTurnView {
                speaker: SpeakerView { segment: t.speaker.segment + 1, ..t.speaker },
                stage: SpeechStageView::Waiting,
            },
            nothing,
        ),
        (SpeechStageView::Reading, SpeechEventView::Interrupted) => (
            at_stage(t, SpeechStageView::Over),
            seq![speech_interrupted_value()],
        ),
        _ => (t, nothing),
    }
}

impl SpeechTurn {
    /// Speech of which nothing was said yet.
    pub fn new() -> (r: SpeechTurn)
        ensures
            r@ == unspoken(),
    {
        SpeechTurn { speaker: Speaker::new(), stage: SpeechStage::Waiting }
    }

    /// What the speech waits for.
    pub fn awaits(&self) -> (r: SpeechAction)
        ensures
            r@ == speech_awaited(self@),
    {
        match &self.stage {
            SpeechStage::Waiting => SpeechAction::Await,
            SpeechStage::Asking(payload) => SpeechAction::Request(payload.clone()),
            SpeechStage::Reading => SpeechAction::Read,
            SpeechStage::Over => SpeechAction::Stop,
        }
    }

    /// Tells the speech what happened, `ms` into the turn; gives the events for
    /// the client.
    pub fn step(&mut self, event: SpeechEvent, ms: u64) -> (events: Vec<Json>)
        requires
            event@ matches SpeechEventView::Chunk(bytes) ==> base64_fits(bytes.len()),
            event@ is Ended ==> old(self)@.speaker.segment < u64::MAX,
        ensures
            final(self)@ == speech_step(old(self)@, event@, ms).0,
            items_view(events@) == speech_step(old(self)@, event@, ms).1,
    {
        let mut events: Vec<Json> = Vec::new();
        assert(items_view(events@) =~= Seq::empty());
        match (&self.stage, event) {
            (_, SpeechEvent::Deserted) => {
                self.stage = SpeechStage::Over;
            },
            (SpeechStage::Waiting, SpeechEvent::Phrase(text)) => {
                if let Some(payload) = speech_payload(text.as_str()) {
                    self.stage = SpeechStage::Asking(payload);
                }
            },
            (SpeechStage::Waiting, SpeechEvent::NoMore) => {
                self.stage = SpeechStage::Over;
            },
            (SpeechStage::Asking(_), SpeechEvent::Accepted) => {
                self.stage = SpeechStage::Reading;
            },
            (SpeechStage::Asking(_), SpeechEvent::Refused) => {
                self.stage = SpeechStage::Over;
                events.push(speech_failed());
                assert(items_view(events@) =~= seq![speech_failed_value()]);
            },
            (SpeechStage::Reading, SpeechEvent::Chunk(bytes)) => {
                events = self.speaker.take_chunk(bytes.as_slice(), ms);
            },
            (SpeechStage::Reading, SpeechEvent::Ended) => {
                self.speaker.end_segment();
                self.stage = SpeechStage::Waiting;
            },
            (SpeechStage::Reading, SpeechEvent::Interrupted) => {
                self.stage = SpeechStage::Over;
                events.push(speech_interrupted());
                assert(items_view(events@) =~= seq![speech_interrupted_value()]);
            },
            _ => {},
        }
        events
    }
}

/// The speech after several events, each with its time.
pub open spec fn speech_after(
    t: SpeechTurnView,
    events: Seq<(SpeechEventView, u64)>,
) -> SpeechTurnView
    decreases events.len(),
{
    if events.len() == 0 {
        t
    } else {
        let before = speech_after(t, events.drop_last());
        speech_step(before, events.last().0, events.last().1).0
    }
}

/// Whether an event hands a phrase to the speech that it will speak.
pub open spec fn takes_phrase(t: SpeechTurnView, event: SpeechEventView) -> bool {
    t.stage is Waiting && (event matches SpeechEventView::Phrase(text) && !all_space(text))
}

/// The number of phrases, but for blank ones, that some events hand to the
/// speech.
pub open spec fn phrases_taken(t: SpeechTurnView, events: Seq<(SpeechEventView, u64)>) -> nat
    decreases events.len(),
{
    if events.len() == 0 {
        0
    } else {
        phrases_taken(t, events.drop_last()) + if takes_phrase(
            speech_after(t, events.drop_last()),
            events.last().0,
        ) {
            1nat
        } else {
            0nat
        }
    }
}

proof fn lemma_segments(events: Seq<(SpeechEventView, u64)>)
    ensures
        ({
            let t = speech_after(unspoken(), events);
            let taken = phrases_taken(unspoken(), events);
            &&& t.speaker.segment >= 0
            &&& match t.stage {
                SpeechStageView::Waiting => t.speaker.segment == taken,
                SpeechStageView::Asking(_) => t.speaker.segment + 1 == taken,
                SpeechStageView::Reading => t.speaker.segment + 1 == taken,
                SpeechStageView::Over => true,
            }
        }),
    decreases events.len(),
{
    if events.len() > 0 {
        lemma_segments(events.drop_last());
    }
}

proof fn lemma_delta_comes_last(t: SpeechTurnView, taken: nat, bytes: Seq<u8>, ms: u64)
    requires
        t.stage is Reading,
        t.speaker.segment + 1 == taken,
    ensures
        ({
            let sent = speech_step(t, SpeechEventView::Chunk(bytes), ms).1;
            sent.len() > 0 && sent.last() == audio_delta_value(bytes, taken - 1)
        }),
{
}

/// A piece of audio carries the rank of its phrase, counted from zero, among
/// the phrases that are not blank.
pub proof fn law_segment_is_the_rank_of_its_phrase(
    events: Seq<(SpeechEventView, u64)>,
    bytes: Seq<u8>,
    ms: u64,
)
    requires
        speech_after(unspoken(), events).stage is Reading,
    ensures
        phrases_taken(unspoken(), events) > 0,
        ({
            let sent = speech_step(
                speech_after(unspoken(), events),
                SpeechEventView::Chunk(bytes),
                ms,
            ).1;
            sent.len() > 0 && sent.last() == audio_delta_value(
                bytes,
                phrases_taken(unspoken(), events) - 1,
            )
        }),
{
    let t = speech_after(unspoken(), events);
    let taken = phrases_taken(unspoken(), events);
    lemma_segments(events);
    lemma_delta_comes_last(t, taken, bytes, ms);
}

/// A request is made for a phrase that is not blank, and names that phrase.
pub proof fn law_requests_name_their_phrase(t: SpeechTurnView, event: SpeechEventView, ms: u64)
    requires
        !(t.stage is Asking),
    ensures
        takes_phrase(t, event) <==> speech_step(t, event, ms).0.stage is Asking,
        takes_phrase(t, event) ==> speech_awaited(speech_step(t, event, ms).0)
            == SpeechActionView::Request(speech_value(event->Phrase_0)),
{
}

/// Speech that is over says nothing more, whatever happens.
pub proof fn law_ended_speech_is_silent(t: SpeechTurnView, event: SpeechEventView, ms: u64)
    requires
        t.stage is Over,
    ensures
        speech_step(t, event, ms) == (t, Seq::<JsonView>::empty()),
{
}

/// Audio is passed on as it comes, and changes nothing but that it was heard;
/// its end makes room for the next phrase, and only that.
pub proof fn law_audio_is_not_held_back(t: SpeechTurnView, bytes: Seq<u8>, ms: u64)
    requires
        t.stage is Reading,
    ensures
        speech_step(t, SpeechEventView::Chunk(bytes), ms).1 == audio_events(t.speaker, bytes, ms),
        speech_step(t, SpeechEventView::Chunk(bytes), ms).0.stage is Reading,
        speech_step(t, SpeechEventView::Chunk(bytes), ms).0.speaker.segment == t.speaker.segment,
        !speech_step(t, SpeechEventView::Chunk(bytes), ms).0.speaker.first,
        speech_step(t, SpeechEventView::Ended, ms).0.stage is Waiting,
        speech_step(t, SpeechEventView::Ended, ms).0.speaker.first == t.speaker.first,
        speech_step(t, SpeechEventView::Ended, ms).1.len() == 0,
{
}

/// Speech that fails or breaks off ends, and the client is told which; where
/// nobody listens, or nothing is left to say, it ends in silence.
pub proof fn law_how_speech_ends(t: SpeechTurnView, event: SpeechEventView, ms: u64)
    requires
        !(t.stage is Over),
    ensures
        ({
            let step = speech_step(t, event, ms);
            let over = step.0.stage is Over;
            &&& over <==> event is Deserted || (t.stage is Waiting && event is NoMore) || (
            t.stage is Asking && event is Refused) || (t.stage is Reading && event is Interrupted)
            &&& over && event is Refused ==> step.1.len() == 1 && step.1[0].at("message"@)
                == JsonView::Str(
                "Speech generation failed. The text answer is still available."@,
            )
            &&& over && event is Interrupted ==> step.1.len() == 1 && step.1[0].at("message"@)
                == JsonView::Str("Speech stream interrupted."@)
            &&& over && !(event is Refused) && !(event is Interrupted) ==> step.1.len() == 0
        }),
{
    reveal_strlit("type");
    reveal_strlit("message");
    assert("type"@.len() == 4 && "message"@.len() == 7);
}

/// The speech waits for a phrase, then for its request, then for its audio.
pub proof fn law_what_the_speech_waits_for(t: SpeechTurnView, payload: JsonView, ms: u64)
    ensures
        t.stage is Waiting <==> speech_awaited(t) == SpeechActionView::Await,
        t.stage == SpeechStageView::Asking(payload) <==> speech_awaited(t)
            == SpeechActionView::Request(payload),
        t.stage is Reading <==> speech_awaited(t) == SpeechActionView::Read,
        t.stage is Over <==> speech_awaited(t) == SpeechActionView::Stop,
        t.stage is Asking ==> speech_step(t, SpeechEventView::Accepted, ms).0.stage is Reading,
        t.stage is Asking ==> speech_step(t, SpeechEventView::Accepted, ms).0.speaker == t.speaker,
        t.stage is Asking ==> speech_step(t, SpeechEventView::Accepted, ms).1.len() == 0,
{
}

} // verus!
