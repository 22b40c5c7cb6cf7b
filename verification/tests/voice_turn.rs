use backend_rove::messages::Message;
use backend_rove::speech::{completed_event, stage_transcribing, voice_payload, VoiceEffect};
use backend_rove::voice_turn::{VoiceAction, VoiceEvent, VoiceTurn, ANSWER_SECS};
use backend_rove::json::Json;

fn told(effects: Vec<VoiceEffect>) -> Vec<String> {
    effects
        .into_iter()
        .map(|effect| match effect {
            VoiceEffect::Speak(text) => format!("speak {text}"),
            VoiceEffect::Close => "close".to_string(),
            VoiceEffect::Send(event) => format!("send {}", event.text()),
        })
        .collect()
}

fn chunk(event: &str) -> VoiceEvent {
    VoiceEvent::Chunk(format!("data: {event}\n\n").into_bytes())
}

fn error(message: &str) -> Vec<String> {
    vec![format!("send {{\"message\":\"{message}\",\"type\":\"error\"}}")]
}

fn history() -> Vec<Message> {
    vec![Message { role: "user".to_string(), content: "before".to_string() }]
}

/// A turn whose transcription has begun.
fn listening() -> VoiceTurn {
    let (mut turn, _) = VoiceTurn::begin("m", history());
    assert!(turn.step(VoiceEvent::Accepted, 1).is_empty());
    turn
}

/// A turn whose answer has begun.
fn answering() -> VoiceTurn {
    let mut turn = listening();
    turn.step(chunk("{\"text\":\"Hi\"}"), 2);
    assert!(turn.step(VoiceEvent::Accepted, 3).is_empty());
    turn
}

const DONE: &str = "{\"type\":\"response.completed\"}";

#[test]
fn a_turn_begins_with_the_transcription() {
    let (turn, effects) = VoiceTurn::begin("m", history());
    assert_eq!(told(effects), vec![format!("send {}", stage_transcribing().text())]);
    assert!(matches!(turn.awaits(), VoiceAction::Transcribe));
    assert!(matches!(listening().awaits(), VoiceAction::Listen));
}

#[test]
fn a_transcript_is_told_and_asked() {
    let mut turn = listening();
    let delta = chunk("{\"type\":\"transcript.text.delta\",\"delta\":\"Hi\"}");
    assert_eq!(
        told(turn.step(delta, 5)),
        vec!["send {\"delta\":\"Hi\",\"type\":\"voice.transcript.delta\"}"]
    );
    assert_eq!(
        told(turn.step(chunk("{\"type\":\"transcript.text.done\"}"), 9)),
        vec!["send {\"asr_ms\":9,\"text\":\"Hi\",\"type\":\"voice.transcribed\"}"]
    );
    match turn.awaits() {
        VoiceAction::Ask(payload) => {
            assert_eq!(payload.text(), voice_payload("m", &history(), "Hi").text());
        }
        _ => panic!("the turn asks nothing"),
    }
}

#[test]
fn a_transcript_without_framing_is_read_at_the_end() {
    let mut turn = listening();
    assert!(turn.step(VoiceEvent::Chunk(b"{\"text\":\"Hi\"}".to_vec()), 1).is_empty());
    assert_eq!(
        told(turn.step(VoiceEvent::Ended, 4)),
        vec!["send {\"asr_ms\":4,\"text\":\"Hi\",\"type\":\"voice.transcribed\"}"]
    );
    assert!(matches!(turn.awaits(), VoiceAction::Ask(_)));
}

#[test]
fn failures_end_a_turn_at_every_stage() {
    let (mut turn, _) = VoiceTurn::begin("m", Vec::new());
    assert_eq!(
        told(turn.step(VoiceEvent::Refused, 0)),
        error("Transcription failed. Check audio model access or try again.")
    );
    assert!(matches!(turn.awaits(), VoiceAction::Stop));
    let mut turn = listening();
    assert_eq!(told(turn.step(chunk("{\"type\":\"error\"}"), 0)), error("Transcription failed."));
    assert!(matches!(turn.awaits(), VoiceAction::Stop));
    let mut turn = listening();
    assert_eq!(
        told(turn.step(VoiceEvent::Ended, 0)),
        error("No usable speech was transcribed. Try a shorter, clear recording.")
    );
    let mut turn = listening();
    turn.step(chunk("{\"text\":\"Hi\"}"), 2);
    assert_eq!(
        told(turn.step(VoiceEvent::Refused, 0)),
        error("The model request failed. Please try again.")
    );
    let mut turn = answering();
    assert_eq!(told(turn.step(VoiceEvent::Ended, 0)), error("The model stream ended early."));
    let mut turn = answering();
    assert_eq!(told(turn.step(VoiceEvent::Late, 0)), error("Voice request timed out."));
    assert!(matches!(turn.awaits(), VoiceAction::Stop));
    let mut turn = answering();
    assert_eq!(
        told(turn.step(chunk("{\"type\":\"response.failed\"}"), 0)),
        vec!["send {\"type\":\"response.failed\"}"]
    );
    assert!(matches!(turn.awaits(), VoiceAction::Stop));
    assert_eq!(ANSWER_SECS, 180);
}

#[test]
fn a_turn_completes_when_both_ended() {
    let mut turn = answering();
    assert!(matches!(turn.awaits(), VoiceAction::Answer { answer: true, speech: true }));
    assert_eq!(
        told(turn.step(chunk(DONE), 10)),
        vec!["close", "send {\"type\":\"response.completed\"}"]
    );
    assert!(matches!(turn.awaits(), VoiceAction::Answer { answer: false, speech: true }));
    assert!(turn.step(VoiceEvent::Ended, 11).is_empty());
    assert_eq!(told(turn.step(VoiceEvent::Speech(Json::Unsigned(7)), 12)), vec!["send 7"]);
    assert_eq!(
        told(turn.step(VoiceEvent::SpeechEnded, 13)),
        vec![format!("send {}", completed_event(13).text())]
    );
    assert!(matches!(turn.awaits(), VoiceAction::Stop));
    assert!(turn.step(VoiceEvent::Late, 14).is_empty());
}

#[test]
fn speech_may_end_first() {
    let mut turn = answering();
    assert!(turn.step(VoiceEvent::SpeechEnded, 10).is_empty());
    assert!(matches!(turn.awaits(), VoiceAction::Answer { answer: true, speech: false }));
    assert!(turn.step(VoiceEvent::Speech(Json::Null), 11).is_empty());
    let effects = told(turn.step(chunk(DONE), 12));
    assert_eq!(effects.len(), 3);
    assert_eq!(effects[2], format!("send {}", completed_event(12).text()));
    assert!(matches!(turn.awaits(), VoiceAction::Stop));
}
