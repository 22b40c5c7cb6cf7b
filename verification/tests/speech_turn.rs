use backend_rove::json::Json;
use backend_rove::speech::{speech_failed, speech_interrupted, speech_payload};
use backend_rove::speech_turn::{SpeechAction, SpeechEvent, SpeechTurn};

fn texts(events: Vec<Json>) -> Vec<String> {
    events.iter().map(|event| event.text()).collect()
}

fn phrase(text: &str) -> SpeechEvent {
    SpeechEvent::Phrase(text.to_string())
}

/// Speech that reads the audio of its first phrase.
fn reading() -> SpeechTurn {
    let mut speech = SpeechTurn::new();
    assert!(speech.step(phrase("Hi."), 0).is_empty());
    assert!(speech.step(SpeechEvent::Accepted, 0).is_empty());
    speech
}

#[test]
fn one_request_is_made_for_a_phrase() {
    let mut speech = SpeechTurn::new();
    assert!(matches!(speech.awaits(), SpeechAction::Await));
    assert!(speech.step(phrase(" \n"), 0).is_empty());
    assert!(matches!(speech.awaits(), SpeechAction::Await));
    speech.step(phrase("Hi."), 0);
    match speech.awaits() {
        SpeechAction::Request(payload) => {
            assert_eq!(payload.text(), speech_payload("Hi.").unwrap().text());
        }
        _ => panic!("no request is made"),
    }
    speech.step(SpeechEvent::Accepted, 0);
    assert!(matches!(speech.awaits(), SpeechAction::Read));
}

#[test]
fn a_segment_is_the_rank_of_its_phrase() {
    let mut speech = reading();
    assert_eq!(
        texts(speech.step(SpeechEvent::Chunk(b"Man".to_vec()), 12)),
        vec![
            "{\"server_ms\":12,\"type\":\"voice.first_audio\"}",
            "{\"audio\":\"TWFu\",\"sample_rate\":24000,\"segment\":0,\"type\":\"voice.audio.delta\"}",
        ]
    );
    assert!(speech.step(SpeechEvent::Ended, 13).is_empty());
    speech.step(phrase("  "), 14);
    speech.step(phrase("More."), 15);
    speech.step(SpeechEvent::Accepted, 16);
    assert_eq!(
        texts(speech.step(SpeechEvent::Chunk(b"M".to_vec()), 17)),
        vec!["{\"audio\":\"TQ==\",\"sample_rate\":24000,\"segment\":1,\"type\":\"voice.audio.delta\"}"]
    );
    assert_eq!(speech.step(SpeechEvent::Chunk(Vec::new()), 18).len(), 1);
}

#[test]
fn a_refused_request_ends_the_speech() {
    let mut speech = SpeechTurn::new();
    speech.step(phrase("Hi."), 0);
    assert_eq!(texts(speech.step(SpeechEvent::Refused, 1)), vec![speech_failed().text()]);
    assert!(matches!(speech.awaits(), SpeechAction::Stop));
    assert!(speech.step(phrase("More."), 2).is_empty());
    assert!(matches!(speech.awaits(), SpeechAction::Stop));
}

#[test]
fn interrupted_audio_ends_the_speech() {
    let mut speech = reading();
    assert_eq!(
        texts(speech.step(SpeechEvent::Interrupted, 1)),
        vec![speech_interrupted().text()]
    );
    assert!(matches!(speech.awaits(), SpeechAction::Stop));
}

#[test]
fn speech_ends_with_its_phrases_or_its_listener() {
    let mut speech = SpeechTurn::new();
    assert!(speech.step(SpeechEvent::NoMore, 0).is_empty());
    assert!(matches!(speech.awaits(), SpeechAction::Stop));
    let mut speech = reading();
    assert!(speech.step(SpeechEvent::Deserted, 0).is_empty());
    assert!(matches!(speech.awaits(), SpeechAction::Stop));
    assert!(speech.step(SpeechEvent::Chunk(vec![1]), 0).is_empty());
}
