use backend_rove::json::Json;
use backend_rove::messages::Message;
use backend_rove::speech::{
    audio_url, completed_event, fault_event, speech_failed, speech_interrupted, speech_payload,
    stage_transcribing, transcribed_event, voice_payload, Speaker, Transcriber, VoiceEffect,
    VoiceFault, VoiceReply,
};

fn canon(text: &str) -> String {
    Json::parse(text).unwrap().text()
}

fn frame(event: &str) -> Vec<u8> {
    format!("data: {event}\n\n").into_bytes()
}

const UNUSABLE: &str = "No usable speech was transcribed. Try a shorter, clear recording.";

#[test]
fn a_transcript_is_collected_from_deltas() {
    let mut asr = Transcriber::new();
    let (events, failure) =
        asr.take_chunk(&frame("{\"type\":\"transcript.text.delta\",\"delta\":\"Hel\"}"));
    assert_eq!(failure, None);
    assert_eq!(events.len(), 1);
    assert_eq!(
        events[0].text(),
        canon("{\"type\":\"voice.transcript.delta\",\"delta\":\"Hel\"}")
    );
    assert!(!asr.is_done());
    asr.take_chunk(&frame("{\"type\":\"transcript.text.delta\",\"delta\":\"lo\"}"));
    let (events, failure) = asr.take_chunk(&frame("{\"type\":\"transcript.text.done\"}"));
    assert!(events.is_empty());
    assert_eq!(failure, None);
    assert!(asr.is_done());
    assert_eq!(asr.finish(), Ok("Hello".to_string()));
}

#[test]
fn a_final_transcript_replaces_the_deltas() {
    let mut asr = Transcriber::new();
    asr.take_payload("{\"type\":\"transcript.text.delta\",\"delta\":\"helo\"}");
    asr.take_payload("not json");
    asr.take_payload("{\"type\":\"transcript.text.done\",\"text\":\"Hello.\"}");
    assert_eq!(asr.finish(), Ok("Hello.".to_string()));
}

#[test]
fn a_transcript_may_come_whole() {
    let mut asr = Transcriber::new();
    asr.take_chunk(&frame("{\"text\":\"Hi\"}"));
    assert!(asr.is_done());
    assert_eq!(asr.finish(), Ok("Hi".to_string()));
    // And without any framing, in pieces.
    let mut asr = Transcriber::new();
    asr.take_chunk(b"{\"te");
    asr.take_chunk(b"xt\":\"Hi there\"}");
    assert!(!asr.is_done());
    assert_eq!(asr.finish(), Ok("Hi there".to_string()));
}

#[test]
fn a_useless_transcript_is_refused() {
    assert_eq!(Transcriber::new().finish(), Err(UNUSABLE.to_string()));
    let mut blank = Transcriber::new();
    blank.take_payload("{\"type\":\"transcript.text.done\",\"text\":\" \"}");
    assert_eq!(blank.finish(), Err(UNUSABLE.to_string()));
    let mut long = Transcriber::new();
    let text = "x".repeat(4001);
    long.take_payload(&format!("{{\"type\":\"transcript.text.done\",\"text\":\"{text}\"}}"));
    assert_eq!(long.finish(), Err(UNUSABLE.to_string()));
    let mut fits = Transcriber::new();
    let text = "x".repeat(4000);
    fits.take_payload(&format!("{{\"type\":\"transcript.text.done\",\"text\":\"{text}\"}}"));
    assert_eq!(fits.finish(), Ok(text));
}

#[test]
fn a_failed_transcription_ends() {
    let mut asr = Transcriber::new();
    let (_, failure) = asr.take_chunk(&frame("{\"type\":\"error\"}"));
    assert_eq!(failure, Some("Transcription failed.".to_string()));
    let mut asr = Transcriber::new();
    let (_, failure) = asr.take_chunk(b"data: \xff\n\n");
    assert_eq!(failure, Some("Invalid transcription stream.".to_string()));
}

#[test]
fn audio_services_are_beside_the_model() {
    assert_eq!(
        audio_url("https://api.openai.com/v1/responses", "speech"),
        "https://api.openai.com/v1/audio/speech"
    );
    assert_eq!(audio_url("http://x", "transcriptions"), "http://x/audio/transcriptions");
}

#[test]
fn the_transcript_is_asked_with_its_history() {
    let history = vec![Message { role: "assistant".to_string(), content: "a".to_string() }];
    assert_eq!(
        voice_payload("m", &history, "b").text(),
        canon("{\"model\":\"m\",\"input\":[{\"role\":\"assistant\",\"content\":\"a\"},{\"role\":\"user\",\"content\":\"b\"}],\"stream\":true,\"store\":false,\"reasoning\":{\"effort\":\"low\",\"summary\":\"auto\"},\"max_output_tokens\":2048,\"instructions\":\"You are Rove, a helpful voice assistant. Reply concisely in natural spoken sentences. Start with a short useful sentence. Avoid markdown and long lists. You have no shell or file tools; never claim to run commands.\"}")
    );
}

fn told(effects: Vec<VoiceEffect>) -> Vec<String> {
    effects
        .into_iter()
        .map(|effect| match effect {
            VoiceEffect::Speak(text) => format!("speak {text}"),
            VoiceEffect::Close => "close".to_string(),
            VoiceEffect::Send(event) => format!("send {}", event.get_str("type").unwrap_or("")),
        })
        .collect()
}

#[test]
fn an_answer_is_spoken_in_phrases() {
    let mut reply = VoiceReply::new();
    let text = format!("{}. And more", "a".repeat(40));
    let delta = format!("{{\"type\":\"response.output_text.delta\",\"delta\":\"{text}\"}}");
    let (effects, stopped) = reply.take_chunk(&frame(&delta));
    assert!(!stopped);
    assert_eq!(
        told(effects),
        vec![
            format!("speak {}.", "a".repeat(40)),
            "send response.output_text.delta".to_string(),
        ]
    );
    assert!(!reply.is_done());
    let (effects, stopped) = reply.take_chunk(&frame("{\"type\":\"response.completed\"}"));
    assert!(!stopped);
    assert_eq!(
        told(effects),
        vec!["speak  And more", "close", "send response.completed"]
    );
    assert!(reply.is_done());
}

#[test]
fn a_failed_answer_stops() {
    for kind in ["response.failed", "response.incomplete", "error"] {
        let mut reply = VoiceReply::new();
        let (effects, stopped) = reply.take_payload(&format!("{{\"type\":\"{kind}\"}}"));
        assert!(stopped);
        assert_eq!(told(effects), vec![format!("send {kind}")]);
    }
    let mut reply = VoiceReply::new();
    let (effects, stopped) = reply.take_payload("not json");
    assert!(!stopped);
    assert!(effects.is_empty());
    let (effects, stopped) = reply.take_chunk(b"data: \xff\n\n");
    assert!(stopped);
    assert_eq!(effects.len(), 1);
    assert!(matches!(
        &effects[0],
        VoiceEffect::Send(event) if event.get_str("message") == Some("Invalid model stream.")
    ));
}

#[test]
fn blank_phrases_are_not_spoken() {
    assert!(speech_payload(" \n").is_none());
    assert_eq!(
        speech_payload(" Hi.").unwrap().text(),
        canon("{\"model\":\"gpt-4o-mini-tts\",\"voice\":\"coral\",\"input\":\" Hi.\",\"response_format\":\"pcm\",\"instructions\":\"Speak naturally and clearly, at a conversational pace.\"}")
    );
}

fn spoken(bytes: &[u8]) -> String {
    let mut speaker = Speaker::new();
    let events = speaker.take_chunk(bytes, 0);
    events[1].get_str("audio").unwrap().to_string()
}

#[test]
fn audio_is_base64() {
    assert_eq!(spoken(b""), "");
    assert_eq!(spoken(b"M"), "TQ==");
    assert_eq!(spoken(b"Ma"), "TWE=");
    assert_eq!(spoken(b"Man"), "TWFu");
    assert_eq!(spoken(&[0xfb, 0xff, 0xfe, 0x00]), "+//+AA==");
}

#[test]
fn speech_is_numbered_by_segment() {
    let mut speaker = Speaker::new();
    let events: Vec<String> = speaker.take_chunk(b"Man", 12).iter().map(|e| e.text()).collect();
    assert_eq!(
        events,
        vec![
            canon("{\"type\":\"voice.first_audio\",\"server_ms\":12}"),
            canon("{\"type\":\"voice.audio.delta\",\"audio\":\"TWFu\",\"sample_rate\":24000,\"segment\":0}"),
        ]
    );
    speaker.end_segment();
    let events: Vec<String> = speaker.take_chunk(b"M", 20).iter().map(|e| e.text()).collect();
    assert_eq!(
        events,
        vec![canon("{\"type\":\"voice.audio.delta\",\"audio\":\"TQ==\",\"sample_rate\":24000,\"segment\":1}")]
    );
}

#[test]
fn stages_are_events() {
    assert_eq!(
        stage_transcribing().text(),
        canon("{\"type\":\"voice.stage\",\"stage\":\"transcribing\"}")
    );
    assert_eq!(
        transcribed_event("hi", 9).text(),
        canon("{\"type\":\"voice.transcribed\",\"text\":\"hi\",\"asr_ms\":9}")
    );
    assert_eq!(
        completed_event(10).text(),
        canon("{\"type\":\"voice.completed\",\"server_ms\":10}")
    );
    assert_eq!(
        speech_failed().text(),
        canon("{\"type\":\"voice.error\",\"message\":\"Speech generation failed. The text answer is still available.\"}")
    );
    assert_eq!(
        speech_interrupted().text(),
        canon("{\"type\":\"voice.error\",\"message\":\"Speech stream interrupted.\"}")
    );
}

#[test]
fn faults_are_told() {
    for (fault, message) in [
        (
            VoiceFault::NoTranscription,
            "Transcription failed. Check audio model access or try again.",
        ),
        (VoiceFault::NoModel, "The model request failed. Please try again."),
        (VoiceFault::EndedEarly, "The model stream ended early."),
        (VoiceFault::TimedOut, "Voice request timed out."),
    ] {
        let event = fault_event(fault);
        assert_eq!(event.get_str("type"), Some("error"));
        assert_eq!(event.get_str("message"), Some(message));
    }
}
