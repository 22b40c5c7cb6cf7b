use backend_rove::messages::Message;
use backend_rove::voice::{
    audio_extension, failed, phrase, voice_busy, voice_refusal, VoiceField, VoiceForm, MAX_AUDIO,
};

#[test]
fn phrases_preserve_unicode_and_order() {
    let original = "Hello 🙂 this is a sufficiently long first sentence. Another short one.";
    let mut pending = original.to_string();
    let first = phrase(&mut pending, false).unwrap();
    assert!(first.ends_with('.'));
    let rest = phrase(&mut pending, true).unwrap();
    assert_eq!(first + &rest, original);
    assert!(phrase(&mut pending, true).is_none());
}

#[test]
fn phrases_end_at_marks_or_lengths() {
    // A mark counts from byte 35 on.
    let mut text = format!("{}.{}. rest", "a".repeat(34), "b".repeat(3));
    assert_eq!(
        phrase(&mut text, false),
        Some(format!("{}.{}.", "a".repeat(34), "b".repeat(3)))
    );
    assert_eq!(text, " rest");
    assert_eq!(phrase(&mut text, false), None);
    assert_eq!(text, " rest");
    // A space counts from byte 180 on, and anything from byte 400 on.
    let mut spaced = format!("{} {} x", "a".repeat(100), "b".repeat(90));
    assert_eq!(
        phrase(&mut spaced, false),
        Some(format!("{} {} ", "a".repeat(100), "b".repeat(90)))
    );
    let mut solid = "é".repeat(300);
    assert_eq!(phrase(&mut solid, false), Some("é".repeat(201)));
    assert_eq!(solid, "é".repeat(99));
    let mut empty = String::new();
    assert_eq!(phrase(&mut empty, true), None);
}

#[test]
fn phrases_keep_the_whole_text() {
    let text = "One, two? ".repeat(100);
    let mut buffer = text.clone();
    let mut parts = Vec::new();
    while let Some(part) = phrase(&mut buffer, false) {
        assert!(part.len() <= 404);
        parts.push(part);
    }
    while let Some(part) = phrase(&mut buffer, true) {
        parts.push(part);
    }
    assert_eq!(parts.concat(), text);
    assert_eq!(buffer, "");
}

#[test]
fn voice_needs_this_machine_and_a_key() {
    let refusal = voice_refusal(false, false).unwrap();
    assert_eq!((refusal.status, refusal.message.as_str()), (403, "Use the public HTTPS page."));
    let refusal = voice_refusal(true, false).unwrap();
    assert_eq!(
        (refusal.status, refusal.message.as_str()),
        (503, "Server API key is not configured.")
    );
    assert!(voice_refusal(true, true).is_none());
    let refusal = voice_busy();
    assert_eq!(
        (refusal.status, refusal.message.as_str(), refusal.retry_after),
        (429, "The server is busy. Try again shortly.", None)
    );
}

fn audio(content_type: Option<&str>, bytes: usize) -> VoiceField {
    VoiceField::Audio {
        content_type: content_type.map(|t| t.to_string()),
        data: Some(vec![7; bytes]),
    }
}

fn history(messages: Vec<(&str, &str)>) -> VoiceField {
    VoiceField::Messages {
        bytes: Some(100),
        parsed: Some(
            messages
                .into_iter()
                .map(|(role, content)| Message { role: role.to_string(), content: content.to_string() })
                .collect(),
        ),
    }
}

fn refused(field: VoiceField) -> String {
    let refusal = VoiceForm::new().take(field).unwrap();
    assert_eq!(refusal.status, 400);
    refusal.message
}

#[test]
fn an_upload_becomes_a_request() {
    let mut form = VoiceForm::new();
    assert!(form.take(audio(Some("audio/ogg; codecs=opus"), 3)).is_none());
    assert!(form.take(history(vec![("user", "a"), ("assistant", "b")])).is_none());
    let request = form.finish().ok().unwrap();
    assert_eq!(request.audio, vec![7, 7, 7]);
    assert_eq!(request.mime, "audio/ogg");
    assert_eq!(request.file_name, "recording.ogg");
    assert_eq!(request.history.len(), 2);
    assert_eq!(request.history[1].content, "b");
}

#[test]
fn recordings_without_a_type_are_webm() {
    let mut form = VoiceForm::new();
    assert!(form.take(audio(None, MAX_AUDIO)).is_none());
    let request = form.finish().ok().unwrap();
    assert_eq!(request.mime, "audio/webm");
    assert_eq!(request.file_name, "recording.webm");
    assert!(request.history.is_empty());
}

#[test]
fn bad_fields_are_refused() {
    assert_eq!(refused(audio(None, 0)), "Use a recording under 5 MB.");
    assert_eq!(refused(audio(None, MAX_AUDIO + 1)), "Use a recording under 5 MB.");
    assert_eq!(
        refused(VoiceField::Audio { content_type: None, data: None }),
        "Use a recording under 5 MB."
    );
    assert_eq!(
        refused(VoiceField::Messages { bytes: Some(128_001), parsed: Some(Vec::new()) }),
        "Invalid history."
    );
    assert_eq!(
        refused(VoiceField::Messages { bytes: None, parsed: None }),
        "Invalid history."
    );
    assert_eq!(
        refused(VoiceField::Messages { bytes: Some(2), parsed: None }),
        "Invalid history."
    );
    assert_eq!(refused(VoiceField::Other), "Unexpected upload field.");
    assert_eq!(refused(VoiceField::Broken), "Invalid audio upload.");
}

fn finish_refused(fields: Vec<VoiceField>) -> String {
    let mut form = VoiceForm::new();
    for field in fields {
        assert!(form.take(field).is_none());
    }
    let refusal = form.finish().err().unwrap();
    assert_eq!(refusal.status, 400);
    refusal.message
}

#[test]
fn bad_uploads_are_refused() {
    assert_eq!(finish_refused(vec![]), "No audio was uploaded.");
    assert_eq!(
        finish_refused(vec![audio(Some("audio/flac"), 1)]),
        "Unsupported audio format."
    );
    let large = "Conversation history is too large or invalid.";
    assert_eq!(
        finish_refused(vec![audio(None, 1), history(vec![("user", "x"); 21])]),
        large
    );
    assert_eq!(
        finish_refused(vec![audio(None, 1), history(vec![("system", "x")])]),
        large
    );
    assert_eq!(
        finish_refused(vec![audio(None, 1), history(vec![("user", " ")])]),
        large
    );
    let long = "x".repeat(20_001);
    assert_eq!(
        finish_refused(vec![audio(None, 1), history(vec![("user", long.as_str())])]),
        large
    );
}

#[test]
fn recordings_have_an_extension() {
    for (mime, extension) in [
        ("audio/webm", Some("webm")),
        ("video/webm", Some("webm")),
        ("audio/mp4", Some("mp4")),
        ("video/mp4", Some("mp4")),
        ("audio/wav", Some("wav")),
        ("audio/x-wav", Some("wav")),
        ("audio/ogg", Some("ogg")),
        ("audio/mpeg", Some("mp3")),
        ("audio/flac", None),
        ("", None),
    ] {
        assert_eq!(audio_extension(mime), extension);
    }
}

#[test]
fn voice_errors_are_events() {
    assert_eq!(failed("No.").text(), "{\"message\":\"No.\",\"type\":\"error\"}");
}
