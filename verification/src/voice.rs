//! The voice turn: an upload is checked, transcribed, answered by the model,
//! and the answer is spoken phrase by phrase while it still streams.

use vstd::prelude::*;
use crate::chat::{refuse, Refusal};
use crate::chat::{refusal, RefusalView};
use crate::json::Json;
use crate::messages::{are_sound, fits, Message};
use crate::messages::{all_sound, message_views, sound, total_bytes, MessageView};
use crate::sse::error_json;
use crate::sse::error_value;
use crate::text::{before_first, byte_len, chars_of, same, split_at};
use crate::text::{
    all_space, first_index, is_space, lemma_first_index, lemma_utf8_len_monotone,
    lemma_utf8_len_step, utf8_len,
};

verus! {

/// Whether a phrase ends with the character at `k`: at punctuation once it is
/// long enough, at whitespace once it is long, and anywhere once it is too
/// long. Lengths are in bytes up to the character.
pub open spec fn ends_phrase(s: Seq<char>, k: int) -> bool {
    let index = utf8_len(s.take(k));
    let c = s[k];
    ||| index >= 35 && (c == '.' || c == '!' || c == '?' || c == '\n')
    ||| index >= 180 && is_space(c)
    ||| index >= 400
}

/// The number of characters up to the first end of a phrase at or after
/// `from`.
pub open spec fn phrase_end(s: Seq<char>, from: int) -> Option<int>
    decreases s.len() - from,
{
    if from < 0 || s.len() <= from {
        None
    } else if ends_phrase(s, from) {
        Some(from + 1)
    } else {
        phrase_end(s, from + 1)
    }
}

/// The number of characters of the next phrase; at the end of the text, what
/// is left makes one.
pub open spec fn phrase_chars(s: Seq<char>, finish: bool) -> Option<int> {
    match phrase_end(s, 0) {
        Some(k) => Some(k),
        None => if finish && s.len() > 0 {
            Some(s.len() as int)
        } else {
            None
        },
    }
}

/// Takes the next phrase out of the buffer. Complete phrases are dispatched
/// early, and each stays comfortably below the limit of a speech request.
pub fn phrase(buffer: &mut String, finish: bool) -> (r: Option<String>)
    ensures
        match r {
            Some(text) => phrase_chars(old(buffer)@, finish) matches Some(k) && text@ == old(
                buffer,
            )@.take(k) && final(buffer)@ == old(buffer)@.skip(k),
            None => phrase_chars(old(buffer)@, finish) is None && final(buffer)@ == old(buffer)@,
        },
{
    let ghost s = buffer@;
    let chars = chars_of(buffer.as_str());
    let size: usize = byte_len(buffer.as_str());
    let n: usize = chars.len();
    let mut i: usize = 0;
    let mut at: usize = 0;
    let mut found = false;
    assert(s.take(0) =~= Seq::empty());
    while i < n && !found
        invariant
            chars@ == s,
            n == s.len(),
            size == utf8_len(s),
            i <= n,
            at == utf8_len(s.take(i as int)),
            found ==> phrase_end(s, 0) == Some(i as int),
            !found ==> phrase_end(s, 0) == phrase_end(s, i as int),
        decreases n - i,
    {
        let c = chars[i];
        found = (at >= 35 && (c == '.' || c == '!' || c == '?' || c == '\n')) || (at >= 180
            && c.is_whitespace()) || at >= 400;
        assert(found == ends_phrase(s, i as int));
        proof {
            lemma_utf8_len_step(s, i as int);
            lemma_utf8_len_monotone(s, i + 1, i + 1);
        }
        at = at + c.len_utf8();
        i = i + 1;
    }
    if !found && (!finish || n == 0) {
        return None;
    }
    let parts = split_at(buffer.as_str(), at, Ghost(i as int));
    let text = parts.0.to_owned();
    let rest = parts.1.to_owned();
    *buffer = rest;
    Some(text)
}

proof fn lemma_phrase_end(s: Seq<char>, from: int)
    requires
        0 <= from <= s.len(),
    ensures
        match phrase_end(s, from) {
            Some(k) => from < k <= s.len() && ends_phrase(s, k - 1) && forall|i: int|
                from <= i < k - 1 ==> !#[trigger] ends_phrase(s, i),
            None => forall|i: int| from <= i < s.len() ==> !#[trigger] ends_phrase(s, i),
        },
    decreases s.len() - from,
{
    if from < s.len() && !ends_phrase(s, from) {
        lemma_phrase_end(s, from + 1);
    }
}

/// A phrase is not empty and lies within the text.
pub proof fn lemma_phrase_chars(s: Seq<char>, finish: bool)
    ensures
        phrase_chars(s, finish) matches Some(k) ==> 0 < k <= s.len(),
{
    lemma_phrase_end(s, 0);
}

/// The phrases that a text gives, and what is left of it.
pub open spec fn phrases(s: Seq<char>, finish: bool) -> (Seq<Seq<char>>, Seq<char>)
    decreases s.len(),
{
    proof {
        lemma_phrase_chars(s, finish);
    }
    match phrase_chars(s, finish) {
        Some(k) => {
            let rest = phrases(s.skip(k), finish);
            (seq![s.take(k)] + rest.0, rest.1)
        },
        None => (Seq::empty(), s),
    }
}

/// Phrases keep the text and its order: joined, they and what is left are what
/// was there.
pub proof fn law_phrases_keep_the_text(s: Seq<char>, finish: bool)
    ensures
        phrases(s, finish).0.flatten() + phrases(s, finish).1 == s,
    decreases s.len(),
{
    lemma_phrase_chars(s, finish);
    match phrase_chars(s, finish) {
        Some(k) => {
            law_phrases_keep_the_text(s.skip(k), finish);
            let rest = phrases(s.skip(k), finish);
            let all = seq![s.take(k)] + rest.0;
            assert(all.drop_first() =~= rest.0);
            assert(all.flatten() == s.take(k) + rest.0.flatten());
            assert(all.flatten() + rest.1 =~= s.take(k) + (rest.0.flatten() + rest.1));
            assert(s.take(k) + s.skip(k) =~= s);
        },
        None => {
            let none = Seq::<Seq<char>>::empty();
            assert(none.flatten() =~= Seq::empty());
            assert(none.flatten() + s =~= s);
        },
    }
}

/// At the end of the text nothing is left unsaid.
pub proof fn law_last_phrases_leave_nothing(s: Seq<char>)
    ensures
        phrases(s, true).1.len() == 0,
    decreases s.len(),
{
    lemma_phrase_chars(s, true);
    if let Some(k) = phrase_chars(s, true) {
        law_last_phrases_leave_nothing(s.skip(k));
    }
}

/// No phrase is long.
pub proof fn law_phrases_are_short(s: Seq<char>, finish: bool)
    ensures
        phrase_chars(s, finish) matches Some(k) ==> utf8_len(s.take(k)) < 408,
{
    lemma_phrase_end(s, 0);
    if let Some(k) = phrase_chars(s, finish) {
        lemma_utf8_len_step(s, k - 1);
        if k > 1 {
            lemma_utf8_len_step(s, k - 2);
            assert(!ends_phrase(s, k - 2));
        } else {
            assert(s.take(0) =~= Seq::empty());
        }
    }
}

/// The most bytes of an upload.
pub const MAX_AUDIO: usize = 5 * 1024 * 1024;

/// The most bytes of an uploaded history, as JSON and as contents.
pub const MAX_HISTORY_JSON: usize = 128_000;

pub const MAX_HISTORY_BYTES: usize = 20_000;

/// The most messages of an uploaded history.
pub const MAX_HISTORY: usize = 20;

/// Refuses a voice request before its body is read: clients on other machines
/// and a missing key.
pub fn voice_refusal(loopback: bool, has_key: bool) -> (r: Option<Refusal>)
    ensures
        match r {
            Some(refused) => if !loopback {
                refused@ == refusal(403, "Use the public HTTPS page."@)
            } else {
                !has_key && refused@ == refusal(503, "Server API key is not configured."@)
            },
            None => loopback && has_key,
        },
{
    if !loopback {
        Some(refuse(403, "Use the public HTTPS page."))
    } else if !has_key {
        Some(refuse(503, "Server API key is not configured."))
    } else {
        None
    }
}

/// Refuses a voice request while every slot is taken.
pub fn voice_busy() -> (r: Refusal)
    ensures
        r@ == refusal(429, "The server is busy. Try again shortly."@),
{
    refuse(429, "The server is busy. Try again shortly.")
}

/// A field of an upload, as far as it could be read.
pub enum VoiceField {
    /// The recording: its content type and its bytes.
    Audio { content_type: Option<String>, data: Option<Vec<u8>> },
    /// The history: the length of its JSON in bytes, and the messages that it
    /// holds.
    Messages { bytes: Option<usize>, parsed: Option<Vec<Message>> },
    /// A field of another name.
    Other,
    /// The upload could not be read.
    Broken,
}

/// The type of a recording, without parameters.
pub open spec fn mime_of(content_type: Option<Seq<char>>) -> Seq<char> {
    let whole = match content_type {
        Some(text) => text,
        None => "audio/webm"@,
    };
    whole.take(first_index(whole, ';'))
}

/// What an upload holds so far.
pub struct VoiceForm {
    pub audio: Option<Vec<u8>>,
    pub mime: String,
    pub history: Vec<Message>,
}

/// Why a field is refused.
pub open spec fn field_refused(field: VoiceField) -> Option<RefusalView> {
    match field {
        VoiceField::Audio { content_type: _, data } => match data {
            Some(data) => if 0 < data@.len() <= MAX_AUDIO {
                None
            } else {
                Some(refusal(400, "Use a recording under 5 MB."@))
            },
            None => Some(refusal(400, "Use a recording under 5 MB."@)),
        },
        VoiceField::Messages { bytes, parsed } => if bytes matches Some(n) && n
            <= MAX_HISTORY_JSON && parsed is Some {
            None
        } else {
            Some(refusal(400, "Invalid history."@))
        },
        VoiceField::Other => Some(refusal(400, "Unexpected upload field."@)),
        VoiceField::Broken => Some(refusal(400, "Invalid audio upload."@)),
    }
}

/// The file extension for the types of recording that are supported.
pub open spec fn extension_of(mime: Seq<char>) -> Option<Seq<char>> {
    if mime == "audio/webm"@ || mime == "video/webm"@ {
        Some("webm"@)
    } else if mime == "audio/mp4"@ || mime == "video/mp4"@ {
        Some("mp4"@)
    } else if mime == "audio/wav"@ || mime == "audio/x-wav"@ {
        Some("wav"@)
    } else if mime == "audio/ogg"@ {
        Some("ogg"@)
    } else if mime == "audio/mpeg"@ {
        Some("mp3"@)
    } else {
        None
    }
}

/// The file extension for a type of recording.
pub fn audio_extension(mime: &str) -> (r: Option<&'static str>)
    ensures
        match r {
            Some(extension) => extension_of(mime@) == Some(extension@),
            None => extension_of(mime@) is None,
        },
{
    if same(mime, "audio/webm") || same(mime, "video/webm") {
        Some("webm")
    } else if same(mime, "audio/mp4") || same(mime, "video/mp4") {
        Some("mp4")
    } else if same(mime, "audio/wav") || same(mime, "audio/x-wav") {
        Some("wav")
    } else if same(mime, "audio/ogg") {
        Some("ogg")
    } else if same(mime, "audio/mpeg") {
        Some("mp3")
    } else {
        None
    }
}

/// A history that may go with a recording.
pub open spec fn history_ok(messages: Seq<MessageView>) -> bool {
    messages.len() <= MAX_HISTORY && all_sound(messages) && total_bytes(messages)
        <= MAX_HISTORY_BYTES
}

/// Why a complete upload is refused.
pub open spec fn form_refused(form: VoiceForm) -> Option<RefusalView> {
    if form.audio is None {
        Some(refusal(400, "No audio was uploaded."@))
    } else if extension_of(form.mime@) is None {
        Some(refusal(400, "Unsupported audio format."@))
    } else if !history_ok(message_views(form.history@)) {
        Some(refusal(400, "Conversation history is too large or invalid."@))
    } else {
        None
    }
}

/// An upload that may be served.
pub struct VoiceRequest {
    pub audio: Vec<u8>,
    pub mime: String,
    /// The name under which the recording is passed on.
    pub file_name: String,
    pub history: Vec<Message>,
}

impl VoiceForm {
    pub fn new() -> (r: VoiceForm)
        ensures
            r.audio is None,
            r.mime@.len() == 0,
            r.history@.len() == 0,
    {
        VoiceForm { audio: None, mime: String::new(), history: Vec::new() }
    }

    /// Takes one field in, or refuses the upload. A later field of a kind
    /// replaces an earlier one.
    pub fn take(&mut self, field: VoiceField) -> (r: Option<Refusal>)
        ensures
            match r {
                Some(refused) => field_refused(field) == Some(refused@) && *final(self) == *old(
                    self,
                ),
                None => field_refused(field) is None && match field {
                    VoiceField::Audio { content_type, data } => {
                        &&& final(self).audio == data
                        &&& final(self).mime@ == mime_of(
                            match content_type {
                                Some(text) => Some(text@),
                                None => None,
                            },
                        )
                        &&& final(self).history == old(self).history
                    },
                    VoiceField::Messages { bytes: _, parsed } => {
                        &&& Some(final(self).history) == parsed
                        &&& final(self).audio == old(self).audio
                        &&& final(self).mime == old(self).mime
                    },
                    _ => false,
                },
            },
    {
        match field {
            VoiceField::Audio { content_type, data } => {
                match data {
                    Some(data) => {
                        if data.len() == 0 || data.len() > MAX_AUDIO {
                            return Some(refuse(400, "Use a recording under 5 MB."));
                        }
                        self.mime = match content_type {
                            Some(text) => before_first(text.as_str(), ';'),
                            None => before_first("audio/webm", ';'),
                        };
                        self.audio = Some(data);
                        None
                    },
                    None => Some(refuse(400, "Use a recording under 5 MB.")),
                }
            },
            VoiceField::Messages { bytes, parsed } => {
                let short = match bytes {
                    Some(n) => n <= MAX_HISTORY_JSON,
                    None => false,
                };
                if !short {
                    return Some(refuse(400, "Invalid history."));
                }
                match parsed {
                    Some(history) => {
                        self.history = history;
                        None
                    },
                    None => Some(refuse(400, "Invalid history.")),
                }
            },
            VoiceField::Other => Some(refuse(400, "Unexpected upload field.")),
            VoiceField::Broken => Some(refuse(400, "Invalid audio upload.")),
        }
    }

    /// Accepts the upload, or refuses it.
    pub fn finish(self) -> (r: Result<VoiceRequest, Refusal>)
        ensures
            match r {
                Ok(request) => {
                    &&& form_refused(self) is None
                    &&& self.audio == Some(request.audio)
                    &&& request.mime == self.mime
                    &&& request.file_name@ == "recording."@ + extension_of(self.mime@)->0
                    &&& request.history == self.history
                },
                Err(refused) => form_refused(self) == Some(refused@),
            },
    {
        let audio = match self.audio {
            Some(audio) => audio,
            None => return Err(refuse(400, "No audio was uploaded.")),
        };
        let extension = match audio_extension(self.mime.as_str()) {
            Some(extension) => extension,
            None => return Err(refuse(400, "Unsupported audio format.")),
        };
        if self.history.len() > MAX_HISTORY || !are_sound(&self.history) || !fits(
            &self.history,
            MAX_HISTORY_BYTES,
        ) {
            return Err(refuse(400, "Conversation history is too large or invalid."));
        }
        let mut file_name = "recording.".to_owned();
        file_name.append(extension);
        Ok(VoiceRequest { audio, mime: self.mime, file_name, history: self.history })
    }
}

/// The event that reports a failure.
pub fn failed(message: &str) -> (r: Json)
    ensures
        r@ == error_value(message@),
{
    error_json(message)
}

/// Whether a phrase may end with the character at `i`: with a mark from 35
/// bytes on, with whitespace from 180 on, and with anything from 400 on.
pub open spec fn phrase_may_end(s: Seq<char>, i: int) -> bool {
    let before = utf8_len(s.take(i));
    (before >= 35 && (s[i] == '.' || s[i] == '!' || s[i] == '?' || s[i] == '\n')) || (before >= 180
        && is_space(s[i])) || before >= 400
}

/// A phrase goes up to the first character with which it may end; without one
/// there is none yet, and at the end of the text all that is left is one.
pub proof fn law_phrases_end_at_the_first_chance(s: Seq<char>, finish: bool)
    ensures
        match phrase_chars(s, finish) {
            Some(k) => {
                &&& 0 < k <= s.len()
                &&& forall|i: int| 0 <= i < k - 1 ==> !#[trigger] phrase_may_end(s, i)
                &&& phrase_may_end(s, k - 1) || (finish && k == s.len())
            },
            None => (!finish || s.len() == 0) && forall|i: int|
                0 <= i < s.len() ==> !#[trigger] phrase_may_end(s, i),
        },
{
    lemma_phrase_end(s, 0);
    assert forall|i: int| 0 <= i < s.len() implies (#[trigger] phrase_may_end(s, i)
        == ends_phrase(s, i)) by {}
}

/// The type of a recording is what stands before the first semicolon of its
/// content type.
pub proof fn law_type_ends_at_the_semicolon(text: Seq<char>)
    ensures
        ({
            let mime = mime_of(Some(text));
            &&& mime == text.take(mime.len() as int)
            &&& !mime.contains(';')
            &&& mime.len() < text.len() ==> text[mime.len() as int] == ';'
        }),
        mime_of(None) == mime_of(Some("audio/webm"@)),
{
    lemma_first_index(text, ';');
    let mime = mime_of(Some(text));
    if mime.contains(';') {
        let i = choose|i: int| 0 <= i < mime.len() && mime[i] == ';';
        assert(text[i] == ';');
    }
}

/// A field is taken exactly if it is a recording of up to 5 MB that is not
/// empty, or a history of up to 128,000 bytes that could be read.
pub proof fn law_which_fields_are_taken(field: VoiceField)
    ensures
        field_refused(field) is None <==> match field {
            VoiceField::Audio { content_type: _, data } => data matches Some(bytes) && 1
                <= bytes@.len() <= 5 * 1024 * 1024,
            VoiceField::Messages { bytes, parsed } => (bytes matches Some(n) && n <= 128_000)
                && parsed is Some,
            _ => false,
        },
        field_refused(field) matches Some(r) ==> r.status == 400,
{
}

/// An upload is served exactly if it holds a recording of a known type, and a
/// history of up to 20 messages and 20,000 bytes, each of the user or the
/// assistant and not blank.
pub proof fn law_which_uploads_are_served(form: VoiceForm)
    ensures
        ({
            let history = message_views(form.history@);
            form_refused(form) is None <==> {
                &&& form.audio is Some
                &&& extension_of(form.mime@) is Some
                &&& history.len() <= 20
                &&& total_bytes(history) <= 20_000
                &&& forall|i: int|
                    0 <= i < history.len() ==> ((#[trigger] history[i]).role == "user"@
                        || history[i].role == "assistant"@) && !all_space(history[i].content)
            }
        }),
        form_refused(form) matches Some(r) ==> r.status == 400,
{
    let history = message_views(form.history@);
    assert forall|i: int| 0 <= i < history.len() implies (sound(#[trigger] history[i]) <==> ((
    history[i].role == "user"@ || history[i].role == "assistant"@) && !all_space(
        history[i].content,
    ))) by {}
    if all_sound(history) {
        assert forall|i: int| 0 <= i < history.len() implies ((#[trigger] history[i]).role
            == "user"@ || history[i].role == "assistant"@) && !all_space(history[i].content) by {
            assert(sound(history[i]));
        }
    }
}

/// The types of recordings that are known, and the extension of each.
pub proof fn law_known_recordings(mime: Seq<char>)
    ensures
        extension_of(mime) == Some("webm"@) <==> mime == "audio/webm"@ || mime == "video/webm"@,
        extension_of(mime) == Some("mp4"@) <==> mime == "audio/mp4"@ || mime == "video/mp4"@,
        extension_of(mime) == Some("wav"@) <==> mime == "audio/wav"@ || mime == "audio/x-wav"@,
        extension_of(mime) == Some("ogg"@) <==> mime == "audio/ogg"@,
        extension_of(mime) == Some("mp3"@) <==> mime == "audio/mpeg"@,
{
    reveal_strlit("webm");
    reveal_strlit("mp4");
    reveal_strlit("wav");
    reveal_strlit("ogg");
    reveal_strlit("mp3");
    reveal_strlit("audio/webm");
    reveal_strlit("video/webm");
    reveal_strlit("audio/mp4");
    reveal_strlit("video/mp4");
    reveal_strlit("audio/wav");
    reveal_strlit("audio/x-wav");
    reveal_strlit("audio/ogg");
    reveal_strlit("audio/mpeg");
    assert("webm"@.len() == 4);
    assert("mp4"@[2] == '4' && "mp3"@[2] == '3' && "wav"@[0] == 'w' && "ogg"@[0] == 'o');
    assert("mp4"@[0] == 'm' && "mp3"@[0] == 'm');
    assert("audio/webm"@.len() == 10 && "audio/mpeg"@.len() == 10 && "video/webm"@.len() == 10);
    assert("audio/webm"@[6] == 'w' && "audio/mpeg"@[6] == 'm' && "video/webm"@[0] == 'v');
    assert("audio/mpeg"@[0] == 'a');
    assert("audio/mp4"@.len() == 9 && "video/mp4"@.len() == 9 && "audio/wav"@.len() == 9);
    assert("audio/ogg"@.len() == 9 && "audio/x-wav"@.len() == 11);
    assert("audio/mp4"@[6] == 'm' && "audio/wav"@[6] == 'w' && "audio/ogg"@[6] == 'o');
    assert("video/mp4"@[6] == 'm');
}

} // verus!
