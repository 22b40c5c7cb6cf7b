//! The messages of a conversation, and the budget that the server enforces on
//! them.

use vstd::prelude::*;
use crate::json::Json;
use crate::json::{items_view, JsonView};
use crate::text::{byte_len, is_blank, same};
use crate::text::{all_space, is_space, utf8_len};

verus! {

/// Conversation budget, enforced by the server and mirrored by the terminal
/// client so that valid input is never rejected.
pub const MAX_MESSAGES: usize = 21;

pub const MAX_BYTES: usize = 24_000;

/// One message of a conversation.
pub struct Message {
    pub role: String,
    pub content: String,
}

/// What a [`Message`] holds.
pub struct MessageView {
    pub role: Seq<char>,
    pub content: Seq<char>,
}

impl View for Message {
    type V = MessageView;

    open spec fn view(&self) -> MessageView {
        MessageView { role: self.role@, content: self.content@ }
    }
}

/// What each message holds.
pub open spec fn message_views(messages: Seq<Message>) -> Seq<MessageView> {
    messages.map_values(|m: Message| m@)
}

/// The bytes of all contents.
pub open spec fn total_bytes(messages: Seq<MessageView>) -> nat
    decreases messages.len(),
{
    if messages.len() == 0 {
        0
    } else {
        total_bytes(messages.drop_last()) + utf8_len(messages.last().content)
    }
}

/// Fewer messages hold no more bytes.
pub proof fn lemma_total_bytes_prefix(messages: Seq<MessageView>, k: int)
    requires
        0 <= k <= messages.len(),
    ensures
        total_bytes(messages.take(k)) <= total_bytes(messages),
    decreases messages.len(),
{
    if k < messages.len() {
        lemma_total_bytes_prefix(messages.drop_last(), k);
        assert(messages.drop_last().take(k) =~= messages.take(k));
    } else {
        assert(messages.take(k) =~= messages);
    }
}

/// A message that one of the two sides said, and that says something.
pub open spec fn sound(m: MessageView) -> bool {
    (m.role == "user"@ || m.role == "assistant"@) && !all_space(m.content)
}

pub open spec fn all_sound(messages: Seq<MessageView>) -> bool {
    forall|i: int| 0 <= i < messages.len() ==> sound(#[trigger] messages[i])
}

/// The conversations that the server answers: some messages of the user and
/// the assistant, none of them blank, within the budget, and the last one from
/// the user.
pub open spec fn acceptable(messages: Seq<MessageView>) -> bool {
    &&& 0 < messages.len() <= MAX_MESSAGES
    &&& all_sound(messages)
    &&& total_bytes(messages) <= MAX_BYTES
    &&& messages.last().role == "user"@
}

/// Whether the contents fit in `limit` bytes.
pub fn fits(messages: &Vec<Message>, limit: usize) -> (r: bool)
    ensures
        r == (total_bytes(message_views(messages@)) <= limit),
{
    let ghost all = message_views(messages@);
    let mut total: usize = 0;
    let mut i: usize = 0;
    assert(all.take(0) =~= Seq::empty());
    while i < messages.len()
        invariant
            i <= messages@.len(),
            all == message_views(messages@),
            total == total_bytes(all.take(i as int)),
            total <= limit,
        decreases messages@.len() - i,
    {
        assert(all.take(i + 1).drop_last() =~= all.take(i as int));
        assert(all.take(i + 1).last() == messages@[i as int]@);
        let size: usize = byte_len(messages[i].content.as_str());
        if size > limit - total {
            proof {
                lemma_total_bytes_prefix(all, i + 1);
            }
            return false;
        }
        total = total + size;
        i = i + 1;
    }
    assert(all.take(i as int) =~= all);
    true
}

/// Whether every message is from one of the two sides and says something.
pub fn are_sound(messages: &Vec<Message>) -> (r: bool)
    ensures
        r == all_sound(message_views(messages@)),
{
    let ghost all = message_views(messages@);
    let mut i: usize = 0;
    while i < messages.len()
        invariant
            i <= messages@.len(),
            all == message_views(messages@),
            forall|j: int| 0 <= j < i ==> sound(#[trigger] all[j]),
        decreases messages@.len() - i,
    {
        let role = messages[i].role.as_str();
        let known = same(role, "user") || same(role, "assistant");
        if !known || is_blank(messages[i].content.as_str()) {
            assert(!sound(all[i as int]));
            return false;
        }
        assert(sound(all[i as int]));
        i = i + 1;
    }
    true
}

/// Whether the server answers a conversation.
pub fn is_acceptable(messages: &Vec<Message>) -> (r: bool)
    ensures
        r == acceptable(message_views(messages@)),
{
    if messages.is_empty() || messages.len() > MAX_MESSAGES {
        return false;
    }
    if !are_sound(messages) || !fits(messages, MAX_BYTES) {
        return false;
    }
    let last = &messages[messages.len() - 1];
    assert(message_views(messages@).last() == last@);
    same(last.role.as_str(), "user")
}

/// A message as JSON.
pub open spec fn message_value(m: MessageView) -> JsonView {
    JsonView::Object(
        map!["role"@ => JsonView::Str(m.role), "content"@ => JsonView::Str(m.content)],
    )
}

pub open spec fn message_values(messages: Seq<MessageView>) -> Seq<JsonView> {
    messages.map_values(|m: MessageView| message_value(m))
}

/// A message as JSON.
pub fn message_json(m: &Message) -> (r: Json)
    ensures
        r@ == message_value(m@),
{
    Json::object().with("role", Json::string(m.role.as_str())).with(
        "content",
        Json::string(m.content.as_str()),
    )
}

/// Messages as JSON, in order.
pub fn message_jsons(messages: &Vec<Message>) -> (r: Vec<Json>)
    ensures
        items_view(r@) == message_values(message_views(messages@)),
{
    let ghost all = message_values(message_views(messages@));
    let mut out: Vec<Json> = Vec::new();
    let mut i: usize = 0;
    while i < messages.len()
        invariant
            i <= messages@.len(),
            all == message_values(message_views(messages@)),
            items_view(out@) == all.take(i as int),
        decreases messages@.len() - i,
    {
        let ghost before = items_view(out@);
        let item = message_json(&messages[i]);
        out.push(item);
        assert(items_view(out@) =~= before.push(item@));
        assert(all.take(i + 1) =~= all.take(i as int).push(all[i as int]));
        i = i + 1;
    }
    assert(all.take(i as int) =~= all);
    out
}

/// The bytes of a conversation are those of its parts; those of one message
/// are those of its content.
pub proof fn law_bytes_add_up(a: Seq<MessageView>, b: Seq<MessageView>, m: MessageView)
    ensures
        total_bytes(a + b) == total_bytes(a) + total_bytes(b),
        total_bytes(seq![m]) == utf8_len(m.content),
    decreases b.len(),
{
    reveal_with_fuel(total_bytes, 2);
    assert(seq![m].drop_last() =~= Seq::empty());
    if b.len() == 0 {
        assert(a + b =~= a);
    } else {
        law_bytes_add_up(a, b.drop_last(), m);
        assert((a + b).drop_last() =~= a + b.drop_last());
    }
}

/// A conversation is answered exactly if it has 1 to 21 messages, up to 24,000
/// bytes, each of the user or the assistant and not blank, the last one of the
/// user.
pub proof fn law_which_conversations_are_answered(messages: Seq<MessageView>)
    ensures
        acceptable(messages) <==> {
            &&& 1 <= messages.len() <= 21
            &&& total_bytes(messages) <= 24_000
            &&& forall|i: int|
                0 <= i < messages.len() ==> (((#[trigger] messages[i]).role == "user"@
                    || messages[i].role == "assistant"@) && exists|j: int|
                    0 <= j < messages[i].content.len() && !is_space(
                        #[trigger] messages[i].content[j],
                    ))
            &&& messages[messages.len() - 1].role == "user"@
        },
{
    assert forall|i: int| 0 <= i < messages.len() implies (sound(#[trigger] messages[i]) <==> ((
    messages[i].role == "user"@ || messages[i].role == "assistant"@) && exists|j: int|
        0 <= j < messages[i].content.len() && !is_space(#[trigger] messages[i].content[j]))) by {}
    if acceptable(messages) {
        assert forall|i: int| 0 <= i < messages.len() implies (((#[trigger] messages[i]).role
            == "user"@ || messages[i].role == "assistant"@) && exists|j: int|
            0 <= j < messages[i].content.len() && !is_space(
                #[trigger] messages[i].content[j],
            )) by {
            assert(sound(messages[i]));
        }
    } else {
        if forall|i: int|
            0 <= i < messages.len() ==> (((#[trigger] messages[i]).role == "user"@
                || messages[i].role == "assistant"@) && exists|j: int|
                0 <= j < messages[i].content.len() && !is_space(
                    #[trigger] messages[i].content[j],
                )) {
            assert(all_sound(messages));
        }
    }
}

/// Each message is passed on with its role and its content, in order.
pub proof fn law_messages_are_passed_on(messages: Seq<MessageView>, i: int)
    requires
        0 <= i < messages.len(),
    ensures
        message_values(messages).len() == messages.len(),
        message_values(messages)[i] == JsonView::Object(
            map![
                "role"@ => JsonView::Str(messages[i].role),
                "content"@ => JsonView::Str(messages[i].content),
            ],
        ),
{
}

} // verus!
