//! The chat relay: what a request is answered before the model is asked, and
//! what the model is asked.

use vstd::prelude::*;
use crate::feed::copy_items;
use crate::json::Json;
use crate::json::{items_view, JsonView};
use crate::messages::{is_acceptable, Message};
use crate::messages::{acceptable, message_views, MessageView};
use crate::text::without_trailing;
use crate::text::drop_trailing;

verus! {

/// An answer that refuses a request.
pub struct Refusal {
    pub status: u16,
    pub message: String,
    /// Seconds after which the client may try again, where that is known.
    pub retry_after: Option<u64>,
}

/// What a [`Refusal`] holds.
pub struct RefusalView {
    pub status: u16,
    pub message: Seq<char>,
    pub retry_after: Option<u64>,
}

impl View for Refusal {
    type V = RefusalView;

    open spec fn view(&self) -> RefusalView {
        RefusalView {
            status: self.status,
            message: self.message@,
            retry_after: self.retry_after,
        }
    }
}

/// A refusal that does not say when to come back.
pub open spec fn refusal(status: u16, message: Seq<char>) -> RefusalView {
    RefusalView { status, message, retry_after: None }
}

/// A refusal that does not say when to come back.
pub fn refuse(status: u16, message: &str) -> (r: Refusal)
    ensures
        r@ == refusal(status, message@),
{
    Refusal { status, message: message.to_owned(), retry_after: None }
}

/// The body of an error answer.
pub open spec fn error_body_value(message: Seq<char>) -> JsonView {
    JsonView::Object(map!["error"@ => JsonView::Str(message)])
}

/// The body of an error answer.
pub fn error_body(message: &str) -> (r: Json)
    ensures
        r@ == error_body_value(message@),
{
    Json::object().with("error", Json::string(message))
}

/// Why a chat request is refused before anything is sent on its behalf: it
/// comes from another machine, there is no key, or the conversation is not
/// acceptable.
pub open spec fn chat_refused(
    loopback: bool,
    has_key: bool,
    messages: Seq<MessageView>,
) -> Option<RefusalView> {
    if !loopback {
        Some(refusal(403, "Only loopback clients are served."@))
    } else if !has_key {
        Some(refusal(503, "OPENAI_API_KEY is not configured on the server."@))
    } else if !acceptable(messages) {
        Some(
            refusal(
                400,
                "Send 1–21 user/assistant messages, up to 24 KB, ending with a user message."@,
            ),
        )
    } else {
        None
    }
}

/// Refuses a chat request that cannot or may not be served.
pub fn chat_refusal(loopback: bool, has_key: bool, messages: &Vec<Message>) -> (r: Option<Refusal>)
    ensures
        match r {
            Some(refusal) => chat_refused(loopback, has_key, message_views(messages@)) == Some(
                refusal@,
            ),
            None => chat_refused(loopback, has_key, message_views(messages@)) is None,
        },
{
    if !loopback {
        Some(refuse(403, "Only loopback clients are served."))
    } else if !has_key {
        Some(refuse(503, "OPENAI_API_KEY is not configured on the server."))
    } else if !is_acceptable(messages) {
        Some(
            refuse(
                400,
                "Send 1–21 user/assistant messages, up to 24 KB, ending with a user message.",
            ),
        )
    } else {
        None
    }
}

/// Refuses a request while every slot is taken, at once, instead of letting it
/// wait.
pub fn busy() -> (r: Refusal)
    ensures
        r@ == (RefusalView {
            status: 429,
            message: "The server is busy. Try again shortly."@,
            retry_after: Some(2),
        }),
{
    Refusal {
        status: 429,
        message: "The server is busy. Try again shortly.".to_owned(),
        retry_after: Some(2),
    }
}

/// Refuses a request for which the model could not be reached.
pub fn unreachable_model() -> (r: Refusal)
    ensures
        r@ == refusal(502, "Cannot reach OpenAI. Please retry."@),
{
    refuse(502, "Cannot reach OpenAI. Please retry.")
}

/// What a client is told of an upstream error status. Upstream error bodies
/// are not forwarded: they can hold fragments of the key.
pub open spec fn upstream_message(status: u16) -> Seq<char> {
    if status == 401 {
        "OpenAI rejected the server API key."@
    } else if status == 403 {
        "OpenAI denied access. Check model access and organization verification for reasoning summaries."@
    } else if status == 429 {
        "OpenAI quota or rate limit reached. Check API billing or retry later."@
    } else if status == 400 || status == 404 {
        "OpenAI rejected the model or request settings. Check server configuration."@
    } else {
        "OpenAI returned an error. Please retry."@
    }
}

/// Refuses a request that the model's service refused with `status`.
pub fn upstream_refusal(status: u16) -> (r: Refusal)
    ensures
        r@ == refusal(502, upstream_message(status)),
{
    let message = if status == 401 {
        "OpenAI rejected the server API key."
    } else if status == 403 {
        "OpenAI denied access. Check model access and organization verification for reasoning summaries."
    } else if status == 429 {
        "OpenAI quota or rate limit reached. Check API billing or retry later."
    } else if status == 400 || status == 404 {
        "OpenAI rejected the model or request settings. Check server configuration."
    } else {
        "OpenAI returned an error. Please retry."
    };
    refuse(502, message)
}

/// The address of the model's service, from the base URL that is configured.
pub open spec fn endpoint_of(base: Option<Seq<char>>) -> Seq<char> {
    drop_trailing(
        match base {
            Some(base) => base,
            None => "https://api.openai.com/v1"@,
        },
        '/',
    ) + "/responses"@
}

/// The address of the model's service.
pub fn endpoint(base: Option<&str>) -> (r: String)
    ensures
        r@ == endpoint_of(
            match base {
                Some(base) => Some(base@),
                None => None,
            },
        ),
{
    let mut out = match base {
        Some(base) => without_trailing(base, '/'),
        None => without_trailing("https://api.openai.com/v1", '/'),
    };
    out.append("/responses");
    out
}

/// The key that is configured, unless it is empty.
pub fn usable_key(key: Option<String>) -> (r: Option<String>)
    ensures
        match key {
            Some(text) => if text@.len() == 0 {
                r is None
            } else {
                r matches Some(kept) && kept@ == text@
            },
            None => r is None,
        },
{
    match key {
        Some(text) => if text.as_str().is_empty() {
            None
        } else {
            Some(text)
        },
        None => None,
    }
}

/// The tool that lets the model run a command on the server.
pub open spec fn tool_value() -> JsonView {
    JsonView::Object(
        map![
            "type"@ => JsonView::Str("function"@),
            "name"@ => JsonView::Str("run_command"@),
            "description"@ => JsonView::Str("Run a shell command on the server with sh -c as an unprivileged user. 30 second timeout, output truncated past ~12KB. Prefer read-only probing (ls, cat, df, uname, systemctl status) before changing anything, and report what each command showed."@),
            "parameters"@ => JsonView::Object(map![
                "type"@ => JsonView::Str("object"@),
                "properties"@ => JsonView::Object(map![
                    "command"@ => JsonView::Object(map![
                        "type"@ => JsonView::Str("string"@),
                        "description"@ => JsonView::Str("Shell command to run on the server"@),
                    ]),
                ]),
                "required"@ => JsonView::Array(seq![JsonView::Str("command"@)]),
                "additionalProperties"@ => JsonView::Bool(false),
            ]),
        ],
    )
}

/// The tool that lets the model run a command on the server.
pub fn exec_tool_def() -> (r: Json)
    ensures
        r@ == tool_value(),
{
    let command = Json::object().with("type", Json::string("string")).with(
        "description",
        Json::string("Shell command to run on the server"),
    );
    let properties = Json::object().with("command", command);
    let mut names: Vec<Json> = Vec::new();
    names.push(Json::string("command"));
    assert(items_view(names@) =~= seq![JsonView::Str("command"@)]);
    let parameters = Json::object().with("type", Json::string("object")).with(
        "properties",
        properties,
    ).with("required", Json::Array(names)).with("additionalProperties", Json::Bool(false));
    Json::object().with("type", Json::string("function")).with(
        "name",
        Json::string("run_command"),
    ).with(
        "description",
        Json::string(
            "Run a shell command on the server with sh -c as an unprivileged user. 30 second timeout, output truncated past ~12KB. Prefer read-only probing (ls, cat, df, uname, systemctl status) before changing anything, and report what each command showed.",
        ),
    ).with("parameters", parameters)
}

/// What the model is told of its task.
pub open spec fn chat_instructions_text() -> Seq<char> {
    "You are Rove, a terse assistant with a run_command tool for operating this server (30s limit). Probe read-only first. Be concise."@
}

/// What the model is told of its task.
pub fn chat_instructions() -> (r: &'static str)
    ensures
        r@ == chat_instructions_text(),
{
    "You are Rove, a terse assistant with a run_command tool for operating this server (30s limit). Probe read-only first. Be concise."
}

/// The request for one model response.
pub open spec fn payload_value(
    model: Seq<char>,
    instructions: Seq<char>,
    input: Seq<JsonView>,
    tools: JsonView,
) -> JsonView {
    JsonView::Object(
        map![
            "model"@ => JsonView::Str(model),
            "instructions"@ => JsonView::Str(instructions),
            "input"@ => JsonView::Array(input),
            "tools"@ => tools,
            "stream"@ => JsonView::Bool(true),
            "store"@ => JsonView::Bool(false),
            "reasoning"@ => JsonView::Object(map![
                "effort"@ => JsonView::Str("low"@),
                "summary"@ => JsonView::Str("auto"@),
            ]),
            "max_output_tokens"@ => JsonView::Int(2048),
            "service_tier"@ => JsonView::Str("priority"@),
        ],
    )
}

/// The request for one model response.
pub fn round_payload(model: &str, instructions: &str, input: &Vec<Json>, tools: &Json) -> (r: Json)
    ensures
        r@ == payload_value(model@, instructions@, items_view(input@), tools@),
{
    let reasoning = Json::object().with("effort", Json::string("low")).with(
        "summary",
        Json::string("auto"),
    );
    Json::object().with("model", Json::string(model)).with(
        "instructions",
        Json::string(instructions),
    ).with("input", Json::Array(copy_items(input))).with("tools", tools.clone()).with(
        "stream",
        Json::Bool(true),
    ).with("store", Json::Bool(false)).with("reasoning", reasoning).with(
        "max_output_tokens",
        Json::Unsigned(2048),
    ).with("service_tier", Json::string("priority"))
}

/// The request for the model response of a chat turn to `input`.
pub open spec fn chat_request(model: Seq<char>, input: Seq<JsonView>) -> JsonView {
    payload_value(
        model,
        chat_instructions_text(),
        input,
        JsonView::Array(seq![tool_value()]),
    )
}

/// The request for the model response of a chat turn to `input`.
pub fn chat_payload(model: &str, input: &Vec<Json>) -> (r: Json)
    ensures
        r@ == chat_request(model@, items_view(input@)),
{
    let mut tools: Vec<Json> = Vec::new();
    tools.push(exec_tool_def());
    assert(items_view(tools@) =~= seq![tool_value()]);
    round_payload(model, chat_instructions(), input, &Json::Array(tools))
}

/// The line that marks the receipt of a request: its last message.
pub open spec fn receipt(messages: Seq<MessageView>) -> Option<Seq<char>> {
    if messages.len() == 0 {
        None
    } else {
        Some("> "@ + messages.last().content)
    }
}

/// The line that marks the receipt of a request.
pub fn receipt_line(messages: &Vec<Message>) -> (r: Option<String>)
    ensures
        match r {
            Some(line) => receipt(message_views(messages@)) == Some(line@),
            None => receipt(message_views(messages@)) is None,
        },
{
    if messages.is_empty() {
        return None;
    }
    let last = &messages[messages.len() - 1];
    assert(message_views(messages@).last() == last@);
    let mut out = "> ".to_owned();
    out.append(last.content.as_str());
    Some(out)
}

/// A chat request is refused exactly if it comes from another machine, there is
/// no key, or its conversation is not one that is answered; the first of these
/// that holds decides the status.
pub proof fn law_which_requests_are_refused(
    loopback: bool,
    has_key: bool,
    messages: Seq<MessageView>,
)
    ensures
        chat_refused(loopback, has_key, messages) is None <==> loopback && has_key && acceptable(
            messages,
        ),
        chat_refused(loopback, has_key, messages) matches Some(r) ==> r.retry_after is None
            && r.status == if !loopback {
            403u16
        } else if !has_key {
            503u16
        } else {
            400u16
        },
{
}

/// Slashes at the end of the base URL do not matter.
pub proof fn law_endpoint_is_below_the_base(base: Seq<char>)
    ensures
        endpoint_of(Some(base.push('/'))) == endpoint_of(Some(base)),
        base.len() > 0 && base.last() != '/' ==> endpoint_of(Some(base)) == base + "/responses"@,
{
    assert(base.push('/').drop_last() =~= base);
}

/// A request for a response carries the model, the instructions, the input and
/// the tools that it is made of, and asks for a stream that is not stored.
pub proof fn law_request_carries_its_parts(
    model: Seq<char>,
    instructions: Seq<char>,
    input: Seq<JsonView>,
    tools: JsonView,
)
    ensures
        ({
            let request = payload_value(model, instructions, input, tools);
            &&& request.at("model"@) == JsonView::Str(model)
            &&& request.at("instructions"@) == JsonView::Str(instructions)
            &&& request.at("input"@) == JsonView::Array(input)
            &&& request.at("tools"@) == tools
            &&& request.at("stream"@) == JsonView::Bool(true)
            &&& request.at("store"@) == JsonView::Bool(false)
        }),
{
    reveal_strlit("input");
    reveal_strlit("model");
    reveal_strlit("stream");
    reveal_strlit("instructions");
    reveal_strlit("tools");
    reveal_strlit("store");
    reveal_strlit("reasoning");
    reveal_strlit("max_output_tokens");
    reveal_strlit("service_tier");
    assert("input"@.len() == 5 && "model"@.len() == 5 && "stream"@.len() == 6);
    assert("tools"@.len() == 5 && "store"@.len() == 5 && "reasoning"@.len() == 9);
    assert("instructions"@.len() == 12 && "max_output_tokens"@.len() == 17);
    assert("service_tier"@.len() == 12);
    assert("input"@[0] == 'i' && "model"@[0] == 'm' && "tools"@[0] == 't' && "store"@[0] == 's');
    assert("instructions"@[0] == 'i' && "service_tier"@[0] == 's');
}

/// The receipt of a request shows its last message in full.
pub proof fn law_receipt_shows_the_last_message(messages: Seq<MessageView>)
    ensures
        messages.len() == 0 <==> receipt(messages) is None,
        messages.len() > 0 ==> receipt(messages) == Some(
            "> "@ + messages[messages.len() - 1].content,
        ),
{
}

/// What a client is told of an upstream status depends on the status alone;
/// those that are not known are told alike.
pub proof fn law_unknown_statuses_are_told_alike(a: u16, b: u16)
    requires
        a != 400 && a != 401 && a != 403 && a != 404 && a != 429,
        b != 400 && b != 401 && b != 403 && b != 404 && b != 429,
    ensures
        upstream_message(a) == upstream_message(b),
        upstream_message(400) == upstream_message(404),
        upstream_message(a) == "OpenAI returned an error. Please retry."@,
{
}

} // verus!
