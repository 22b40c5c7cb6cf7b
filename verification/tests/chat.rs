use backend_rove::chat::{
    busy, chat_instructions, chat_payload, chat_refusal, endpoint, error_body, exec_tool_def,
    receipt_line, refuse, round_payload, unreachable_model, upstream_refusal, usable_key,
};
use backend_rove::json::Json;
use backend_rove::messages::{are_sound, fits, is_acceptable, message_json, Message};
use backend_rove::{MAX_BYTES, MAX_MESSAGES};

const REFUSED: &str = "Send 1–21 user/assistant messages, up to 24 KB, ending with a user message.";

fn said(role: &str, content: &str) -> Message {
    Message { role: role.to_string(), content: content.to_string() }
}

fn canon(text: &str) -> String {
    Json::parse(text).unwrap().text()
}

#[test]
fn a_request_without_a_key_is_refused_first() {
    let refusal = chat_refusal(true, false, &Vec::new()).unwrap();
    assert_eq!(refusal.status, 503);
    assert_eq!(refusal.message, "OPENAI_API_KEY is not configured on the server.");
    assert_eq!(refusal.retry_after, None);
}

#[test]
fn other_machines_are_refused() {
    let refusal = chat_refusal(false, true, &vec![said("user", "x")]).unwrap();
    assert_eq!(refusal.status, 403);
    assert_eq!(refusal.message, "Only loopback clients are served.");
}

#[test]
fn unacceptable_messages_are_refused() {
    let bad = vec![
        vec![],
        vec![said("system", "x"), said("user", "y")],
        vec![said("user", " \n")],
        vec![said("assistant", "x")],
        vec![said("user", &"x".repeat(MAX_BYTES + 1))],
        (0..MAX_MESSAGES + 1).map(|_| said("user", "x")).collect(),
    ];
    for messages in bad {
        assert!(!is_acceptable(&messages));
        let refusal = chat_refusal(true, true, &messages).unwrap();
        assert_eq!(refusal.status, 400);
        assert_eq!(refusal.message, REFUSED);
    }
}

#[test]
fn acceptable_messages_reach_the_limits() {
    let full: Vec<Message> = (0..MAX_MESSAGES).map(|_| said("user", "x")).collect();
    assert!(chat_refusal(true, true, &full).is_none());
    let long = vec![said("assistant", "x"), said("user", &"é".repeat(MAX_BYTES / 2 - 1))];
    assert!(chat_refusal(true, true, &long).is_none());
    assert!(fits(&long, MAX_BYTES));
    assert!(!fits(&long, MAX_BYTES - 2));
    assert!(are_sound(&long));
    assert!(are_sound(&Vec::new()));
    assert!(!are_sound(&vec![said("user", "\u{a0}")]));
}

#[test]
fn a_busy_server_says_when_to_retry() {
    let refusal = busy();
    assert_eq!(refusal.status, 429);
    assert_eq!(refusal.message, "The server is busy. Try again shortly.");
    assert_eq!(refusal.retry_after, Some(2));
    assert_eq!(
        error_body("The server is busy. Try again shortly.").text(),
        "{\"error\":\"The server is busy. Try again shortly.\"}"
    );
    let other = refuse(418, "no");
    assert_eq!((other.status, other.message.as_str(), other.retry_after), (418, "no", None));
}

#[test]
fn errors_of_the_model_service_are_not_forwarded() {
    assert_eq!(unreachable_model().status, 502);
    assert_eq!(unreachable_model().message, "Cannot reach OpenAI. Please retry.");
    let expected = [
        (401, "OpenAI rejected the server API key."),
        (403, "OpenAI denied access. Check model access and organization verification for reasoning summaries."),
        (429, "OpenAI quota or rate limit reached. Check API billing or retry later."),
        (400, "OpenAI rejected the model or request settings. Check server configuration."),
        (404, "OpenAI rejected the model or request settings. Check server configuration."),
        (500, "OpenAI returned an error. Please retry."),
    ];
    for (status, message) in expected {
        let refusal = upstream_refusal(status);
        assert_eq!(refusal.status, 502);
        assert_eq!(refusal.message, message);
    }
}

#[test]
fn the_endpoint_is_below_the_base() {
    assert_eq!(endpoint(None), "https://api.openai.com/v1/responses");
    assert_eq!(endpoint(Some("http://x/v1//")), "http://x/v1/responses");
    assert_eq!(endpoint(Some("")), "/responses");
}

#[test]
fn an_empty_key_is_none() {
    assert_eq!(usable_key(None), None);
    assert_eq!(usable_key(Some(String::new())), None);
    assert_eq!(usable_key(Some("k".to_string())), Some("k".to_string()));
}

#[test]
fn the_tool_is_declared() {
    let expected = "{\"type\":\"function\",\"name\":\"run_command\",\"description\":\"Run a shell command on the server with sh -c as an unprivileged user. 30 second timeout, output truncated past ~12KB. Prefer read-only probing (ls, cat, df, uname, systemctl status) before changing anything, and report what each command showed.\",\"parameters\":{\"type\":\"object\",\"properties\":{\"command\":{\"type\":\"string\",\"description\":\"Shell command to run on the server\"}},\"required\":[\"command\"],\"additionalProperties\":false}}";
    assert_eq!(exec_tool_def().text(), canon(expected));
}

#[test]
fn a_round_asks_for_a_stream() {
    let input = vec![message_json(&said("user", "hi"))];
    let payload = round_payload("m", "be brief", &input, &Json::Array(Vec::new()));
    assert_eq!(
        payload.text(),
        canon("{\"model\":\"m\",\"instructions\":\"be brief\",\"input\":[{\"role\":\"user\",\"content\":\"hi\"}],\"tools\":[],\"stream\":true,\"store\":false,\"reasoning\":{\"effort\":\"low\",\"summary\":\"auto\"},\"max_output_tokens\":2048,\"service_tier\":\"priority\"}")
    );
    let whole = chat_payload("m", &input);
    assert_eq!(
        whole.get_str("instructions"),
        Some("You are Rove, a terse assistant with a run_command tool for operating this server (30s limit). Probe read-only first. Be concise.")
    );
    assert_eq!(whole.get_str("instructions"), Some(chat_instructions()));
    let tools = whole.get("tools").unwrap().as_array().unwrap();
    assert_eq!(tools.len(), 1);
    assert_eq!(tools[0].text(), exec_tool_def().text());
}

#[test]
fn the_last_message_is_shown_on_receipt() {
    assert_eq!(receipt_line(&Vec::new()), None);
    assert_eq!(
        receipt_line(&vec![said("user", "a"), said("user", "b")]),
        Some("> b".to_string())
    );
}
