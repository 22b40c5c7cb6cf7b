use backend_rove::client::{
    base_plan, base_url, read_input, refused_text, tunnel_base, Base, History, Input, Reply,
    MAX_INPUT,
};
use backend_rove::messages::{is_acceptable, Message};

#[test]
fn the_server_is_the_first_argument() {
    let plan = base_plan(Some("http://localhost:3000//"), Some("other"));
    assert!(matches!(&plan, Base::Given(base) if base == "http://localhost:3000"));
    assert_eq!(base_url(plan, 4000), "http://localhost:3000");
}

#[test]
fn without_an_argument_there_is_a_tunnel() {
    let plan = base_plan(None, None);
    assert!(matches!(&plan, Base::Tunnel { host } if host == "rove"));
    assert_eq!(base_url(plan, 40123), "http://127.0.0.1:40123");
    let plan = base_plan(None, Some("other-host"));
    assert!(matches!(&plan, Base::Tunnel { host } if host == "other-host"));
    assert_eq!(tunnel_base(7), "http://127.0.0.1:7");
}

#[test]
fn typed_lines_have_a_meaning() {
    assert!(matches!(read_input("/exit\n"), Input::Quit));
    assert!(matches!(read_input("  /quit "), Input::Quit));
    assert!(matches!(read_input("/new\r\n"), Input::New));
    assert!(matches!(read_input(" \t\n"), Input::Nothing));
    assert!(matches!(read_input(" hello \n"), Input::Say(text) if text == "hello"));
    assert!(matches!(read_input("/exit now"), Input::Say(text) if text == "/exit now"));
    assert!(matches!(read_input(&"x".repeat(MAX_INPUT)), Input::Say(_)));
    assert!(matches!(read_input(&"x".repeat(MAX_INPUT + 1)), Input::TooLong));
}

fn sent(history: &History) -> Vec<Message> {
    let request = history.request();
    request
        .get("messages")
        .unwrap()
        .as_array()
        .unwrap()
        .iter()
        .map(|m| Message {
            role: m.get_str("role").unwrap().to_string(),
            content: m.get_str("content").unwrap().to_string(),
        })
        .collect()
}

#[test]
fn a_conversation_alternates() {
    let mut history = History::new();
    assert!(!history.say("a".to_string()));
    assert_eq!(
        history.request().text(),
        "{\"messages\":[{\"content\":\"a\",\"role\":\"user\"}]}"
    );
    history.answered("b".to_string());
    assert!(!history.say("c".to_string()));
    let messages = sent(&history);
    let roles: Vec<&str> = messages.iter().map(|m| m.role.as_str()).collect();
    assert_eq!(roles, vec!["user", "assistant", "user"]);
    history.clear();
    assert_eq!(history.request().text(), "{\"messages\":[]}");
}

#[test]
fn a_failed_message_is_not_kept() {
    let mut history = History::new();
    history.say("a".to_string());
    history.answered("b".to_string());
    history.say("lost".to_string());
    history.failed();
    history.say("c".to_string());
    let contents: Vec<String> = sent(&history).into_iter().map(|m| m.content).collect();
    assert_eq!(contents, vec!["a", "b", "c"]);
}

#[test]
fn a_blank_answer_is_not_kept() {
    let mut history = History::new();
    history.say("a".to_string());
    history.answered("b".to_string());
    history.say("c".to_string());
    history.answered("\n".to_string());
    history.say("hi".to_string());
    let messages = sent(&history);
    let contents: Vec<&str> = messages.iter().map(|m| m.content.as_str()).collect();
    assert_eq!(contents, vec!["a", "b", "hi"]);
    assert!(is_acceptable(&messages));
}

#[test]
fn the_oldest_exchanges_go_first() {
    let mut history = History::new();
    for i in 0..10 {
        assert!(!history.say(format!("q{i}")));
        history.answered(format!("a{i}"));
    }
    assert!(!history.say("q10".to_string()));
    assert_eq!(sent(&history).len(), 21);
    history.answered("a10".to_string());
    assert!(history.say("q11".to_string()));
    let messages = sent(&history);
    assert_eq!(messages.len(), 21);
    assert_eq!(messages[0].content, "q1");
    assert!(is_acceptable(&messages));
}

#[test]
fn long_exchanges_make_room() {
    let mut history = History::new();
    history.say("x".repeat(16_000));
    history.answered("y".repeat(9_000));
    assert!(history.say("short".to_string()));
    let messages = sent(&history);
    assert_eq!(messages.len(), 1);
    assert_eq!(messages[0].content, "short");
    assert!(is_acceptable(&messages));
}

#[test]
fn refusals_are_told_with_their_status() {
    assert_eq!(
        refused_text("400 Bad Request", b"{\"error\":\"too long\"}"),
        "400 Bad Request: too long"
    );
    assert_eq!(refused_text("502 Bad Gateway", b"<html>"), "502 Bad Gateway: Request failed");
    assert_eq!(refused_text("500", b"{\"error\":1}"), "500: Request failed");
}

fn printed(reply: &mut Reply, event: &str) -> String {
    let (text, error) = reply.take_chunk(format!("data: {event}\n\n").as_bytes());
    assert_eq!(error, None);
    text
}

fn error_of(event: &str) -> String {
    let mut reply = Reply::new();
    let (text, error) = reply.take_chunk(format!("data: {event}\n\n").as_bytes());
    assert_eq!(text, "");
    error.unwrap()
}

#[test]
fn a_reply_is_printed_as_it_comes() {
    let mut reply = Reply::new();
    assert_eq!(
        printed(&mut reply, "{\"type\":\"response.created\",\"response\":{\"model\":\"gpt-x\"}}"),
        "gpt-x · generating...\n"
    );
    assert_eq!(
        printed(&mut reply, "{\"type\":\"response.created\"}"),
        "AI · generating...\n"
    );
    assert_eq!(
        printed(&mut reply, "{\"type\":\"response.reasoning_summary_text.delta\",\"delta\":\"mm\"}"),
        "\nReasoning summary\nmm"
    );
    assert_eq!(
        printed(&mut reply, "{\"type\":\"response.reasoning_summary_text.delta\",\"delta\":\"hm\"}"),
        "hm"
    );
    assert_eq!(
        printed(&mut reply, "{\"type\":\"response.reasoning_summary_text.done\"}"),
        "\n"
    );
    assert_eq!(
        printed(&mut reply, "{\"type\":\"response.output_text.delta\",\"delta\":\"Hel\"}"),
        "\nAI\nHel"
    );
    assert_eq!(
        printed(&mut reply, "{\"type\":\"response.refusal.delta\",\"delta\":\"lo\"}"),
        "lo"
    );
    assert_eq!(
        printed(&mut reply, "{\"type\":\"exec.call\",\"command\":\"ls\"}"),
        "\n$ ls\n"
    );
    assert_eq!(
        printed(&mut reply, "{\"type\":\"exec.done\",\"exit\":3,\"ms\":12}"),
        "[exit 3 · 12ms]\n"
    );
    assert_eq!(printed(&mut reply, "{\"type\":\"exec.done\"}"), "[exit -1 · 0ms]\n");
    assert_eq!(printed(&mut reply, "[DONE]"), "");
    assert_eq!(printed(&mut reply, "{\"type\":\"other\"}"), "");
    assert_eq!(
        printed(
            &mut reply,
            "{\"type\":\"response.completed\",\"response\":{\"usage\":{\"input_tokens\":4}}}"
        ),
        "\n\n[4 input · null output tokens, including reasoning]\n\n"
    );
    assert_eq!(reply.finish(), Ok("Hello".to_string()));
}

#[test]
fn failures_end_a_reply() {
    assert_eq!(
        error_of("{\"type\":\"response.incomplete\",\"response\":{\"incomplete_details\":{\"reason\":\"max_output_tokens\"}}}"),
        "Response stopped early: max_output_tokens. Ask a shorter question or increase the server token limit."
    );
    assert_eq!(
        error_of("{\"type\":\"response.incomplete\"}"),
        "Response stopped early: unknown reason. Ask a shorter question or increase the server token limit."
    );
    let failed = "AI stream failed. Check API billing or retry; the partial answer was not saved to history.";
    assert_eq!(error_of("{\"type\":\"response.failed\"}"), failed);
    assert_eq!(error_of("{\"type\":\"error\",\"message\":\"x\"}"), failed);
    assert!(!error_of("{broken").is_empty());
    let mut reply = Reply::new();
    let (_, error) = reply.take_chunk(b"data: \xff\n\n");
    assert_eq!(error, Some("Invalid UTF-8 in SSE stream".to_string()));
}

#[test]
fn an_unfinished_reply_is_an_error() {
    let mut reply = Reply::new();
    printed(&mut reply, "{\"type\":\"response.output_text.delta\",\"delta\":\"Hel\"}");
    assert_eq!(
        reply.finish(),
        Err("Connection ended before completion. Please retry; partial output was not saved.".to_string())
    );
    let mut reply = Reply::new();
    printed(&mut reply, "{\"type\":\"response.completed\"}");
    assert_eq!(
        reply.finish(),
        Err("No answer was returned. Please retry with a shorter question.".to_string())
    );
}

#[test]
fn what_comes_before_an_error_is_printed() {
    let mut reply = Reply::new();
    let (text, error) = reply.take_chunk(
        b"data: {\"type\":\"response.output_text.delta\",\"delta\":\"Hel\"}\n\ndata: {\"type\":\"error\"}\n\n",
    );
    assert_eq!(text, "\nAI\nHel");
    assert!(error.is_some());
}
