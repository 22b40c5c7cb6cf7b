use backend_rove::chat::chat_payload;
use backend_rove::json::Json;
use backend_rove::messages::{message_json, Message};
use backend_rove::turn::{command_text, Effect, Turn, TurnAction, TurnEvent};

fn begun() -> Turn {
    let messages = vec![Message { role: "user".to_string(), content: "hi".to_string() }];
    Turn::new("m", &messages)
}

fn started() -> TurnEvent {
    TurnEvent::Started { hedged: false, waited_ms: 5 }
}

fn frame(event: &str) -> Vec<u8> {
    format!("data: {event}\n\n").into_bytes()
}

fn completed(output: &str) -> Vec<u8> {
    frame(&format!("{{\"type\":\"response.completed\",\"response\":{{\"output\":{output}}}}}"))
}

/// What is sent and what is shown, each in a line of its own.
fn told(effects: Vec<Effect>) -> Vec<String> {
    effects
        .into_iter()
        .map(|effect| match effect {
            Effect::Send(bytes) => format!("send {}", String::from_utf8(bytes).unwrap()),
            Effect::Show(line) => format!("show {line}"),
        })
        .collect()
}

fn asked(turn: &Turn) -> String {
    match turn.awaits() {
        TurnAction::Ask(payload) => payload.text(),
        _ => panic!("the turn asks nothing"),
    }
}

const CALL: &str = "{\"type\":\"function_call\",\"call_id\":\"c1\",\"arguments\":\"{\\\"command\\\":\\\"ls\\\"}\"}";

#[test]
fn a_turn_asks_with_the_conversation() {
    let turn = begun();
    let input = vec![message_json(&Message { role: "user".to_string(), content: "hi".to_string() })];
    assert_eq!(asked(&turn), chat_payload("m", &input).text());
}

#[test]
fn an_answer_goes_out_verbatim() {
    let mut turn = begun();
    assert!(told(turn.step(started())).is_empty());
    assert!(matches!(turn.awaits(), TurnAction::Read));
    assert_eq!(told(turn.step(TurnEvent::Tick)), vec!["send : ping\n\n"]);
    let piece = b"event: x\r\ndata: {broken\n\n".to_vec();
    assert_eq!(
        told(turn.step(TurnEvent::Chunk(piece.clone()))),
        vec![format!("send {}", String::from_utf8(piece).unwrap())]
    );
    let end = completed("[]");
    assert_eq!(
        told(turn.step(TurnEvent::Chunk(end.clone()))),
        vec![format!("send {}", String::from_utf8(end).unwrap())]
    );
    assert!(matches!(turn.awaits(), TurnAction::Stop));
    assert!(told(turn.step(TurnEvent::Tick)).is_empty());
    assert!(told(turn.step(TurnEvent::Chunk(vec![1]))).is_empty());
}

#[test]
fn a_hedged_start_is_shown() {
    let mut turn = begun();
    assert_eq!(
        told(turn.step(TurnEvent::Started { hedged: true, waited_ms: 412 })),
        vec!["show ⇄ hedged retry fired (+412ms hedge)"]
    );
}

#[test]
fn a_call_is_run_and_answered() {
    let mut turn = begun();
    turn.step(started());
    let end = completed(&format!("[{{\"type\":\"reasoning\"}},{CALL}]"));
    assert_eq!(
        told(turn.step(TurnEvent::Chunk(end.clone()))),
        vec![
            format!("send {}", String::from_utf8(end).unwrap()),
            "send data: {\"command\":\"ls\",\"type\":\"exec.call\"}\n\n".to_string(),
            "show $ ls".to_string(),
        ]
    );
    assert!(matches!(turn.awaits(), TurnAction::Run(command) if command == "ls"));
    let ran = TurnEvent::Ran { code: -1, output: "out\n".to_string(), ms: 7 };
    assert_eq!(
        told(turn.step(ran)),
        vec![
            "send data: {\"exit\":-1,\"ms\":7,\"type\":\"exec.done\"}\n\n",
            "show [exit -1 · 7ms]",
        ]
    );
    let input = vec![
        Json::parse("{\"type\":\"reasoning\"}").unwrap(),
        Json::parse(CALL).unwrap(),
        Json::parse("{\"type\":\"function_call_output\",\"call_id\":\"c1\",\"output\":\"out\\n\"}").unwrap(),
    ];
    assert_eq!(asked(&turn), chat_payload("m", &input).text());
}

#[test]
fn several_calls_are_run_in_order() {
    let mut turn = begun();
    turn.step(started());
    let second = "{\"type\":\"function_call\",\"call_id\":\"c2\",\"arguments\":\"{\\\"command\\\":\\\"pwd\\\"}\"}";
    let nameless = "{\"type\":\"function_call\",\"arguments\":\"{}\"}";
    turn.step(TurnEvent::Chunk(completed(&format!("[{CALL},{nameless},{second}]"))));
    assert!(matches!(turn.awaits(), TurnAction::Run(command) if command == "ls"));
    let effects = told(turn.step(TurnEvent::Ran { code: 0, output: "a".to_string(), ms: 1 }));
    assert_eq!(effects.len(), 4);
    assert_eq!(effects[3], "show $ pwd");
    assert!(matches!(turn.awaits(), TurnAction::Run(command) if command == "pwd"));
    turn.step(TurnEvent::Ran { code: 0, output: "b".to_string(), ms: 1 });
    let payload = Json::parse(&asked(&turn)).unwrap();
    let input = payload.get("input").unwrap().as_array().unwrap();
    assert_eq!(input.len(), 5);
    assert_eq!(input[3].get_str("call_id"), Some("c1"));
    assert_eq!(input[3].get_str("output"), Some("a"));
    assert_eq!(input[4].get_str("call_id"), Some("c2"));
    assert_eq!(input[4].get_str("output"), Some("b"));
}

#[test]
fn commands_are_read_out_of_arguments() {
    assert_eq!(command_text("{\"command\":\"df -h\"}"), "df -h");
    assert_eq!(command_text("{\"command\":5}"), "");
    assert_eq!(command_text("{}"), "");
    assert_eq!(command_text("nonsense"), "");
}

#[test]
fn an_interrupted_response_ends_the_turn() {
    let mut turn = begun();
    turn.step(started());
    assert_eq!(
        told(turn.step(TurnEvent::Interrupted)),
        vec![
            "show ! upstream stream interrupted",
            "send event: error\ndata: {\"message\":\"Upstream stream interrupted; please retry.\",\"type\":\"error\"}\n\n",
        ]
    );
    assert!(matches!(turn.awaits(), TurnAction::Stop));
}

#[test]
fn a_response_that_ends_early_runs_nothing() {
    let mut turn = begun();
    turn.step(started());
    turn.step(TurnEvent::Chunk(frame(
        "{\"type\":\"response.output_text.delta\",\"delta\":\"Half a\"}",
    )));
    assert_eq!(told(turn.step(TurnEvent::Ended)), vec!["show < Half", "show < a"]);
    assert!(matches!(turn.awaits(), TurnAction::Stop));
}

#[test]
fn a_refused_follow_up_is_told() {
    let mut turn = begun();
    turn.step(started());
    turn.step(TurnEvent::Chunk(completed(&format!("[{CALL}]"))));
    turn.step(TurnEvent::Ran { code: 0, output: String::new(), ms: 1 });
    assert_eq!(
        told(turn.step(TurnEvent::Refused)),
        vec![
            "show ! follow-up model request failed",
            "send event: error\ndata: {\"message\":\"The model request failed. Please try again.\",\"type\":\"error\"}\n\n",
        ]
    );
    assert!(matches!(turn.awaits(), TurnAction::Stop));
}

#[test]
fn tool_chains_are_bounded() {
    let mut turn = begun();
    let mut asks = 0;
    let mut last = Vec::new();
    loop {
        match turn.awaits() {
            TurnAction::Ask(_) => {
                asks += 1;
                last = told(turn.step(started()));
            }
            TurnAction::Read => {
                last = told(turn.step(TurnEvent::Chunk(completed(&format!("[{CALL}]")))));
            }
            TurnAction::Run(_) => {
                last = told(turn.step(TurnEvent::Ran { code: 0, output: String::new(), ms: 1 }));
            }
            TurnAction::Stop => break,
        }
    }
    assert_eq!(asks, 8);
    assert_eq!(
        last[last.len() - 2..],
        [
            "show ! stopped after 8 tool steps".to_string(),
            "send event: error\ndata: {\"message\":\"Stopped after 8 tool steps. Ask in smaller pieces.\",\"type\":\"error\"}\n\n".to_string(),
        ]
    );
}
