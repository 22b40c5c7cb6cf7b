use backend_rove::feed::{flush_tap_lines, render_tap_event, sentence_end, soft_cut, TapFeed};
use backend_rove::json::Json;
use backend_rove::SseDecoder;
use std::time::Instant;

#[test]
fn sentence_boundaries() {
    // Punctuation + space ends a sentence; decimals and abbreviations don't.
    assert_eq!(sentence_end("Hi there. How are you?"), Some(9));
    assert_eq!(sentence_end("Pi is 3.5 today"), None);
    assert_eq!(sentence_end("Hi."), Some(3));
    assert_eq!(sentence_end("no punctuation"), None);
    // Long fragments cut at a space, never mid-character.
    let long = "word ".repeat(50);
    let cut = soft_cut(&long);
    assert!(cut <= 160 && long.is_char_boundary(cut));
    assert!(long[..cut].ends_with(' '));
}

#[test]
fn sentences_end_at_byte_offsets() {
    assert_eq!(sentence_end("é! ok"), Some(3));
    assert_eq!(sentence_end("what?!"), Some(6));
    assert_eq!(sentence_end("what?! yes"), Some(6));
    assert_eq!(sentence_end("a.b.c. d"), Some(6));
    assert_eq!(sentence_end("end.\u{3000}next"), Some(4));
    assert_eq!(sentence_end(""), None);
}

#[test]
fn cuts_fall_on_characters() {
    // The window is 160 characters, whatever they take in bytes.
    assert_eq!(soft_cut(&"x".repeat(200)), 160);
    assert_eq!(soft_cut(&"é".repeat(100)), 200);
    assert_eq!(soft_cut(&"é".repeat(200)), 320);
    let spaced = "é".repeat(100) + " " + &"é".repeat(100);
    assert_eq!(soft_cut(&spaced), 201);
    assert_eq!(soft_cut("short one"), 6);
    assert_eq!(soft_cut("short"), 5);
    assert_eq!(soft_cut(" x"), 1);
    assert_eq!(soft_cut(""), 1);
}

#[test]
fn sentences_become_lines() {
    let mut buf = "  One. Two! And".to_string();
    assert_eq!(flush_tap_lines(&mut buf, false), vec!["< One.", "< Two!"]);
    assert_eq!(buf, "And");
    buf.push_str(" three");
    assert_eq!(flush_tap_lines(&mut buf, false), Vec::<String>::new());
    assert_eq!(buf, "And three");
    assert_eq!(flush_tap_lines(&mut buf, true), vec!["< And", "< three"]);
    assert_eq!(buf, "");
    let mut blank = " \n ".to_string();
    assert_eq!(flush_tap_lines(&mut blank, true), Vec::<String>::new());
    assert_eq!(blank, "");
}

#[test]
fn long_fragments_are_cut_without_force() {
    let mut buf = "word ".repeat(40);
    let lines = flush_tap_lines(&mut buf, false);
    assert_eq!(lines, vec![format!("< {}", "word ".repeat(32).trim())]);
    assert_eq!(buf, "word ".repeat(8));
}

#[test]
fn flushing_loses_only_whitespace() {
    let text = "A first one. Then 3.5 more!\n\nAnd é🙂 the rest, at some length, without an end";
    let mut buf = text.to_string();
    let mut lines = flush_tap_lines(&mut buf, false);
    lines.extend(flush_tap_lines(&mut buf, true));
    let kept: String = lines
        .iter()
        .flat_map(|l| l.chars().skip(2))
        .filter(|c| !c.is_whitespace())
        .collect();
    let all: String = text.chars().filter(|c| !c.is_whitespace()).collect();
    assert_eq!(kept, all);
}

fn rendered(text: &str) -> Option<String> {
    render_tap_event(&Json::parse(text).unwrap())
}

#[test]
fn events_are_rendered_or_left_out() {
    assert_eq!(
        rendered("{\"type\":\"response.created\",\"response\":{\"model\":\"gpt-x\"}}"),
        Some("· gpt-x thinking…".to_string())
    );
    assert_eq!(
        rendered("{\"type\":\"response.created\",\"response\":{\"model\":5}}"),
        Some("· AI thinking…".to_string())
    );
    assert_eq!(rendered("{\"type\":\"response.created\",\"response\":{}}"), None);
    assert_eq!(rendered("{\"type\":\"response.created\"}"), None);
    assert_eq!(
        rendered("{\"type\":\"response.incomplete\"}"),
        Some("! stopped early (output limit)".to_string())
    );
    assert_eq!(
        rendered("{\"type\":\"response.failed\"}"),
        Some("! model run failed".to_string())
    );
    assert_eq!(
        rendered("{\"type\":\"error\",\"message\":\"no\"}"),
        Some("! no".to_string())
    );
    assert_eq!(
        rendered("{\"type\":\"error\",\"message\":1}"),
        Some("! stream failed".to_string())
    );
    assert_eq!(rendered("{\"type\":\"response.in_progress\"}"), None);
    assert_eq!(rendered("{\"type\":1}"), None);
    assert_eq!(rendered("[]"), None);
}

#[test]
fn payloads_are_shown_at_their_time() {
    let mut feed = TapFeed::new(Instant::now());
    let mut items: Vec<Json> = Vec::new();
    let mut completed = false;
    let mut take = |data: &str, ms: u128| feed.take_payload(data, &mut items, &mut completed, ms);
    assert_eq!(
        take("{\"type\":\"response.reasoning_summary_text.delta\",\"delta\":\" mm \"}", 1),
        Vec::<String>::new()
    );
    assert_eq!(
        take("{\"type\":\"response.reasoning_summary_text.done\"}", 2),
        vec!["~ mm"]
    );
    assert_eq!(
        take("{\"type\":\"response.reasoning_summary_text.done\"}", 3),
        Vec::<String>::new()
    );
    assert_eq!(
        take("{\"type\":\"response.output_text.delta\",\"delta\":\"Hi. Y\"}", 40),
        vec!["· first answer +40ms after receipt", "< Hi."]
    );
    assert_eq!(
        take("{\"type\":\"response.refusal.delta\",\"delta\":\"ou\"}", 50),
        Vec::<String>::new()
    );
    assert_eq!(take("[DONE]", 60), Vec::<String>::new());
    assert_eq!(take("{broken", 60), Vec::<String>::new());
    assert_eq!(
        take("{\"type\":\"error\",\"message\":\"x\"}", 60),
        vec!["< ! x"]
    );
    assert_eq!(
        take(
            "{\"type\":\"response.completed\",\"response\":{\"output\":[{\"type\":\"m\"}],\"usage\":{\"input_tokens\":12}}}",
            70
        ),
        vec!["< You", "✓ done · 12 in / ? out · 70ms server"]
    );
    assert!(completed);
    assert_eq!(items.len(), 1);
    assert_eq!(items[0].get_str("type"), Some("m"));
}

#[test]
fn chunks_feed_the_tap() {
    let mut feed = TapFeed::new(Instant::now());
    let mut decoder = SseDecoder::default();
    let mut items: Vec<Json> = Vec::new();
    let mut completed = false;
    let lines = feed.feed(
        &mut decoder,
        b"data: {\"type\":\"response.output_text.delta\",\"delta\":\"Yes. No\"}\n\ndata: {\"ty",
        &mut items,
        &mut completed,
    );
    assert_eq!(lines.len(), 2);
    assert!(lines[0].starts_with("· first answer +"));
    assert_eq!(lines[1], "< Yes.");
    assert!(!completed);
    let lines = feed.feed(
        &mut decoder,
        b"pe\":\"response.completed\"}\n\n",
        &mut items,
        &mut completed,
    );
    assert_eq!(lines, vec!["< No"]);
    assert!(completed);
    assert!(items.is_empty());
    // A chunk that cannot be decoded shows nothing.
    let lines = feed.feed(&mut decoder, b"data: \xff\n\n", &mut items, &mut completed);
    assert!(lines.is_empty());
    assert!(feed.finish().is_empty());
}
