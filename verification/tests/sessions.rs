use backend_rove::sessions::{
    blank, blank_at, evicted, file_kind, fits_file, linked_id, load, load_path, new_id, path_for,
    prune_due, prune_file, save, session_refusal, tmp_for, unknown_session, valid_id, FileKind,
    Pruning, SessionMessage, SessionTurn, MAX_FILE_BYTES, MAX_SESSIONS, MAX_SESSION_MESSAGES,
    MAX_TURNS,
};

#[test]
fn accepts_safe_ids_only() {
    assert!(valid_id("abc-123_XYZ"));
    assert!(!valid_id(""));
    assert!(!valid_id("../evil"));
    assert!(!valid_id("a/b"));
    assert!(!valid_id(&"x".repeat(65)));
}

fn turns(n: usize) -> Vec<SessionTurn> {
    (0..n)
        .map(|i| {
            let mut turn = SessionTurn::default();
            turn.server_ms = i as u64;
            turn
        })
        .collect()
}

#[test]
fn ids_reach_the_limit() {
    assert!(valid_id(&"x".repeat(64)));
    assert!(!valid_id("é"));
    assert!(!valid_id("a b"));
    assert!(!valid_id("a.json"));
}

#[test]
fn files_are_named_after_the_session() {
    assert_eq!(path_for("abc"), "abc.json");
    assert_eq!(tmp_for("abc"), ".abc.tmp");
    assert_eq!(load_path("abc"), Some("abc.json".to_string()));
    assert_eq!(load_path("../abc"), None);
    assert_eq!(file_kind(&path_for("abc")), FileKind::Session);
    assert_eq!(file_kind(&tmp_for("abc")), FileKind::Leftover);
    assert_eq!(file_kind(".json"), FileKind::Other);
    assert_eq!(file_kind("..json"), FileKind::Session);
    assert_eq!(file_kind("x.tmp"), FileKind::Other);
    assert_eq!(file_kind("notes.txt"), FileKind::Other);
}

#[test]
fn new_ids_are_hexadecimal() {
    let bytes = [0u8, 1, 15, 16, 255, 0xab, 0xcd, 0xef, 9, 8, 7, 6, 5, 4, 3, 2];
    let id = new_id(Some(bytes), 7);
    assert_eq!(id, "00010f10ffabcdef0908070605040302");
    assert!(valid_id(&id));
    assert_eq!(new_id(None, 0xbeef), "fb000000000000beef");
    assert_eq!(new_id(None, u64::MAX), "fbffffffffffffffff");
    assert!(valid_id(&new_id(None, 0)));
}

#[test]
fn a_new_session_is_blank() {
    let session = blank_at("abc".to_string(), 5);
    assert_eq!(session.id, "abc");
    assert_eq!(session.updated_unix_ms, 5);
    assert!(session.messages.is_empty());
    assert!(session.turns.is_empty());
    assert!(blank("x".to_string()).updated_unix_ms > 1_577_836_800_000);
    let turn = SessionTurn::default();
    assert_eq!(turn.transcript, "");
    assert_eq!(turn.answer, "");
    assert_eq!(turn.asr_model, "");
    assert_eq!(turn.chat_model, "");
    assert_eq!(turn.input_tokens, None);
    assert_eq!(turn.output_tokens, None);
    assert_eq!(turn.server_ms, 0);
    assert_eq!(turn.asr_ms, None);
    assert_eq!(turn.llm_first_ms, None);
}

#[test]
fn only_a_session_under_its_own_name_is_loaded() {
    let stored = || Some(blank_at("abc".to_string(), 5));
    assert_eq!(load("abc", 10, stored()).unwrap().id, "abc");
    assert!(load("abd", 10, stored()).is_none());
    assert!(load("abc", 10, None).is_none());
    assert!(load("abc", MAX_FILE_BYTES, stored()).is_some());
    assert!(load("abc", MAX_FILE_BYTES + 1, stored()).is_none());
    assert!(load("a/b", 10, Some(blank_at("a/b".to_string(), 5))).is_none());
    assert!(fits_file(MAX_FILE_BYTES));
    assert!(!fits_file(MAX_FILE_BYTES + 1));
}

#[test]
fn a_saved_session_is_stamped_and_cut() {
    let mut session = blank_at("abc".to_string(), 5);
    session.turns = turns(MAX_TURNS + 3);
    session.messages = (0..MAX_SESSION_MESSAGES + 2)
        .map(|i| SessionMessage { role: "user".to_string(), content: i.to_string() })
        .collect();
    assert!(save(&mut session, 99));
    assert_eq!(session.updated_unix_ms, 99);
    assert_eq!(session.turns.len(), MAX_TURNS);
    assert_eq!(session.turns[0].server_ms, 3);
    assert_eq!(session.messages.len(), MAX_SESSION_MESSAGES);
    assert_eq!(session.messages[0].content, "2");
    assert!(load("abc", 10, Some(session)).is_some());
}

#[test]
fn a_session_with_a_bad_id_is_not_saved() {
    let mut session = blank_at("a b".to_string(), 5);
    session.turns = turns(MAX_TURNS + 3);
    assert!(!save(&mut session, 99));
    assert_eq!(session.updated_unix_ms, 5);
    assert_eq!(session.turns.len(), MAX_TURNS + 3);
}

#[test]
fn pruning_goes_by_name_and_age() {
    assert!(prune_due(40));
    assert!(!prune_due(41));
    assert_eq!(prune_file(".abc.tmp", 3600), Pruning::Ignore);
    assert_eq!(prune_file(".abc.tmp", 3601), Pruning::Remove);
    assert_eq!(prune_file("abc.json", 604_800), Pruning::Keep);
    assert_eq!(prune_file("abc.json", 604_801), Pruning::Remove);
    assert_eq!(prune_file("notes.txt", u64::MAX), Pruning::Ignore);
}

#[test]
fn the_oldest_sessions_are_evicted() {
    let few: Vec<u64> = (0..MAX_SESSIONS as u64).collect();
    assert_eq!(evicted(&few), Vec::<usize>::new());
    let mut ages = few.clone();
    ages.push(1000);
    ages.push(50);
    // The oldest first, and of two of one age the one that was listed first.
    assert_eq!(evicted(&ages), vec![200, 199]);
    let same = vec![7u64; MAX_SESSIONS + 2];
    assert_eq!(evicted(&same), vec![0, 1]);
}

#[test]
fn links_are_served_to_this_machine_only() {
    assert!(session_refusal(true).is_none());
    let refusal = session_refusal(false).unwrap();
    assert_eq!(refusal.status, 403);
    assert_eq!(refusal.message, "Open the resume link over HTTPS instead.");
    assert_eq!(linked_id(" abc\n"), "abc");
    assert_eq!(unknown_session().status, 404);
    assert_eq!(unknown_session().message, "Unknown or expired session link.");
}
