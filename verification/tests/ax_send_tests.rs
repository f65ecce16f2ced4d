use std::time::Duration;

use openkakao_cli::ax_send::{
    OPEN_CHAT_TIMEOUT_MS, RETURN_KEYCODE, VERIFY_POLL_INTERVAL_MS, VERIFY_TIMEOUT_MS,
};

#[test]
fn open_chat_timeout_is_bounded_and_shorter_than_verify_timeout() {
    let open_chat_timeout = Duration::from_millis(OPEN_CHAT_TIMEOUT_MS);
    let verify_timeout = Duration::from_millis(VERIFY_TIMEOUT_MS);
    assert!(open_chat_timeout < verify_timeout);
    assert!(open_chat_timeout.as_secs() > 0);
}

#[test]
fn verify_poll_interval_is_smaller_than_timeout() {
    let verify_poll_interval = Duration::from_millis(VERIFY_POLL_INTERVAL_MS);
    let verify_timeout = Duration::from_millis(VERIFY_TIMEOUT_MS);
    assert!(verify_poll_interval < verify_timeout);
}

#[test]
fn return_keycode_matches_macos_carbon_constant() {
    // kVK_Return from Carbon HIToolbox/Events.h.
    assert_eq!(RETURN_KEYCODE, 36);
}

use openkakao_cli::ax_send::{
    chatrooms_tab_to_press, find_by_identifier, find_by_title, keep_last, match_chat_row,
    message_from_row, message_visible, pick_composer_area, pid_from_pgrep_output, poll_step,
    return_key_events, message_row_text, utf16_per_char, AxMessage, ChatMatch, PollStep, ScrollAreaShape,
};

fn some(s: &str) -> Option<String> {
    Some(s.to_string())
}

#[test]
fn empty_list_is_not_found() {
    assert_eq!(match_chat_row(&[], "Alice"), ChatMatch::NotFound);
}

#[test]
fn single_exact_match_is_found() {
    assert_eq!(match_chat_row(&[some("Alice")], "Alice"), ChatMatch::Found(0));
}

#[test]
fn substring_does_not_match() {
    assert_eq!(match_chat_row(&[some("Alice & Bob")], "Alice"), ChatMatch::NotFound);
}

#[test]
fn exact_match_among_non_matching_rows() {
    let names = [some("Alice & Bob"), some("Alice"), some("Carol")];
    assert_eq!(match_chat_row(&names, "Alice"), ChatMatch::Found(1));
}

#[test]
fn duplicate_names_are_ambiguous() {
    let names = [some("Alice"), some("Alice"), some("Bob"), some("Alice")];
    assert_eq!(match_chat_row(&names, "Alice"), ChatMatch::Ambiguous(3));
}

#[test]
fn unreadable_rows_are_ignored_not_matched() {
    let names = [None, some("Alice"), None];
    assert_eq!(match_chat_row(&names, "Alice"), ChatMatch::Found(1));
}

#[test]
fn matching_is_case_and_space_sensitive() {
    let names = [some("alice"), some(" Alice")];
    assert_eq!(match_chat_row(&names, "Alice"), ChatMatch::NotFound);
}

#[test]
fn pid_from_first_pgrep_line() {
    assert_eq!(pid_from_pgrep_output("1234\n5678\n"), Some(1234));
    assert_eq!(pid_from_pgrep_output("  42  \r\n"), Some(42));
    assert_eq!(pid_from_pgrep_output(""), None);
    assert_eq!(pid_from_pgrep_output("\n77\n"), None);
    assert_eq!(pid_from_pgrep_output("abc\n"), None);
}

#[test]
fn identifier_and_title_lookup() {
    let ids = [None, some("Sidebar"), some("Main Window"), some("Main Window")];
    assert_eq!(find_by_identifier(&ids, "Main Window"), Some(2));
    assert_eq!(find_by_identifier(&ids, "Main"), None);
    let titles = [some("Bob"), None, some("Chat with Alice Kim")];
    assert_eq!(find_by_title(&titles, "Alice"), Some(2));
    assert_eq!(find_by_title(&titles, "Carol"), None);
}

#[test]
fn chatrooms_tab_only_when_no_table() {
    let buttons = [some("friends"), some("chatrooms")];
    assert_eq!(chatrooms_tab_to_press(1, &buttons), None);
    assert_eq!(chatrooms_tab_to_press(0, &buttons), Some(1));
    assert_eq!(chatrooms_tab_to_press(0, &[some("friends")]), None);
}

#[test]
fn composer_is_the_area_without_a_table() {
    let areas = [
        ScrollAreaShape { has_table: true, has_text_area: true },
        ScrollAreaShape { has_table: false, has_text_area: false },
        ScrollAreaShape { has_table: false, has_text_area: true },
    ];
    assert_eq!(pick_composer_area(&areas), Some(2));
    assert_eq!(pick_composer_area(&areas[..2]), None);
}

fn msg(t: &str) -> AxMessage {
    AxMessage { time: None, text: t.to_string() }
}

#[test]
fn keep_last_returns_the_newest() {
    let all = vec![msg("a"), msg("b"), msg("c"), msg("d")];
    let last: Vec<String> = keep_last(all.clone(), 2).into_iter().map(|m| m.text).collect();
    assert_eq!(last, vec!["c", "d"]);
    assert_eq!(keep_last(all.clone(), 10).len(), 4);
    assert!(keep_last(all, 0).is_empty());
}

#[test]
fn rows_become_messages() {
    let m = message_from_row(some("hello"), some("2026. 6. 17."), some("14:32")).unwrap();
    assert_eq!(m.text, "hello");
    assert_eq!(m.time.as_deref(), Some("2026. 6. 17."));
    let m = message_from_row(some("hi"), None, some("14:32")).unwrap();
    assert_eq!(m.time.as_deref(), Some("14:32"));
    assert!(message_from_row(None, some("x"), some("y")).is_none());
}

#[test]
fn sent_message_is_seen_only_exactly() {
    let windows = vec![vec!["hello there".to_string()], vec!["ok".to_string(), "hello".to_string()]];
    assert!(message_visible(&windows, "hello"));
    assert!(!message_visible(&windows, "hell"));
    assert!(!message_visible(&[], "hello"));
}

#[test]
fn polling_decisions() {
    assert_eq!(poll_step(true, 99_999, 10, 400), PollStep::Done);
    assert_eq!(poll_step(false, 10_000, 10_000, 400), PollStep::GiveUp);
    assert_eq!(poll_step(false, 9_999, 10_000, 400), PollStep::Wait(400));
}

#[test]
fn typed_text_is_utf16() {
    for s in ["hello", "안녕하세요", "emoji 😀", ""] {
        let per_char = utf16_per_char(s);
        assert_eq!(per_char.len(), s.chars().count());
        for (units, c) in per_char.iter().zip(s.chars()) {
            let mut buf = [0u16; 2];
            assert_eq!(units.as_slice(), c.encode_utf16(&mut buf));
        }
        assert_eq!(per_char.concat(), s.encode_utf16().collect::<Vec<u16>>());
    }
    assert_eq!(utf16_per_char("😀"), vec![vec![0xd83d, 0xde00]]);
}

#[test]
fn return_is_pressed_then_released() {
    assert_eq!(return_key_events(), vec![(36, true), (36, false)]);
}

#[test]
fn rows_without_text_get_placeholders() {
    assert_eq!(message_row_text(Some("hi".to_string()), true, &[]), Some("hi".to_string()));
    assert_eq!(message_row_text(None, true, &[]), Some("[사진]".to_string()));
    let buttons = vec![None, Some("저장".to_string()), Some("공유".to_string())];
    assert_eq!(message_row_text(None, false, &buttons), Some("[파일]".to_string()));
    assert_eq!(message_row_text(None, false, &[Some("저장".to_string()), None]), None);
    assert_eq!(message_row_text(None, false, &[]), None);
}
