use iso_dungeon::log::{GameLog, GameMessage, LOG_LINES, MAX_LOG_SIZE};

fn log_with_ts(msgs: &[(&str, f32)]) -> GameLog<f32> {
    let mut log = GameLog::new();
    for &(m, t) in msgs {
        log.push(m, t);
    }
    log
}

fn log_with(msgs: &[&str]) -> GameLog<f32> {
    log_with_ts(&msgs.iter().map(|&m| (m, 0.0_f32)).collect::<Vec<_>>())
}

#[test]
fn empty_log_returns_blank_lines() {
    let log: GameLog<f32> = GameLog::new();
    let entries = log.visible_entries(0.0);
    assert!(entries.iter().all(|(t, _)| t.is_empty()));
}

#[test]
fn single_message_appears_at_bottom() {
    let log = log_with(&["hello"]);
    let e = log.visible_entries(0.0);
    assert_eq!(e[LOG_LINES - 1].0, "hello");
    assert!(e[..LOG_LINES - 1].iter().all(|(t, _)| t.is_empty()));
}

#[test]
fn five_messages_fill_all_lines() {
    let log = log_with(&["a", "b", "c", "d", "e"]);
    let e = log.visible_entries(0.0);
    let texts: Vec<&str> = e.iter().map(|&(t, _)| t).collect();
    assert_eq!(texts, vec!["a", "b", "c", "d", "e"]);
}

#[test]
fn sixth_message_pushes_first_off_top() {
    let log = log_with(&["a", "b", "c", "d", "e", "f"]);
    let e = log.visible_entries(0.0);
    assert_eq!(e[0].0, "b");
    assert_eq!(e[LOG_LINES - 1].0, "f");
}

#[test]
fn new_message_resets_scroll_to_bottom() {
    let mut log = log_with(&["a", "b", "c", "d", "e", "f"]);
    log.scroll_up();
    assert_eq!(log.scroll_offset(), 1);
    log.push("g", 0.0);
    assert_eq!(log.scroll_offset(), 0);
    assert_eq!(log.visible_entries(0.0)[LOG_LINES - 1].0, "g");
}

#[test]
fn scroll_up_reveals_older_messages() {
    let mut log = log_with(&["a", "b", "c", "d", "e", "f"]);
    log.scroll_up();
    let e = log.visible_entries(0.0);
    assert_eq!(e[0].0, "a");
    assert_eq!(e[LOG_LINES - 1].0, "e");
}

#[test]
fn scroll_cannot_exceed_max() {
    let log = log_with(&["x"]);
    assert_eq!(log.max_scroll(), 0);
}

#[test]
fn log_capped_at_max_size() {
    let mut log: GameLog<f32> = GameLog::new();
    for i in 0..MAX_LOG_SIZE + 5 {
        log.push(&format!("msg {i}"), 0.0);
    }
    assert_eq!(log.len(), MAX_LOG_SIZE);
}

#[test]
fn timestamps_preserved_in_visible_entries() {
    let log = log_with_ts(&[("a", 1.0), ("b", 2.0), ("c", 3.0)]);
    let e = log.visible_entries(0.0);
    assert_eq!(e[LOG_LINES - 3].1, 1.0);
    assert_eq!(e[LOG_LINES - 2].1, 2.0);
    assert_eq!(e[LOG_LINES - 1].1, 3.0);
}

// ── Additional checks ───────────────────────────────────────────────────────

#[test]
fn scroll_up_stops_at_max_and_down_stops_at_zero() {
    let mut log = log_with(&["1", "2", "3", "4", "5", "6", "7"]);
    assert_eq!(log.max_scroll(), 2);
    log.scroll_up();
    log.scroll_up();
    log.scroll_up();
    assert_eq!(log.scroll_offset(), 2);
    let e = log.visible_entries(0.0);
    assert_eq!(e[0].0, "1");
    assert_eq!(e[4].0, "5");
    log.scroll_down();
    log.scroll_down();
    log.scroll_down();
    assert_eq!(log.scroll_offset(), 0);
    assert_eq!(log.visible_entries(0.0)[4].0, "7");
}

#[test]
fn oldest_message_dropped_when_full() {
    let mut log: GameLog<u32> = GameLog::new();
    for i in 0..(MAX_LOG_SIZE as u32 + 1) {
        log.push(&format!("m{i}"), i);
    }
    assert_eq!(log.len(), MAX_LOG_SIZE);
    let e = log.visible_entries(999);
    assert_eq!(e[4], ("m100", 100));
    assert_eq!(e[0], ("m96", 96));
}

#[test]
fn blank_lines_carry_the_blank_timestamp() {
    let log = log_with_ts(&[("only", 7.0)]);
    let e = log.visible_entries(-1.0);
    assert_eq!(e[0], ("", -1.0));
    assert_eq!(e[4], ("only", 7.0));
}

#[test]
fn game_message_constructors() {
    let m = GameMessage::new("You found a key.");
    assert_eq!(m.text, "You found a key.");
    assert!(!m.alert);
    let a = GameMessage::alert("The dungeon shakes!");
    assert_eq!(a.text, "The dungeon shakes!");
    assert!(a.alert);
}

#[test]
fn scroll_up_then_down_restores_view() {
    let mut log: GameLog<f32> = GameLog::new();
    for (i, m) in ["a", "b", "c", "d", "e", "f", "g"].iter().enumerate() {
        log.push(m, i as f32);
    }
    let before: Vec<String> = log.visible_entries(0.0).iter().map(|(t, _)| t.to_string()).collect();
    log.scroll_up();
    assert_eq!(log.scroll_offset(), 1);
    log.scroll_down();
    assert_eq!(log.scroll_offset(), 0);
    let after: Vec<String> = log.visible_entries(0.0).iter().map(|(t, _)| t.to_string()).collect();
    assert_eq!(before, after);
    // At the top, scrolling up stops; one line down then one up returns there.
    log.scroll_up();
    log.scroll_up();
    log.scroll_up();
    assert_eq!(log.scroll_offset(), log.max_scroll());
    log.scroll_down();
    log.scroll_up();
    assert_eq!(log.scroll_offset(), 2);
}
