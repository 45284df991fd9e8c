use dictation::daemon::{
    daemon_menu_items, extension_vanished, is_blacklisted, is_stale_context, menu_action,
    next_retry_delay, no_space_before_chars, remaining_delay, should_pause, should_read_context,
    should_resume, sleep_action, text_to_type, DictationSession, MenuAction, SleepAction,
    INITIAL_RETRY_SECS,
};
use dictation::history::{clock, HistoryEntry, HistoryManager, Timestamp};
use dictation::mpris::{array_first_string, extract_track_id, string_field, MetaValue, Metadata, PlayerState};
use dictation::traits::TranscriptionResult;
use std::collections::VecDeque;

fn ts(unix_seconds: i64, utc_offset_seconds: i32) -> Timestamp {
    Timestamp { unix_seconds, nanos: 0, utc_offset_seconds }
}

fn result(text: &str, is_final: bool) -> Result<TranscriptionResult, String> {
    Ok(TranscriptionResult { text: text.to_string(), is_final })
}

#[test]
fn space_is_prepended_unless_the_cursor_follows_an_opener() {
    assert_eq!(text_to_type("hello", Some("I said")), " hello");
    assert_eq!(text_to_type("hello", Some("I said ")), "hello");
    assert_eq!(text_to_type("hello", Some("(")), "hello");
    assert_eq!(text_to_type("hello", Some("costs \u{20ac}")), "hello");
    assert_eq!(text_to_type("hello", Some("")), "hello");
    assert_eq!(text_to_type("hello", None), "hello");
    assert_eq!(no_space_before_chars().len(), 18);
    assert!(no_space_before_chars().contains(&'\u{a3}'));
}

#[test]
fn session_keeps_the_last_final_or_non_empty_text() {
    let mut s = DictationSession::new(Some("word".to_string()), "#FF0000".to_string());
    assert!(s.text_to_type().is_none());
    s.on_transcription(result("partial", false));
    s.on_transcription(result("", false));
    assert_eq!(s.full_text(), "partial");
    s.on_transcription(Err("lost".to_string()));
    assert_eq!(s.full_text(), "partial");
    s.on_transcription(result("final text", true));
    assert_eq!(s.text_to_type().unwrap(), " final text");
    s.on_transcription(result("", true));
    assert_eq!(s.full_text(), "");
    assert!(s.text_to_type().is_none());
}

#[test]
fn speaking_changes_update_the_tray_once() {
    let mut s = DictationSession::new(None, "#FF0000".to_string());
    assert!(s.on_speaking(false).is_none());
    let (icon, color) = s.on_speaking(true).unwrap();
    assert_eq!(icon, "audio-input-microphone-high-symbolic");
    assert_eq!(color, "#00FF00");
    assert!(s.on_speaking(true).is_none());
    let (icon, color) = s.on_speaking(false).unwrap();
    assert_eq!(icon, "media-record-symbolic");
    assert_eq!(color, "#FF0000");
}

#[test]
fn typing_waits_for_the_rest_of_the_delay() {
    assert_eq!(remaining_delay(100, 300), Some(200));
    assert_eq!(remaining_delay(300, 300), None);
    assert_eq!(remaining_delay(500, 300), None);
}

#[test]
fn retry_delay_doubles_up_to_thirty_seconds_then_reconnects() {
    let mut d = INITIAL_RETRY_SECS;
    let mut seen = Vec::new();
    loop {
        let (next, reconnect) = next_retry_delay(d);
        seen.push(next);
        d = next;
        if reconnect {
            break;
        }
    }
    assert_eq!(seen, vec![4, 8, 16, 30]);
    assert_eq!(next_retry_delay(30), (30, true));
}

fn history_with(texts: &[&str]) -> HistoryManager {
    let mut h = HistoryManager::load(None);
    for (i, t) in texts.iter().enumerate() {
        assert!(h.add_entry_at(t.to_string(), ts(3600 * i as i64, 0)));
    }
    h
}

#[test]
fn history_keeps_ten_newest_and_ignores_blank_text() {
    let mut h = HistoryManager::load(None);
    assert!(!h.add_entry("   \n".to_string()));
    assert!(h.entries.is_empty());
    for i in 0..12 {
        assert!(h.add_entry_at(format!("entry {}", i), ts(i, 0)));
    }
    assert_eq!(h.entries.len(), 10);
    assert_eq!(h.entries[0].text, "entry 11");
    assert_eq!(h.entries[9].text, "entry 2");
    assert!(h.add_entry("now".to_string()));
    assert_eq!(h.entries.len(), 10);
    assert_eq!(h.entries[0].text, "now");
    assert_eq!(h.entries[1].text, "entry 11");
}

#[test]
fn history_load_keeps_saved_entries() {
    let mut saved = VecDeque::new();
    saved.push_back(HistoryEntry { text: "old".to_string(), timestamp: ts(0, 0) });
    let h = HistoryManager::load(Some(saved));
    assert_eq!(h.entries.len(), 1);
    assert_eq!(h.entries[0].text, "old");
}

#[test]
fn clock_shows_local_hours_and_minutes() {
    assert_eq!(clock(&ts(0, 0)).iter().collect::<String>(), "00:00");
    assert_eq!(clock(&ts(0, 3600)).iter().collect::<String>(), "01:00");
    assert_eq!(clock(&ts(-60, 0)).iter().collect::<String>(), "23:59");
    assert_eq!(clock(&ts(1_700_000_000, -5 * 3600)).iter().collect::<String>(), "17:13");
}

#[test]
fn menu_items_label_each_dictation() {
    let h = history_with(&["short", "a dictation that is longer than twenty characters"]);
    let items = h.menu_items();
    assert_eq!(items.len(), 2);
    assert_eq!(items[0], ("history_0".to_string(), "01:00 - \"a dictation that is ...\"".to_string()));
    assert_eq!(items[1], ("history_1".to_string(), "00:00 - \"short\"".to_string()));
    let all = daemon_menu_items(&h);
    assert_eq!(all.len(), 3);
    assert_eq!(all[0], ("settings".to_string(), "Settings".to_string()));
    assert_eq!(all[2].0, "history_1");
}

#[test]
fn menu_clicks_do_what_the_items_show() {
    let h = history_with(&["first", "second"]);
    assert!(matches!(menu_action("settings", &h), MenuAction::OpenSettings));
    match menu_action("history_0", &h) {
        MenuAction::CopyToClipboard(t) => assert_eq!(t, "second"),
        _ => panic!("expected a copy"),
    }
    match menu_action("history_+1", &h) {
        MenuAction::CopyToClipboard(t) => assert_eq!(t, "first"),
        _ => panic!("expected a copy"),
    }
    assert!(matches!(menu_action("history_2", &h), MenuAction::Ignore));
    assert!(matches!(menu_action("history_", &h), MenuAction::Ignore));
    assert!(matches!(menu_action("history_x", &h), MenuAction::Ignore));
    assert!(matches!(menu_action("history_99999999999999999999999", &h), MenuAction::Ignore));
    assert!(matches!(menu_action("quit", &h), MenuAction::Ignore));
    for (i, (id, _)) in h.menu_items().iter().enumerate() {
        match menu_action(id, &h) {
            MenuAction::CopyToClipboard(t) => assert_eq!(t, h.entries[i].text),
            _ => panic!("menu id does not copy its entry"),
        }
    }
}

#[test]
fn context_is_read_only_in_the_same_unlisted_window() {
    assert!(is_stale_context(Some("firefox"), "gedit"));
    assert!(!is_stale_context(Some("gedit"), "gedit"));
    assert!(!is_stale_context(None, "gedit"));
    let blacklist = vec!["^kitty$".to_string(), "(".to_string(), "pass".to_string()];
    assert!(is_blacklisted(&blacklist, "kitty"));
    assert!(is_blacklisted(&blacklist, "keepassxc"));
    assert!(!is_blacklisted(&blacklist, "kitty2"));
    assert!(!is_blacklisted(&blacklist, ""));
    assert!(!is_blacklisted(&vec![".*".to_string()], ""));
    assert!(should_read_context(Some("gedit"), "gedit", &blacklist));
    assert!(!should_read_context(Some("gedit"), "kitty", &blacklist));
    assert!(!should_read_context(None, "kitty", &blacklist));
}

#[test]
fn players_are_paused_when_playing_and_resumed_on_the_same_track() {
    assert!(should_pause("Playing"));
    assert!(!should_pause("Paused"));
    let p = PlayerState { service: "org.mpris.MediaPlayer2.vlc".to_string(), track_id: "t1".to_string() };
    assert!(should_resume("Paused", "t1", &p));
    assert!(!should_resume("Paused", "t2", &p));
    assert!(!should_resume("Playing", "t1", &p));
    assert!(extension_vanished("com.timcharper.dictation.Extension", false));
    assert!(!extension_vanished("com.timcharper.dictation.Extension", true));
    assert!(!extension_vanished("org.other", false));
}

fn meta(entries: Vec<(&str, MetaValue)>) -> Metadata {
    let mut m = Metadata::new();
    for (k, v) in entries {
        m.insert(k.to_string(), v);
    }
    m
}

#[test]
fn track_id_prefers_the_mpris_id() {
    let m = meta(vec![
        ("xesam:title", MetaValue::Str("Song".to_string())),
        ("mpris:trackid", MetaValue::Str("/org/track/1".to_string())),
    ]);
    assert_eq!(extract_track_id(&m), "/org/track/1");
    let m = meta(vec![
        ("mpris:trackid", MetaValue::Str("/org/mpris/MediaPlayer2/TrackList/NoTrack".to_string())),
        ("xesam:title", MetaValue::Str("Song".to_string())),
        ("xesam:artist", MetaValue::StrList(vec!["Band".to_string(), "Guest".to_string()])),
    ]);
    assert_eq!(extract_track_id(&m), "Song|Band");
    assert_eq!(string_field(&m, "xesam:artist"), "");
    assert_eq!(array_first_string(&m, "xesam:title"), "");
    let m = meta(vec![("mpris:trackid", MetaValue::Other)]);
    assert_eq!(extract_track_id(&m), "|");
}

#[test]
fn sleep_drops_a_running_dictation_and_wake_reconnects() {
    assert!(matches!(sleep_action(true, true), SleepAction::DiscardRecording));
    assert!(matches!(sleep_action(true, false), SleepAction::Nothing));
    assert!(matches!(sleep_action(false, true), SleepAction::Reconnect));
    assert!(matches!(sleep_action(false, false), SleepAction::Reconnect));
}

#[test]
fn metadata_keeps_each_key_once() {
    let mut m = Metadata::new();
    m.insert("xesam:title".to_string(), MetaValue::Str("Old".to_string()));
    m.insert("xesam:title".to_string(), MetaValue::Str("New".to_string()));
    assert_eq!(string_field(&m, "xesam:title"), "New");
}
