use dictation::accessibility::{clean_node_text, cursor_text_range, searches_for_focus, visits_for_visible_text, CursorInfo};
use dictation::audio::AudioManager;
use dictation::commands::{ExtensionCommands, MprisCommands};
use dictation::config::{BackendConfig, Config, LlmConfig};
use dictation::doctor::{
    accessibility_check, any_failed, extension_check, inference_check, inference_check_with,
    inference_request_failed, microphone_check, shortcut_check, sound_check, Check, InputDevice, Status,
};
use dictation::shortcut_recorder::accelerator;
use dictation::traits::AudioFormat;

#[test]
fn config_defaults() {
    let c = Config::default();
    match &c.backend {
        BackendConfig::WhisperCpp { url } => assert_eq!(url, "http://localhost:58080"),
    }
    match &c.llm {
        LlmConfig::Ollama { url, model } => {
            assert_eq!(url, "http://localhost:11434");
            assert_eq!(model, "llama3");
        }
    }
}

#[test]
fn accelerator_from_key_presses() {
    assert_eq!(accelerator(true, false, false, false, Some("d")).unwrap(), "<Control>d");
    assert_eq!(accelerator(true, true, true, true, Some("space")).unwrap(), "<Control><Alt><Shift><Super>space");
    assert_eq!(accelerator(false, false, false, false, Some("F9")).unwrap(), "F9");
    assert!(accelerator(false, false, false, false, Some("a")).is_none());
    assert!(accelerator(true, false, false, false, Some("Control_L")).is_none());
    assert!(accelerator(false, false, false, true, Some("Super_R")).is_none());
    assert_eq!(accelerator(false, true, false, false, None).unwrap(), "<Alt>");
    assert!(accelerator(false, false, false, false, None).is_none());
}

#[test]
fn cursor_context_range_and_cleaning() {
    assert_eq!(cursor_text_range(150), Some((50, 150)));
    assert_eq!(cursor_text_range(30), Some((0, 30)));
    assert_eq!(cursor_text_range(0), Some((0, 0)));
    assert_eq!(cursor_text_range(-1), None);
    assert_eq!(clean_node_text("  hello\u{fffc} world \n").unwrap(), "hello world");
    assert_eq!(clean_node_text("\u{fffc} a").unwrap(), " a");
    assert!(clean_node_text(" \u{fffc} ").is_none());
    assert!(clean_node_text("").is_none());
    assert!(visits_for_visible_text(20, false, true));
    assert!(!visits_for_visible_text(21, true, true));
    assert!(!visits_for_visible_text(3, false, false));
    assert!(searches_for_focus(50));
    assert!(!searches_for_focus(51));
    let info = CursorInfo { _offset: 4, text_before: "abcd".to_string() };
    assert_eq!(info.text_before.len(), info._offset as usize);
}

#[test]
fn check_lines_are_coloured_by_status() {
    let c = Check::ok_detail("Config file".to_string(), "/x".to_string());
    assert_eq!(c.render(), "  \x1b[32m\u{2713}\x1b[0m Config file  \x1b[2m/x\x1b[0m");
    assert_eq!(Check::ok("D-Bus session bus".to_string()).render(), "  \x1b[32m\u{2713}\x1b[0m D-Bus session bus");
    assert_eq!(Check::warn("W".to_string(), "d".to_string()).render(), "  \x1b[33m!\x1b[0m W  \x1b[2md\x1b[0m");
    assert_eq!(Check::fail("F".to_string(), "d".to_string()).render(), "  \x1b[31m\u{2717}\x1b[0m F  \x1b[2md\x1b[0m");
    let checks = vec![Check::ok("a".to_string()), Check::warn("b".to_string(), "c".to_string())];
    assert!(!any_failed(&checks));
    let checks = vec![Check::ok("a".to_string()), Check::fail("b".to_string(), "c".to_string())];
    assert!(any_failed(&checks));
}

#[test]
fn doctor_checks_report_what_was_found() {
    let s = shortcut_check("");
    assert!(s.status == Status::Warn);
    assert_eq!(s.detail.unwrap(), "no shortcut configured \u{2014} dictation can only be triggered programmatically");
    assert!(shortcut_check("<Super>d").status == Status::Pass);
    assert!(sound_check("Start sound", None, false).is_none());
    assert!(sound_check("Start sound", Some(""), false).is_none());
    let w = sound_check("Start sound", Some("/a.ogg"), false).unwrap();
    assert!(w.status == Status::Warn);
    assert_eq!(w.detail.unwrap(), "file not found: /a.ogg");
    assert!(sound_check("End sound", Some("/a.ogg"), true).unwrap().status == Status::Pass);
    let m = microphone_check(&InputDevice::Found { name: "mic".to_string(), config: Ok((48000, 2)) });
    assert_eq!(m.detail.unwrap(), "mic  48000Hz  2ch");
    let m = microphone_check(&InputDevice::Found { name: "mic".to_string(), config: Err("busy".to_string()) });
    assert!(m.status == Status::Fail);
    assert_eq!(m.detail.unwrap(), "mic \u{2014} config error: busy");
    assert_eq!(microphone_check(&InputDevice::Missing).detail.unwrap(), "no microphone found");
    let i = inference_check(true, "200 OK", "{\"text\": \"  And so my fellow Americans \"}");
    assert!(i.status == Status::Pass);
    assert_eq!(i.detail.unwrap(), "200 OK  \"And so my fellow Americans\"");
    let i = inference_check(true, "200 OK", "plain body");
    assert_eq!(i.detail.unwrap(), "200 OK  plain body");
    let i = inference_check_with(true, "200 OK", &"b".repeat(100), None);
    assert_eq!(i.detail.unwrap(), format!("200 OK  {}", "b".repeat(80)));
    let i = inference_check(false, "500 Internal Server Error", &"e".repeat(200));
    assert!(i.status == Status::Fail);
    assert_eq!(i.detail.unwrap(), format!("500 Internal Server Error  {}", "e".repeat(120)));
    assert_eq!(inference_request_failed("refused").detail.unwrap(), "request failed: refused");
    assert_eq!(
        extension_check(Some(":1.42")).detail.unwrap(),
        "com.timcharper.dictation.Extension is running (:1.42)"
    );
    assert!(extension_check(None).status == Status::Fail);
    assert_eq!(accessibility_check(Ok(true)).label, "Accessibility framework enabled");
    assert!(accessibility_check(Ok(false)).status == Status::Warn);
    assert_eq!(accessibility_check(Err("no bus".to_string())).detail.unwrap(), "could not query status: no bus");
}

#[test]
fn plain_types() {
    let f = AudioFormat { sample_rate: 16000, channels: 1 };
    let g = f;
    assert_eq!(g.sample_rate, 16000);
    let _m = AudioManager::new();
    let cmd = ExtensionCommands::Type { text: "x".to_string() };
    assert!(matches!(cmd, ExtensionCommands::Type { .. }));
    assert!(matches!(MprisCommands::Status, MprisCommands::Status));
}
