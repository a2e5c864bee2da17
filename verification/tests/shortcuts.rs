use clipdeck::clipboard::{
    message_action, record_capture, record_capture_at, AppMessage, MonitorState, UiAction,
};
use clipdeck::history::ClipboardItem;
use clipdeck::settings::Settings;
use clipdeck::shortcuts::{command_preview, combine_output, shortcut_fields_valid, shortcut_output};
use clipdeck::storage::Storage;

#[test]
fn output_combines_streams() {
    assert_eq!(shortcut_output("out", ""), "out");
    assert_eq!(shortcut_output("", "err"), "err");
    assert_eq!(shortcut_output("out", "err"), "out\nerr");
    assert_eq!(shortcut_output("", ""), "(no output)");
}

#[test]
fn long_output_is_cut_at_2000_characters() {
    let long = "a".repeat(2500);
    let shown = shortcut_output(&long, "");
    assert_eq!(shown, format!("{}\n… (truncated)", "a".repeat(2000)));
    let exact = "b".repeat(2000);
    assert_eq!(shortcut_output(&exact, ""), exact);
    assert_eq!(combine_output(&exact, "c").len(), 2002);
    // characters, not bytes: two-byte characters are kept whole
    let wide = "é".repeat(2001);
    assert_eq!(shortcut_output(&wide, ""), format!("{}\n… (truncated)", "é".repeat(2000)));
    let fits = "é".repeat(2000);
    assert_eq!(shortcut_output(&fits, ""), fits);
}

#[test]
fn command_preview_cuts_at_40_characters() {
    assert_eq!(command_preview("ls -la"), "ls -la");
    let long = "x".repeat(41);
    assert_eq!(command_preview(&long), format!("{}…", "x".repeat(39)));
    assert_eq!(command_preview(&"y".repeat(40)), "y".repeat(40));
}

#[test]
fn shortcut_form_needs_name_and_command() {
    assert!(shortcut_fields_valid("Update", "sudo apt update"));
    assert!(!shortcut_fields_valid("  ", "ls"));
    assert!(!shortcut_fields_valid("x", "\t"));
}

#[test]
fn monitor_skips_empty_repeated_large_and_sensitive_text() {
    let mut settings = Settings::default();
    settings.max_entry_size = 10;
    let mut st = MonitorState::new();
    assert!(!st.observe(&settings, ""));
    assert!(st.observe(&settings, "hello"));
    assert_eq!(st.last_content, "hello");
    assert!(!st.observe(&settings, "hello"));
    assert!(!st.observe(&settings, "this is too long"));
    assert!(!st.observe(&settings, "my Token"));
    assert_eq!(st.last_content, "hello");
    assert!(st.observe(&settings, "world"));
    // the size cap counts UTF-8 bytes: five two-byte characters fit in ten
    assert!(st.observe(&settings, "ééééé"));
    assert!(!st.observe(&settings, "éééééé"));
}

#[test]
fn capture_stores_and_evicts() {
    let mut storage = Storage::new();
    for i in 0..3 {
        let stored = record_capture_at(&mut storage, 2, format!("c{i}"), i).unwrap();
        assert_eq!(stored.id, i + 1);
        assert!(!stored.pinned);
    }
    let rows: Vec<String> = storage.history_rows().iter().map(|r| r.content.clone()).collect();
    assert_eq!(rows, vec!["c1", "c2"]);
}

#[test]
fn capture_now_is_timestamped_by_the_clock() {
    let mut storage = Storage::new();
    let stored = record_capture(&mut storage, 50, "x".to_string()).unwrap();
    assert_eq!(stored.id, 1);
    assert!(stored.timestamp > 1_600_000_000);
    assert_eq!(stored.content, "x");
}

#[test]
fn messages_map_to_window_actions() {
    let item = ClipboardItem { id: 1, content: "x".into(), timestamp: 0, pinned: false };
    assert!(matches!(message_action(AppMessage::NewClipboardItem(item.clone()), true), UiAction::Prepend(i) if i.id == 1));
    assert!(matches!(message_action(AppMessage::NewClipboardItem(item), false), UiAction::Nothing));
    assert!(matches!(message_action(AppMessage::ToggleWindow, false), UiAction::Toggle));
    match message_action(AppMessage::NewVersionAvailable("v0.2.0".into()), false) {
        UiAction::ShowStatus(s) => assert_eq!(s, "Update v0.2.0 found — downloading…"),
        _ => panic!("expected a status"),
    }
    assert!(matches!(message_action(AppMessage::UpdateStatus(String::new()), true), UiAction::HideStatus));
    assert!(matches!(message_action(AppMessage::UpdateStatus("Installing…".into()), true), UiAction::ShowStatus(s) if s == "Installing…"));
}
