use clipdeck::autostart::{service_content, service_path, service_path_for, SERVICE_NAME};
use clipdeck::settings::{contains_any, default_version, Settings};

#[test]
fn default_settings() {
    let s = Settings::default();
    assert_eq!(s.max_history, 50);
    assert_eq!(s.poll_interval_ms, 500);
    assert_eq!(s.max_entry_size, 1_048_576);
    assert_eq!(
        s.ignored_patterns,
        vec!["password", "passwd", "token", "secret", "api_key", "apikey", "private_key"]
    );
    assert_eq!(s.github_repo, "yourusername/clipdeck");
    assert_eq!(s.version, default_version());
    assert_eq!(default_version(), "0.1.0");
}

#[test]
fn sensitive_content_is_detected_case_insensitively() {
    let s = Settings::default();
    assert!(s.is_sensitive("my PASSWORD is hunter2"));
    assert!(s.is_sensitive("Api_Key=abc"));
    assert!(!s.is_sensitive("hello world"));
    assert!(!s.is_sensitive(""));
}

#[test]
fn patterns_are_compared_as_given() {
    let patterns = vec!["Token".to_string()];
    assert!(contains_any("a Token here", &patterns));
    assert!(!contains_any("a token here", &patterns));
    assert!(!contains_any("anything", &Vec::new()));
    assert!(contains_any("anything", &vec![String::new()]));
}

#[test]
fn config_path_joins_components() {
    assert_eq!(Settings::config_path_in(Some("/home/u/.config")), "/home/u/.config/clipdeck/settings.json");
    assert_eq!(Settings::config_path_in(Some("/cfg/")), "/cfg/clipdeck/settings.json");
    assert_eq!(Settings::config_path_in(None), "/tmp/clipdeck/settings.json");
    assert!(Settings::config_path().ends_with("clipdeck/settings.json"));
}

#[test]
fn service_unit_names_the_executable() {
    let unit = service_content("/usr/local/bin/clipdeck");
    assert!(unit.starts_with("[Unit]\nDescription=ClipDeck — clipboard manager & launcher\n"));
    assert!(unit.contains("\nExecStart=/usr/local/bin/clipdeck\nRestart=on-failure\n"));
    assert!(unit.ends_with("[Install]\nWantedBy=graphical-session.target\n"));
}

#[test]
fn service_path_is_under_systemd_user() {
    assert_eq!(service_path_for(Some("/home/u/.config")), "/home/u/.config/systemd/user/clipdeck.service");
    assert_eq!(service_path_for(None), "/tmp/systemd/user/clipdeck.service");
    assert!(service_path().ends_with(&format!("systemd/user/{SERVICE_NAME}")));
}
