use clipdeck::commands::{
    format_window_pos, keycode_for_keysym, lock_pid, parse_window_geometry, parse_window_pos,
    window_id, words_of,
};
use clipdeck::paths::{app_config_dir, window_pos_path};

#[test]
fn first_window_id() {
    assert_eq!(window_id("  12345\n67890\n").as_deref(), Some("12345"));
    assert_eq!(window_id(" \n\t ").as_deref(), None);
}

#[test]
fn words_match_split_whitespace() {
    for s in ["a b", "  a  b  ", "", " ", "one", "x\u{2003}y\nz"] {
        let v: Vec<char> = s.chars().collect();
        let w: Vec<String> = words_of(&v).into_iter().map(|w| w.into_iter().collect()).collect();
        let expected: Vec<String> = s.split_whitespace().map(|x| x.to_string()).collect();
        assert_eq!(w, expected, "{s:?}");
    }
}

#[test]
fn window_position_round_trip() {
    for (x, y) in [(0, 0), (-5, 17), (i32::MIN, i32::MAX), (1920, -1080)] {
        let text = format_window_pos(x, y);
        assert_eq!(text, format!("{x} {y}"));
        assert_eq!(parse_window_pos(&text), Some((x, y)));
    }
}

#[test]
fn window_position_reading() {
    assert_eq!(parse_window_pos("  10   20 30"), Some((10, 20)));
    assert_eq!(parse_window_pos("10"), None);
    assert_eq!(parse_window_pos("10 y"), None);
    assert_eq!(parse_window_pos("+3 -4"), Some((3, -4)));
}

#[test]
fn geometry_from_xdotool_shell_output() {
    let out = "WINDOW=123\nX=100\nY=200\nWIDTH=620\nHEIGHT=520\nSCREEN=0\n";
    assert_eq!(parse_window_geometry(out), Some((100, 200)));
    assert_eq!(parse_window_geometry("X=1\r\nY=2\r\n"), Some((1, 2)));
    assert_eq!(parse_window_geometry("X=1\nY=2\nX=oops\n"), None);
    assert_eq!(parse_window_geometry("X=1"), None);
    assert_eq!(parse_window_geometry("Y=5\nX=-7"), Some((-7, 5)));
    assert_eq!(parse_window_geometry("X=1\nY=2\r"), None);
}

#[test]
fn lock_file_pid() {
    assert_eq!(lock_pid(" 4242\n"), Some(4242));
    assert_eq!(lock_pid("abc"), None);
    assert_eq!(lock_pid(""), None);
}

#[test]
fn keycode_of_first_group_holding_keysym() {
    // two keysyms per keycode, keycodes from 8
    let map = vec![1, 2, 0x76, 0x56, 0x76, 9];
    assert_eq!(keycode_for_keysym(&map, 2, 8, 0x76), Some(9));
    assert_eq!(keycode_for_keysym(&map, 2, 8, 9), Some(10));
    assert_eq!(keycode_for_keysym(&map, 2, 8, 0x41), None);
}

#[test]
fn window_pos_path_shape() {
    if let Some(p) = window_pos_path() {
        assert!(p.ends_with("clipdeck/window_pos"));
    }
}

#[test]
fn app_config_dir_shape() {
    if let Some(p) = app_config_dir() {
        assert!(p.ends_with("/clipdeck"));
    }
}
