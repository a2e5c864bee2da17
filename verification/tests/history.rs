use clipdeck::history::ClipboardItem;
use clipdeck::numbers::{format_i64, format_u64, parse_i32, parse_u64};

fn item(content: &str, timestamp: i64) -> ClipboardItem {
    ClipboardItem { id: 1, content: content.to_string(), timestamp, pinned: false }
}

#[test]
fn preview_trims_white_space() {
    assert_eq!(item("  hello \n\t", 0).preview(), "hello");
    assert_eq!(item("\u{3000}wide\u{a0}", 0).preview(), "wide");
    assert_eq!(item("   ", 0).preview(), "");
}

#[test]
fn preview_cuts_long_text_at_80_characters() {
    let exact: String = "é".repeat(80);
    assert_eq!(item(&exact, 0).preview(), exact);
    let long: String = "x".repeat(81);
    let p = item(&long, 0).preview();
    assert_eq!(p.chars().count(), 80);
    assert_eq!(p, format!("{}…", "x".repeat(79)));
}

#[test]
fn relative_time_labels() {
    let it = item("a", 1_000_000);
    assert_eq!(it.relative_time_at(1_000_000), "just now");
    assert_eq!(it.relative_time_at(1_000_059), "just now");
    assert_eq!(it.relative_time_at(1_000_060), "1 min ago");
    assert_eq!(it.relative_time_at(1_003_599), "59 min ago");
    assert_eq!(it.relative_time_at(1_003_600), "1 hr ago");
    assert_eq!(it.relative_time_at(1_086_399), "23 hr ago");
    assert_eq!(it.relative_time_at(1_086_400), "1 days ago");
    assert_eq!(it.relative_time_at(1_000_000 + 3 * 86_400 + 5), "3 days ago");
    // a timestamp in the future
    assert_eq!(it.relative_time_at(999_999), "0 days ago");
    assert_eq!(it.relative_time_at(1_000_000 - 2 * 86_400), "-2 days ago");
}

#[test]
fn relative_time_uses_the_clock() {
    let it = item("a", 0);
    assert!(it.relative_time().ends_with("days ago"));
    let now = chrono::Utc::now().timestamp();
    assert_eq!(item("a", now).relative_time(), "just now");
}

#[test]
fn integers_format_like_to_string() {
    for n in [0u64, 7, 10, 99, 100, 12345, u64::MAX] {
        assert_eq!(format_u64(n), n.to_string());
    }
    for n in [0i64, -1, 9, -10, 123, i64::MIN, i64::MAX] {
        assert_eq!(format_i64(n), n.to_string());
    }
}

#[test]
fn integers_parse_like_str_parse() {
    let cases = ["0", "+12", "-12", "12a", "", "+", "-", "2147483647", "2147483648", "-2147483648", "-2147483649", " 1", "007"];
    for c in cases {
        let v: Vec<char> = c.chars().collect();
        assert_eq!(parse_i32(&v), c.parse::<i32>().ok(), "{c}");
        assert_eq!(parse_u64(&v), c.parse::<u64>().ok(), "{c}");
    }
}
