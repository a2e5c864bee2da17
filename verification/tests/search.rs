use clipdeck::history::ClipboardItem;
use clipdeck::search::{filter_emoji, prepend_item, search_history, Emoji};

fn item(id: i64, content: &str) -> ClipboardItem {
    ClipboardItem { id, content: content.to_string(), timestamp: id, pinned: false }
}

#[test]
fn empty_query_shows_everything_in_order() {
    let all = vec![item(1, "b"), item(2, "a")];
    let shown: Vec<i64> = search_history(&all, "").iter().map(|i| i.id).collect();
    assert_eq!(shown, vec![1, 2]);
}

#[test]
fn fuzzy_query_keeps_matches_best_first() {
    let all = vec![item(1, "axbycz"), item(2, "nothing"), item(3, "abc")];
    let shown: Vec<i64> = search_history(&all, "abc").iter().map(|i| i.id).collect();
    // "nothing" does not match; the contiguous match scores higher
    assert_eq!(shown, vec![3, 1]);
}

#[test]
fn equal_scores_keep_history_order() {
    let all = vec![item(1, "same"), item(2, "same"), item(3, "same")];
    let shown: Vec<i64> = search_history(&all, "same").iter().map(|i| i.id).collect();
    assert_eq!(shown, vec![1, 2, 3]);
}

#[test]
fn prepend_moves_duplicate_content_to_top() {
    let mut items = vec![item(1, "a"), item(2, "b"), item(3, "a")];
    prepend_item(&mut items, item(9, "a"));
    let ids: Vec<i64> = items.iter().map(|i| i.id).collect();
    assert_eq!(ids, vec![9, 2]);
}

fn emoji(glyph: &str, name: &str, tags: &str) -> Emoji {
    Emoji { glyph: glyph.to_string(), name: name.to_string(), tags: tags.to_string() }
}

#[test]
fn emoji_filter_matches_name_or_tags() {
    let all = vec![
        emoji("😀", "Grinning Face", "smile happy"),
        emoji("🐱", "Cat", "pet animal"),
        emoji("🐶", "Dog", "PET animal"),
    ];
    let names = |v: Vec<Emoji>| v.into_iter().map(|e| e.name).collect::<Vec<_>>();
    assert_eq!(names(filter_emoji(&all, "GRIN")), vec!["Grinning Face"]);
    assert_eq!(names(filter_emoji(&all, "pet")), vec!["Cat", "Dog"]);
    assert_eq!(filter_emoji(&all, "").len(), 3);
    assert!(filter_emoji(&all, "zebra").is_empty());
}

#[test]
fn emoji_filter_matches_characters_in_order() {
    let all = vec![
        emoji("👍", "Thumbs Up", "like approve"),
        emoji("😀", "Grinning Face", "smile happy"),
        emoji("🐱", "Cat", "pet animal"),
    ];
    let names = |v: Vec<Emoji>| v.into_iter().map(|e| e.name).collect::<Vec<_>>();
    assert_eq!(names(filter_emoji(&all, "thmbs")), vec!["Thumbs Up"]);
    assert_eq!(names(filter_emoji(&all, "gface")), vec!["Grinning Face"]);
    assert_eq!(names(filter_emoji(&all, "pml")), vec!["Cat"]);
    // the characters must come in order
    assert!(filter_emoji(&all, "tca").is_empty());
    assert_eq!(names(filter_emoji(&all, "a")), vec!["Thumbs Up", "Grinning Face", "Cat"]);
}
