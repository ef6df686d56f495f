use deck_catalog::names::{
    chars_of, distinct_names, first_repeat, has_suffix, join_lines, position_of,
};
use deck_catalog::order::comes_first;
use deck_catalog::theme::{is_theme, list_theme_names, theme_names};

fn s(text: &str) -> String {
    text.to_string()
}

fn list(items: &[&str]) -> Vec<String> {
    items.iter().map(|item| item.to_string()).collect()
}

#[test]
fn theme_listing_keeps_theme_files_only() {
    let entries = list(&["a.json", "b.json", "notes.txt"]);
    assert_eq!(list_theme_names(&entries), list(&["a.json", "b.json"]));
    assert_eq!(theme_names(&entries), "a.json\nb.json\n");
}

#[test]
fn theme_listing_keeps_the_order_of_the_entries() {
    let entries = list(&["z.json", "readme.md", "a.json", "m.json"]);
    assert_eq!(list_theme_names(&entries), list(&["z.json", "a.json", "m.json"]));
    assert_eq!(theme_names(&entries), "z.json\na.json\nm.json\n");
}

#[test]
fn theme_listing_of_nothing_is_empty() {
    assert_eq!(list_theme_names(&list(&[])), list(&[]));
    assert_eq!(theme_names(&list(&[])), "");
    assert_eq!(theme_names(&list(&["notes.txt"])), "");
}

#[test]
fn theme_extension_must_end_the_name() {
    assert!(is_theme("a.json"));
    assert!(is_theme(".json"));
    assert!(is_theme("a.b.json"));
    assert!(!is_theme("a.json.bak"));
    assert!(!is_theme("a.jso"));
    assert!(!is_theme("json"));
    assert!(!is_theme("a.JSON"));
    assert!(!is_theme(""));
    assert!(is_theme("th\u{e8}me.json"));
}

#[test]
fn suffix_test_is_exact() {
    assert!(has_suffix("hello", "llo"));
    assert!(has_suffix("hello", ""));
    assert!(has_suffix("hello", "hello"));
    assert!(!has_suffix("hello", "xhello"));
    assert!(!has_suffix("hello", "hell"));
    assert!(has_suffix("", ""));
    assert!(!has_suffix("", "a"));
}

#[test]
fn position_is_the_first_match() {
    let names = list(&["a", "b", "a", "c"]);
    assert_eq!(position_of(&names, "a"), Some(0));
    assert_eq!(position_of(&names, "b"), Some(1));
    assert_eq!(position_of(&names, "c"), Some(3));
    assert_eq!(position_of(&names, "d"), None);
    assert_eq!(position_of(&names, "A"), None);
    assert_eq!(position_of(&list(&[]), "a"), None);
}

#[test]
fn first_repeat_is_the_earliest_second_occurrence() {
    assert_eq!(first_repeat(&list(&["a", "b", "c"])), None);
    assert_eq!(first_repeat(&list(&[])), None);
    assert_eq!(first_repeat(&list(&["a", "a"])), Some(1));
    assert_eq!(first_repeat(&list(&["a", "b", "c", "b", "a"])), Some(3));
    assert_eq!(first_repeat(&list(&["a", "b", "a", "b"])), Some(2));
}

#[test]
fn distinct_names_keep_first_occurrences() {
    assert_eq!(distinct_names(&list(&["x", "y", "x", "z", "y"])), list(&["x", "y", "z"]));
    assert_eq!(distinct_names(&list(&["x", "x", "x"])), list(&["x"]));
    assert_eq!(distinct_names(&list(&[])), list(&[]));
}

#[test]
fn lines_end_with_a_line_feed_each() {
    assert_eq!(join_lines(&list(&["Sample", "Openings"])), s("Sample\nOpenings\n"));
    assert_eq!(join_lines(&list(&["one"])), s("one\n"));
    assert_eq!(join_lines(&list(&[])), s(""));
    assert_eq!(join_lines(&list(&["", ""])), s("\n\n"));
}

#[test]
fn characters_come_in_order() {
    assert_eq!(chars_of("a/b"), vec!['a', '/', 'b']);
    assert_eq!(chars_of("\u{e9}t\u{e9}"), vec!['\u{e9}', 't', '\u{e9}']);
    assert_eq!(chars_of(""), Vec::<char>::new());
}

#[test]
fn names_are_ordered_character_by_character() {
    assert!(comes_first("", ""));
    assert!(comes_first("", "a"));
    assert!(!comes_first("a", ""));
    assert!(comes_first("a", "a"));
    assert!(comes_first("a", "ab"));
    assert!(!comes_first("ab", "a"));
    assert!(comes_first("ab", "b"));
    assert!(comes_first("B", "a"));
    assert!(!comes_first("a", "B"));
    assert!(comes_first("z", "\u{e9}"));
    assert!(!comes_first("\u{e9}", "z"));
    let samples = ["", "a", "A", "ab", "b", "\u{e9}", "\u{1f600}", "zz", "a\u{e9}"];
    for a in samples {
        for b in samples {
            assert_eq!(comes_first(a, b), a <= b);
        }
    }
}
