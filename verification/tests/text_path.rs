use extended_search::path::{push_component, split_path};
use extended_search::text::{text_eq, text_is_blank, text_le};

#[test]
fn text_order_is_that_of_str() {
    let samples = ["", "a", "ab", "b", "B", "é", "z", "\u{7f}", "\u{80}", "\u{ffff}", "𐀀", "a𐀀", "aé"];
    for left in samples {
        for right in samples {
            assert_eq!(text_le(left, right), left <= right, "{:?} {:?}", left, right);
            assert_eq!(text_eq(left, right), left == right, "{:?} {:?}", left, right);
        }
    }
}

#[test]
fn text_order_puts_a_beginning_before_the_whole() {
    assert!(text_le("abc", "abcd"));
    assert!(!text_le("abcd", "abc"));
    assert!(text_le("abc", "abc"));
    assert!(text_le("", ""));
}

#[test]
fn blank_text_is_white_space_only() {
    assert!(text_is_blank(""));
    assert!(text_is_blank(" \t\r\n\u{0b}\u{0c}"));
    assert!(text_is_blank("\u{85}\u{a0}\u{1680}\u{2000}\u{200a}\u{2028}\u{2029}\u{202f}\u{205f}\u{3000}"));
    assert!(!text_is_blank(" a "));
    assert!(!text_is_blank("\u{200b}"));
    assert!(!text_is_blank("\u{180e}"));
    assert!(!text_is_blank("\u{08}"));
    assert!(!text_is_blank("\u{0e}"));
    for code in 0u32..0x3100 {
        if let Some(c) = char::from_u32(code) {
            assert_eq!(text_is_blank(&c.to_string()), c.is_whitespace(), "{:x}", code);
        }
    }
}

#[test]
fn path_is_cut_at_its_separators() {
    assert_eq!(split_path("/a/x/y.txt"), vec!["a", "x", "y.txt"]);
    assert_eq!(split_path("a/x"), vec!["a", "x"]);
    assert_eq!(split_path("//a///x//"), vec!["a", "x"]);
    assert_eq!(split_path("/"), Vec::<String>::new());
    assert_eq!(split_path(""), Vec::<String>::new());
    assert_eq!(split_path("name"), vec!["name"]);
    assert_eq!(split_path("/é/𐀀 b/.c"), vec!["é", "𐀀 b", ".c"]);
    assert_eq!(split_path("C:\\a\\b"), vec!["C:\\a\\b"]);
}

#[test]
fn component_is_joined_with_one_separator() {
    let joined = |base: &str, name: &str| {
        let mut path = base.to_string();
        push_component(&mut path, name);
        path
    };
    assert_eq!(joined("/a", "b"), "/a/b");
    assert_eq!(joined("/a/", "b"), "/a/b");
    assert_eq!(joined("/", "b"), "/b");
    assert_eq!(joined("", "b"), "b");
    assert_eq!(joined("a", ""), "a/");
    assert_eq!(joined("/a/é", "𐀀"), "/a/é/𐀀");
}
