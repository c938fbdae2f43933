use cactus::session::confirms;
use cactus::text::{chars_of, is_space_char, starts_with_char, text_eq, trim};

#[test]
fn text_eq_tells_texts_apart() {
    assert!(text_eq("", ""));
    assert!(text_eq("build", "build"));
    assert!(!text_eq("build", "builds"));
    assert!(!text_eq("build", "buile"));
    assert!(!text_eq("build", ""));
    assert!(text_eq("caf\u{e9}", "caf\u{e9}"));
    assert!(!text_eq("caf\u{e9}", "cafe"));
}

#[test]
fn starts_with_char_looks_at_the_first_character_only() {
    assert!(starts_with_char(".git", '.'));
    assert!(starts_with_char(".", '.'));
    assert!(!starts_with_char("", '.'));
    assert!(!starts_with_char("a.b", '.'));
    assert!(starts_with_char("\u{e9}t\u{e9}", '\u{e9}'));
}

#[test]
fn chars_of_gives_every_character() {
    assert_eq!(chars_of("y\u{e9}s"), vec!['y', '\u{e9}', 's']);
    assert_eq!(chars_of(""), Vec::<char>::new());
}

#[test]
fn white_space_is_what_the_standard_library_calls_white_space() {
    for code in 0..=0x10ffffu32 {
        if let Some(c) = char::from_u32(code) {
            assert_eq!(is_space_char(c), c.is_whitespace(), "U+{code:04X}");
        }
    }
}

#[test]
fn trim_agrees_with_the_standard_library() {
    for text in [
        "",
        " ",
        "y",
        "  y",
        "y\n",
        "\t yes \r\n",
        "\u{a0}y e s\u{3000}",
        " \u{2003} ",
        "no",
        "\u{200b}y",
        "a  b",
    ] {
        let expected: Vec<char> = text.trim().chars().collect();
        assert_eq!(trim(text), expected, "{text:?}");
    }
}

#[test]
fn only_y_and_yes_confirm() {
    assert!(confirms("y"));
    assert!(confirms("Y"));
    assert!(confirms("yes"));
    assert!(confirms("y\n"));
    assert!(confirms("  yes\r\n"));
    assert!(confirms("\tY "));
    assert!(!confirms(""));
    assert!(!confirms("\n"));
    assert!(!confirms("n"));
    assert!(!confirms("N"));
    assert!(!confirms("no"));
    assert!(!confirms("Yes"));
    assert!(!confirms("YES"));
    assert!(!confirms("yes!"));
    assert!(!confirms("y es"));
    assert!(!confirms("yy"));
    assert!(!confirms("ye"));
    assert!(!confirms("yep"));
}
