use dispatcher::text::{chars_of, is_space, lower_char, spells, trim_bounds};

#[test]
fn white_space_is_what_std_calls_white_space() {
    for code in 0..=0x10ffffu32 {
        if let Some(c) = char::from_u32(code) {
            assert_eq!(is_space(c), c.is_whitespace(), "U+{:04X}", code);
        }
    }
}

#[test]
fn white_space_examples() {
    assert!(is_space(' '));
    assert!(is_space('\t'));
    assert!(is_space('\n'));
    assert!(is_space('\u{a0}'));
    assert!(is_space('\u{3000}'));
    assert!(!is_space('a'));
    assert!(!is_space('\u{200b}'));
    assert!(!is_space('\u{8}'));
    assert!(!is_space('\u{e}'));
}

#[test]
fn lower_char_is_ascii_lower_case() {
    for code in 0..=0x10ffffu32 {
        if let Some(c) = char::from_u32(code) {
            assert_eq!(lower_char(c), c.to_ascii_lowercase(), "U+{:04X}", code);
        }
    }
}

#[test]
fn lower_char_examples() {
    assert_eq!(lower_char('A'), 'a');
    assert_eq!(lower_char('Z'), 'z');
    assert_eq!(lower_char('m'), 'm');
    assert_eq!(lower_char('@'), '@');
    assert_eq!(lower_char('['), '[');
    assert_eq!(lower_char('\u{c9}'), '\u{c9}');
}

#[test]
fn chars_of_gives_every_character() {
    assert_eq!(chars_of("a\u{e9}\u{4f60}!"), vec!['a', '\u{e9}', '\u{4f60}', '!']);
    assert_eq!(chars_of(""), Vec::<char>::new());
}

fn trim(text: &str) -> String {
    let chars = chars_of(text);
    let (from, to) = trim_bounds(&chars);
    chars[from..to].iter().collect()
}

#[test]
fn trim_bounds_cut_white_space_at_both_ends() {
    assert_eq!(trim("  ctrl \n"), "ctrl");
    assert_eq!(trim("ctrl"), "ctrl");
    assert_eq!(trim("\ta b\u{a0}"), "a b");
    assert_eq!(trim(""), "");
    assert_eq!(trim(" \t\r\n"), "");
    assert_eq!(trim("x "), "x");
    assert_eq!(trim(" x"), "x");
}

#[test]
fn trim_bounds_agree_with_std_trim() {
    let samples = [
        "", " ", "a", " a", "a ", " a ", "\u{2003}a b\u{2003}", "\n\n", "\u{85}x\u{85}",
        "no space", " inner  space ", "\u{200b} a \u{200b}",
    ];
    for text in samples {
        assert_eq!(trim(text), text.trim(), "{:?}", text);
    }
}

#[test]
fn trim_bounds_of_all_white_space_are_empty() {
    let chars = chars_of("   ");
    let (from, to) = trim_bounds(&chars);
    assert_eq!(from, to);
}

#[test]
fn spells_compares_the_part_with_the_word() {
    let text = chars_of("  shift ");
    assert!(spells(&text, 2, 7, "shift"));
    assert!(!spells(&text, 2, 7, "shif"));
    assert!(!spells(&text, 2, 7, "shifts"));
    assert!(!spells(&text, 2, 6, "shift"));
    assert!(!spells(&text, 1, 7, "shift"));
    assert!(!spells(&text, 2, 7, "shaft"));
    assert!(spells(&text, 3, 3, ""));
    assert!(!spells(&text, 3, 4, ""));
}
