use disactivity::text::{
    byte_len, chars_of, contains_text, count_either, eq_ignore_ascii_case, is_white_space, joined,
    parse_u32, replace_char, same_text, split_on, split_once, starts_with, text_of, trim,
};

#[test]
fn characters_and_texts() {
    let chars = chars_of("grün");
    assert_eq!(chars, vec!['g', 'r', 'ü', 'n']);
    assert_eq!(text_of(&chars, 1, 3), "rü");
    assert_eq!(joined("ab", "cd"), "abcd");
    assert_eq!(byte_len("grün"), 5);
    assert!(same_text("a", "a"));
    assert!(!same_text("a", "A"));
    assert!(!same_text("a", "aa"));
}

#[test]
fn replaces_every_occurrence() {
    assert_eq!(replace_char("a\\b\\c", '\\', '/'), "a/b/c");
    assert_eq!(replace_char("plain", '"', '\''), "plain");
}

#[test]
fn counts_two_characters_together() {
    assert_eq!(count_either("a/b\\c/d", '/', '\\'), 3);
    assert_eq!(count_either("", '/', '\\'), 0);
}

#[test]
fn splits_as_std_does() {
    for text in ["", "/", "a", "a/b", "/a/", "a//b", "ä/ö/ü"] {
        let expected: Vec<String> = text.split('/').map(|p| p.to_string()).collect();
        assert_eq!(split_on(text, '/'), expected);
        assert_eq!(split_on(text, '/').join("/"), text);
        let once = text.split_once('/').map(|(a, b)| (a.to_string(), b.to_string()));
        assert_eq!(split_once(text, '/'), once);
    }
}

#[test]
fn finds_as_std_does() {
    for text in ["", "a", "abab", "xaba", "protected_game.exe"] {
        for pattern in ["", "a", "ab", "ba", "game", "longer than the text itself"] {
            assert_eq!(contains_text(text, pattern), text.contains(pattern));
            assert_eq!(starts_with(text, pattern), text.starts_with(pattern));
        }
    }
}

#[test]
fn ignores_the_case_of_ascii_letters_only() {
    assert!(eq_ignore_ascii_case("Saved", "sAVED"));
    assert!(!eq_ignore_ascii_case("Saved", "Saves"));
    assert!(!eq_ignore_ascii_case("Ä", "ä"));
    assert!(!eq_ignore_ascii_case("a", "ab"));
    assert!(!eq_ignore_ascii_case("[", "{"));
}

#[test]
fn white_space_is_that_of_unicode() {
    for code in 0..=0x10ffffu32 {
        if let Some(c) = char::from_u32(code) {
            assert_eq!(is_white_space(c), c.is_whitespace(), "{:x}", code);
        }
    }
}

#[test]
fn trims_as_std_does() {
    for text in ["", " ", "a", " a ", "\u{3000}win dows\t\n", "  b"] {
        assert_eq!(trim(text), text.trim());
    }
}

#[test]
fn reads_numbers_as_std_does() {
    let texts = [
        "", "+", "-", "0", "+7", "-1", "007", "4294967295", "4294967296", "99999999999999999999",
        "1a", " 1", "1 ", "1_000", "++1", "00000000000000000000005",
    ];
    for text in texts {
        assert_eq!(parse_u32(text), text.parse::<u32>().ok(), "{}", text);
    }
}
