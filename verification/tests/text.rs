use crablit::hint;
use crablit::text::{chars_of, space, text_of, trim, trim_bounds, MASK};

#[test]
fn hint_not_odd() {
    let get_hint = String::from("1234");
    assert_eq!("12__", hint(&get_hint));
}

#[test]
fn hint_odd() {
    let get_hint = String::from("12345");
    assert_eq!("12___", hint(&get_hint));
}

#[test]
fn hint_non_ascii() {
    let get_hint = String::from("aáéűúőóüöíä|Ä");
    assert_eq!("aáéűúő_______", hint(&get_hint));
}

#[test]
fn hint_of_six_digits() {
    assert_eq!("012___", hint("012345"));
}

#[test]
fn hint_of_a_sentence() {
    let sentence = "This is a very-very hard-to-guess sentence.";
    assert_eq!("This is a very-very h______________________", hint(sentence));
}

#[test]
fn hint_of_nothing_and_of_one_character() {
    assert_eq!("", hint(""));
    assert_eq!("_", hint("x"));
    assert_eq!("_", hint("ű"));
}

#[test]
fn hint_keeps_the_character_count() {
    for s in ["", "a", "ab", "abc", "aáéűúőóüöíä|Ä", "日本語のテキスト", "  spaced  out "] {
        let h = hint(s);
        let n = s.chars().count();
        assert_eq!(h.chars().count(), n);
        for (i, (got, want)) in h.chars().zip(s.chars()).enumerate() {
            if i < n / 2 {
                assert_eq!(got, want);
            } else {
                assert_eq!(got, MASK);
            }
        }
    }
}

#[test]
fn space_is_what_std_calls_whitespace() {
    let mut count = 0;
    for code in 0u32..=0x10FFFF {
        if let Some(c) = char::from_u32(code) {
            assert_eq!(space(c), c.is_whitespace());
            if space(c) {
                count += 1;
            }
        }
    }
    assert_eq!(count, 25);
}

#[test]
fn trim_drops_the_white_space_around() {
    assert_eq!(trim("  house \t\r\n"), "house");
    assert_eq!(trim("house"), "house");
    assert_eq!(trim(" two words "), "two words");
    assert_eq!(trim(""), "");
    assert_eq!(trim(" \t \n"), "");
    assert_eq!(trim("\u{a0}\u{3000}á é\u{2003}"), "á é");
}

#[test]
fn trim_agrees_with_std() {
    for s in ["", " ", "a", " a", "a ", "\u{85}x\u{85}", "\u{1680}x y\u{2028}\u{2029}", "\u{feff}x", "\u{200b}x "] {
        assert_eq!(trim(s), s.trim());
    }
}

#[test]
fn trim_bounds_of_a_part() {
    let v: Vec<char> = " ab ; cd ".chars().collect();
    assert_eq!(trim_bounds(&v, 0, 4), (1, 3));
    assert_eq!(trim_bounds(&v, 5, 9), (6, 8));
    assert_eq!(trim_bounds(&v, 3, 4), (4, 4));
    assert_eq!(trim_bounds(&v, 2, 2), (2, 2));
}

#[test]
fn chars_and_back() {
    let v = chars_of("aé|Ä");
    assert_eq!(v, vec!['a', 'é', '|', 'Ä']);
    assert_eq!(text_of(&v, 1, 3), "é|");
    assert_eq!(text_of(&v, 0, 4), "aé|Ä");
    assert_eq!(text_of(&v, 2, 2), "");
}
