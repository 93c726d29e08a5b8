use mdpdf::text::{chars_of, find, string_from_chars, text_le_exec, utf8_bytes, white_space};

#[test]
fn white_space_is_what_trim_start_removes() {
    for u in 0u32..=0x10FFFF {
        if let Some(c) = char::from_u32(u) {
            assert_eq!(white_space(c), c.is_whitespace(), "U+{:04X}", u);
        }
    }
}

#[test]
fn text_order_is_the_order_of_str() {
    let samples = ["", "a", "b", "ab", "aa", "Z", "z", "é", "e", "\u{10000}", "\u{ffff}", "abc", "abd"];
    for a in samples {
        for b in samples {
            assert_eq!(text_le_exec(&chars_of(a), &chars_of(b)), a <= b, "{:?} {:?}", a, b);
        }
    }
}

#[test]
fn find_gives_the_first_occurrence() {
    let s = chars_of("abcabc");
    assert_eq!(find(&s, 0, &chars_of("bc")), Some(1));
    assert_eq!(find(&s, 2, &chars_of("bc")), Some(4));
    assert_eq!(find(&s, 5, &chars_of("bc")), None);
    assert_eq!(find(&s, 3, &chars_of("")), Some(3));
    assert_eq!(find(&s, 6, &chars_of("")), Some(6));
}

#[test]
fn characters_and_bytes() {
    let v = chars_of("añ😀");
    assert_eq!(v, vec!['a', 'ñ', '😀']);
    assert_eq!(string_from_chars(&v), "añ😀");
    assert_eq!(utf8_bytes(&v), "añ😀".as_bytes().to_vec());
}
