use dsh_desktop::text::{
    append_decimal,
    chars_of, contains_chars, find_char_in, is_whitespace_char, parse_u64_in, same_text,
    split_ranges, strip_bounds, substring, trim_bounds,
};

fn chars(s: &str) -> Vec<char> {
    s.chars().collect()
}

#[test]
fn whitespace_agrees_with_std_on_every_char() {
    for code in 0u32..=0x10FFFF {
        if let Some(c) = char::from_u32(code) {
            assert_eq!(is_whitespace_char(c), c.is_whitespace(), "U+{:04X}", code);
        }
    }
}

#[test]
fn trim_agrees_with_std() {
    let samples = ["", "   ", "abc", "  abc  ", "\t\na b\r\n", "\u{3000}x\u{a0}", "\u{85}y", " \u{2028}z\u{205f} "];
    for s in samples.iter() {
        let cs = chars_of(s);
        let (lo, hi) = trim_bounds(&cs);
        assert_eq!(substring(s, lo, hi), s.trim(), "{:?}", s);
    }
}

#[test]
fn strip_agrees_with_trim_matches() {
    let samples = ["", "\"\"", "\"1.2.3\"", "1.2.3", "\"\"x\"", "a\"b"];
    for s in samples.iter() {
        let cs = chars_of(s);
        let (lo, hi) = strip_bounds(&cs, 0, cs.len(), '"');
        assert_eq!(substring(s, lo, hi), s.trim_matches('"'), "{:?}", s);
    }
}

#[test]
fn parse_agrees_with_std() {
    let samples = [
        "", "0", "7", "+7", "++7", "-7", "+", "-", "007", "12a", " 1", "1 ", "18446744073709551615",
        "18446744073709551616", "99999999999999999999999", "+18446744073709551615", "١٢", "٣",
        "1_000",
    ];
    for s in samples.iter() {
        let cs = chars(s);
        assert_eq!(parse_u64_in(&cs, 0, cs.len()), s.parse::<u64>().ok(), "{:?}", s);
    }
}

#[test]
fn parse_reads_a_range() {
    let cs = chars("v=1234;");
    assert_eq!(parse_u64_in(&cs, 2, 6), Some(1234));
    assert_eq!(parse_u64_in(&cs, 0, 6), None);
}

#[test]
fn split_agrees_with_std() {
    let samples = ["", ".", "a", "a.b", "a..b", ".a.", "rc.6", "1.2.3.4"];
    for s in samples.iter() {
        let cs = chars(s);
        let pieces: Vec<String> = split_ranges(&cs, 0, cs.len(), '.')
            .iter()
            .map(|&(a, b)| substring(s, a, b))
            .collect();
        let expected: Vec<String> = s.split('.').map(String::from).collect();
        assert_eq!(pieces, expected, "{:?}", s);
    }
}

#[test]
fn find_char_finds_first() {
    let cs = chars("1.0.0-rc-1");
    assert_eq!(find_char_in(&cs, 0, cs.len(), '-'), Some(5));
    assert_eq!(find_char_in(&cs, 6, cs.len(), '-'), Some(8));
    assert_eq!(find_char_in(&cs, 0, 5, '-'), None);
}

#[test]
fn contains_and_same_text() {
    assert!(contains_chars(&chars("hello world"), &chars("o w")));
    assert!(contains_chars(&chars("abc"), &chars("")));
    assert!(!contains_chars(&chars("abc"), &chars("abcd")));
    assert!(!contains_chars(&chars("abc"), &chars("ac")));
    assert!(same_text("日本", "日本"));
    assert!(!same_text("日本", "日"));
}

#[test]
fn decimal_text_matches_format() {
    for n in [0u64, 5, 9, 10, 11, 99, 100, 12345, u64::MAX] {
        let mut s = String::from("n=");
        append_decimal(&mut s, n);
        assert_eq!(s, format!("n={}", n));
    }
}
