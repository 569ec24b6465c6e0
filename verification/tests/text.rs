//! Text operations, held against the standard library's.
use update_versions_lsp::text::chars::{
    chars_of, digit, letter, lowercase_of, string_of, white_space,
};
use update_versions_lsp::text::lines::lines_of;
use update_versions_lsp::text::number::{decimal_of, number_of};
use update_versions_lsp::text::search::{
    contains_str, ends_with_str, position_str, split_on, starts_with_str,
};
use update_versions_lsp::text::trim::{stripped_all, trimmed, trimmed_end, trimmed_start, unquoted};
use update_versions_lsp::text::utf8::byte_len;

const SAMPLES: [&str; 14] = [
    "",
    " ",
    "a",
    "\n",
    "a\nb",
    "a\r\nb\r",
    "\r\n\r\n",
    "x\n\ny\n",
    "  \t spaced out \u{3000}",
    "aaa",
    "äöü ✔ latest",
    "..",
    "1.2.3",
    "\u{85}edge\u{a0}",
];

#[test]
fn character_classes_agree_with_std() {
    for c in (0u32..=0x10ffff).filter_map(char::from_u32) {
        assert_eq!(white_space(c), c.is_whitespace(), "{:?}", c);
        assert_eq!(digit(c), c.is_ascii_digit(), "{:?}", c);
        assert_eq!(letter(c), c.is_ascii_alphabetic(), "{:?}", c);
    }
}

#[test]
fn trimming_agrees_with_std() {
    for s in SAMPLES {
        let cs = chars_of(s);
        assert_eq!(string_of(trimmed(&cs)), s.trim());
        assert_eq!(string_of(trimmed_start(&cs)), s.trim_start());
        assert_eq!(string_of(trimmed_end(&cs)), s.trim_end());
        assert_eq!(string_of(&lowercase_of(&cs)), s.to_ascii_lowercase());
        assert_eq!(byte_len(&cs), s.len());
    }
    assert_eq!(string_of(stripped_all(&chars_of("~>~>1"), "~>")), "1");
    assert_eq!(string_of(stripped_all(&chars_of("aaab"), "aa")), "ab");
    assert_eq!(string_of(unquoted(&chars_of("'\"x'y\"'"))), "x'y");
}

#[test]
fn lines_agree_with_std() {
    for s in SAMPLES {
        let ours: Vec<String> = lines_of(&chars_of(s)).iter().map(|l| string_of(l)).collect();
        let theirs: Vec<&str> = s.lines().collect();
        assert_eq!(ours, theirs, "{:?}", s);
    }
}

#[test]
fn searching_agrees_with_std() {
    for s in SAMPLES {
        for p in ["", "a", ".", "\n", "aa", "✔", "3", "out "] {
            let cs = chars_of(s);
            let at = position_str(&cs, p).map(|i| byte_len(&cs[..i]));
            assert_eq!(at, s.find(p), "{:?} in {:?}", p, s);
            assert_eq!(contains_str(&cs, p), s.contains(p));
            assert_eq!(starts_with_str(&cs, p), s.starts_with(p));
            assert_eq!(ends_with_str(&cs, p), s.ends_with(p));
        }
        let ours: Vec<String> = split_on(&chars_of(s), '.').iter().map(|l| string_of(l)).collect();
        let theirs: Vec<&str> = s.split('.').collect();
        assert_eq!(ours, theirs);
    }
}

#[test]
fn numbers_agree_with_std() {
    let texts = [
        "", "+", "-", "0", "+0", "-0", "007", "12a", "+-1", "18446744073709551615",
        "18446744073709551616", "00000000000000000000000000000001", "99999999999999999999",
    ];
    for s in texts {
        assert_eq!(number_of(&chars_of(s)), s.parse::<u64>().ok(), "{:?}", s);
    }
    for n in [0, 7, 10, 1909, u64::MAX] {
        assert_eq!(string_of(&decimal_of(n)), n.to_string());
    }
}
