//! Text, held against the platform's own.

use keke::text;

#[test]
fn white_space_is_what_the_platform_says() {
    for code in 0..=0x10ffffu32 {
        if let Some(c) = char::from_u32(code) {
            assert_eq!(text::is_white_space(c), c.is_whitespace(), "{code:x}");
        }
    }
}

fn samples() -> Vec<&'static str> {
    vec![
        "", " ", "a", " a b ", "\n", "a\n", "a\r\nb\r\n", "\ta\u{a0}", "a\n\nb", "日本語\n",
        "x  y\tz", "..a..", "////", "AbC", "\r", "a\r", "ÄÖ",
    ]
}

#[test]
fn trimming_and_splitting_are_the_platforms() {
    for s in samples() {
        assert_eq!(text::trim(s), s.trim(), "{s:?}");
        assert_eq!(text::trim_start(s), s.trim_start(), "{s:?}");
        assert_eq!(text::trim_end(s), s.trim_end(), "{s:?}");
        assert_eq!(text::lines(s), s.lines().collect::<Vec<_>>(), "{s:?}");
        assert_eq!(text::split(s, 'a'), s.split('a').collect::<Vec<_>>(), "{s:?}");
        assert_eq!(
            text::split_white_space(s),
            s.split_whitespace().collect::<Vec<_>>(),
            "{s:?}"
        );
        assert_eq!(text::trim_end_matches(s, '/'), s.trim_end_matches('/'), "{s:?}");
        assert_eq!(text::to_ascii_lowercase(s), s.to_ascii_lowercase(), "{s:?}");
        for p in ["", "a", "b ", "\n", "日"] {
            assert_eq!(text::starts_with(s, p), s.starts_with(p), "{s:?} {p:?}");
            assert_eq!(text::ends_with(s, p), s.ends_with(p), "{s:?} {p:?}");
            assert_eq!(text::contains(s, p), s.contains(p), "{s:?} {p:?}");
            assert_eq!(
                text::strip_prefix(s, p).as_deref(),
                s.strip_prefix(p),
                "{s:?} {p:?}"
            );
            assert_eq!(
                text::strip_suffix(s, p).as_deref(),
                s.strip_suffix(p),
                "{s:?} {p:?}"
            );
        }
    }
}

#[test]
fn numerals_are_the_platforms() {
    for n in [0, 1, 9, 10, 12_345, u64::MAX] {
        assert_eq!(text::decimal(n), n.to_string());
    }
    for n in [0, -1, i32::MIN, i32::MAX] {
        assert_eq!(text::signed_decimal(n), n.to_string());
    }
    assert_eq!(text::wide_decimal(u128::MAX), u128::MAX.to_string());
}

#[test]
fn sorting_is_the_platforms() {
    let mut words: Vec<String> =
        ["b", "a", "", "aa", "B", "é", "z"].iter().map(|w| w.to_string()).collect();
    let own = text::sort(words.clone());
    words.sort();
    assert_eq!(own, words);
    assert_eq!(text::join(&words, ", "), words.join(", "));
}
