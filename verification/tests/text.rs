use localcoder::text;

const SAMPLES: [&str; 12] = [
    "",
    " ",
    "a",
    "  a b  ",
    "\u{3000}x\u{2009}\u{a0}",
    "\r\n\t\u{b}\u{c}",
    "a\nb",
    "a\r\nb\r\n",
    "\n\n",
    "a\r",
    "aaaa",
    "héllo wörld",
];

#[test]
fn white_space_is_what_char_says() {
    for u in 0..=0x10ffffu32 {
        if let Some(c) = char::from_u32(u) {
            assert_eq!(text::is_space_char(c), c.is_whitespace(), "{:x}", u);
        }
    }
}

#[test]
fn trimming_is_what_str_does() {
    for s in SAMPLES {
        assert_eq!(text::trim(s), s.trim());
        assert_eq!(text::trim_start(s), s.trim_start());
        assert_eq!(text::trim_end(s), s.trim_end());
        assert_eq!(text::is_blank(s), s.trim().is_empty());
        assert_eq!(text::trim_end_matches(s, 'a'), s.trim_end_matches('a'));
        assert_eq!(text::trim(text::trim(s).as_str()), text::trim(s));
    }
}

#[test]
fn lines_are_what_str_gives() {
    for s in SAMPLES {
        let expected: Vec<String> = s.lines().map(|line| line.to_string()).collect();
        assert_eq!(text::lines(s), expected, "{:?}", s);
    }
}

#[test]
fn searching_is_what_str_does() {
    for s in SAMPLES {
        for pat in SAMPLES {
            assert_eq!(text::contains_text(s, pat), s.contains(pat));
            assert_eq!(text::ends_with_text(s, pat), s.ends_with(pat));
            assert_eq!(
                text::strip_prefix(s, pat),
                s.strip_prefix(pat).map(|rest| rest.to_string())
            );
        }
    }
}

#[test]
fn replacing_is_what_str_does() {
    let texts = ["", "a", "aa", "aaa", "abcabc", "héhé", "x\ny\n"];
    for s in texts {
        for pat in ["", "a", "aa", "abc", "é", "\n"] {
            for new in ["", "a", "zz", "é"] {
                assert_eq!(text::count_matches(s, pat), s.matches(pat).count() as u128);
                assert_eq!(text::replace_all(s, pat, new), s.replace(pat, new));
                assert_eq!(text::replace_first(s, pat, new), s.replacen(pat, new, 1));
            }
        }
    }
}

#[test]
fn joining_is_what_a_slice_does() {
    for parts in [vec![], vec!["a"], vec!["a", "b"], vec!["", "x", ""]] {
        let owned: Vec<String> = parts.iter().map(|part| part.to_string()).collect();
        assert_eq!(text::join(&owned, ", "), parts.join(", "));
    }
}

#[test]
fn numbers_are_what_format_writes() {
    for n in [0u128, 1, 9, 10, 99, 100, 4096, u64::MAX as u128, u128::MAX] {
        assert_eq!(text::decimal_text(n), format!("{}", n));
        assert_eq!(
            text::align_right(text::decimal_text(n).as_str(), 6),
            format!("{:>6}", n)
        );
    }
}
