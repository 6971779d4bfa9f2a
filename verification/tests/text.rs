use pkg::text::{
    char_is_whitespace, find_in, first_line_in, from_chars, same_text, split_in, to_chars, trim_in,
};

const SAMPLES: [&str; 14] = [
    "",
    "a",
    ",",
    "a,b",
    ",a,,b,",
    "1.2.3",
    "  padded\t\n",
    "\u{a0}\u{3000}x y\u{2028}",
    "line one\nline two\n",
    "crlf\r\nnext",
    "bare\rreturn",
    "\n",
    "\r\n",
    "h\u{e9}llo,w\u{f6}rld.\u{1f980}",
];

#[test]
fn whitespace_is_what_std_calls_whitespace() {
    for code in 0..=0x10FFFFu32 {
        if let Some(c) = char::from_u32(code) {
            assert_eq!(char_is_whitespace(c), c.is_whitespace(), "U+{:04X}", code);
        }
    }
}

#[test]
fn characters_round_trip() {
    for s in SAMPLES {
        let chars = to_chars(s);
        assert_eq!(chars, s.chars().collect::<Vec<char>>());
        assert_eq!(from_chars(&chars, 0, chars.len()), s);
    }
    let chars = to_chars("abcdef");
    assert_eq!(from_chars(&chars, 2, 5), "cde");
    assert_eq!(from_chars(&chars, 3, 3), "");
}

#[test]
fn split_agrees_with_std() {
    for s in SAMPLES {
        for sep in [',', '.', ' ', '\n'] {
            let chars = to_chars(s);
            let parts: Vec<String> = split_in(&chars, 0, chars.len(), sep)
                .iter()
                .map(|(lo, hi)| from_chars(&chars, *lo, *hi))
                .collect();
            let by_std: Vec<String> = s.split(sep).map(|p| p.to_string()).collect();
            assert_eq!(parts, by_std);
        }
    }
}

#[test]
fn split_of_a_part_of_the_text() {
    let chars = to_chars("xx,a,b,,yy");
    assert_eq!(split_in(&chars, 3, 8, ','), vec![(3, 4), (5, 6), (7, 7), (8, 8)]);
    assert_eq!(split_in(&chars, 3, 3, ','), vec![(3, 3)]);
}

#[test]
fn trim_agrees_with_std() {
    for s in SAMPLES {
        let chars = to_chars(s);
        let (lo, hi) = trim_in(&chars, 0, chars.len());
        assert_eq!(from_chars(&chars, lo, hi), s.trim());
    }
    let chars = to_chars(" \t ");
    assert_eq!(trim_in(&chars, 0, 3), (3, 3));
}

#[test]
fn first_line_agrees_with_std() {
    for s in SAMPLES {
        let chars = to_chars(s);
        let line = first_line_in(&chars).map(|(lo, hi)| from_chars(&chars, lo, hi));
        assert_eq!(line, s.lines().next().map(|l| l.to_string()));
    }
}

#[test]
fn find_gives_the_first_place() {
    let chars = to_chars("a,b,c");
    assert_eq!(find_in(&chars, 0, 5, ','), 1);
    assert_eq!(find_in(&chars, 2, 5, ','), 3);
    assert_eq!(find_in(&chars, 4, 5, ','), 5);
    assert_eq!(find_in(&chars, 0, 5, 'x'), 5);
    assert_eq!(find_in(&chars, 0, 0, 'a'), 0);
}

#[test]
fn same_text_compares_characters() {
    assert!(same_text("abc", "abc"));
    assert!(same_text("", ""));
    assert!(!same_text("abc", "abd"));
    assert!(!same_text("abc", "ab"));
}
