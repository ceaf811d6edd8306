use wgswitch::text::{
    chars_of, contains_chars, lines, parse_uint_chars, split_chars, split_words,
    trimmed, trimmed_end,
};

fn s(v: &[char]) -> String {
    v.iter().collect()
}

const SAMPLES: &[&str] = &[
    "", "a", "a\n", "a\nb", "a\r\nb\r\n", "a\r", "\r\n", "\n", "\n\n", "x\n\ry", " a  b\t",
    "\u{a0}x\u{2003}y\u{3000}", "\u{85}", "é ü\u{200b}z", "a\tb\t\tc\t",
];

#[test]
fn lines_match_std() {
    for t in SAMPLES {
        let got: Vec<String> = lines(&chars_of(t)).iter().map(|l| s(l)).collect();
        let want: Vec<String> = t.lines().map(|l| l.to_string()).collect();
        assert_eq!(got, want, "{:?}", t);
    }
}

#[test]
fn words_match_split_whitespace() {
    for t in SAMPLES {
        let got: Vec<String> = split_words(&chars_of(t)).iter().map(|l| s(l)).collect();
        let want: Vec<String> = t.split_whitespace().map(|l| l.to_string()).collect();
        assert_eq!(got, want, "{:?}", t);
    }
}

#[test]
fn trims_match_std() {
    for t in SAMPLES {
        assert_eq!(s(&trimmed(&chars_of(t))), t.trim(), "{:?}", t);
        assert_eq!(s(&trimmed_end(&chars_of(t))), t.trim_end(), "{:?}", t);
    }
}

#[test]
fn split_on_tab_matches_std() {
    for t in SAMPLES {
        let got: Vec<String> = split_chars(&chars_of(t), '\t').iter().map(|l| s(l)).collect();
        let want: Vec<String> = t.split('\t').map(|l| l.to_string()).collect();
        assert_eq!(got, want, "{:?}", t);
    }
}

#[test]
fn unsigned_parsing_matches_std() {
    for t in [
        "", "+", "-", "0", "+0", "-0", "65535", "65536", "+65535", "00012", "1 ", " 1", "12a",
        "18446744073709551615", "18446744073709551616", "++1", "٣",
    ] {
        let c = chars_of(t);
        assert_eq!(parse_uint_chars(&c, u16::MAX as u64), t.parse::<u16>().ok().map(|v| v as u64), "{:?}", t);
        assert_eq!(parse_uint_chars(&c, u64::MAX), t.parse::<u64>().ok(), "{:?}", t);
    }
}

#[test]
fn contains_matches_std() {
    for (h, n) in [("operation not permitted", "permitted"), ("abc", ""), ("", "a"), ("aab", "ab"), ("ab", "abc")] {
        assert_eq!(contains_chars(&chars_of(h), &chars_of(n)), h.contains(n));
    }
}
