use httpress::text::{chars_of, contains, is_whitespace, parse_u64_chars, trim_str};

#[test]
fn trim_matches_std() {
    let samples = [
        "",
        "   ",
        "abc",
        "  a b  ",
        "\t\n\r\u{b}\u{c}x\u{85}",
        "\u{a0}\u{1680}\u{2000}y\u{200a}\u{2028}\u{2029}\u{202f}\u{205f}\u{3000}",
        "\u{200b}z\u{200b}",
        "\u{feff}w",
    ];
    for s in samples {
        assert_eq!(trim_str(s), s.trim(), "input {:?}", s);
    }
}

#[test]
fn whitespace_matches_std() {
    for u in 0u32..0x3100 {
        if let Some(c) = char::from_u32(u) {
            assert_eq!(is_whitespace(c), c.is_whitespace(), "char {:#x}", u);
        }
    }
}

#[test]
fn contains_matches_std() {
    let hay = "connection refused by peer";
    for needle in ["", "refused", "peer", "connection refused by peer", "peers", "x"] {
        assert_eq!(
            contains(&chars_of(hay), &chars_of(needle)),
            hay.contains(needle),
            "needle {:?}",
            needle
        );
    }
}

#[test]
fn parse_u64_matches_std() {
    for s in ["0", "1", "+1", "-1", "+", "", "1a", "18446744073709551615", "18446744073709551616", "00012"] {
        let v = chars_of(s);
        assert_eq!(parse_u64_chars(&v, 0, v.len()), s.parse::<u64>().ok(), "input {:?}", s);
    }
}
