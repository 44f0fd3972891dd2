use infercache::digest::digest;
use infercache::text::{after_prefix, is_white, last_line, lines, listed, same, split, trim, trim_end};

#[test]
fn white_space_is_that_of_the_standard_library() {
    for n in 0..0x11_0000u32 {
        if let Some(c) = char::from_u32(n) {
            let s = c.to_string();
            assert_eq!(is_white(c), c.is_whitespace(), "{:x}", n);
            assert_eq!(trim_end(&s), s.trim_end(), "{:x}", n);
            if n > 0x3100 && n % 64 != 0 {
                continue;
            }
            let padded = format!("{}x{}", c, c);
            assert_eq!(trim(&padded), padded.trim(), "{:x}", n);
        }
    }
    assert_eq!(trim_end(" a b \n"), " a b");
    assert_eq!(trim("\t a b \n"), "a b");
    assert_eq!(trim(" \n"), "");
}

#[test]
fn lines_and_pieces_are_those_of_the_standard_library() {
    for s in [
        "", "\n", "\r\n", "a", "a\n", "a\r\n", "a\r", "a\n\nb", "a\r\r\nb\n\r", "\n\n", "data: x\n\n",
        "\u{e9}\n\u{1f600}\r\n",
    ] {
        let expected: Vec<&str> = s.lines().collect();
        assert_eq!(lines(s), expected, "{:?}", s);
        let expected: Vec<&str> = s.split('\n').collect();
        assert_eq!(split(s, '\n'), expected, "{:?}", s);
    }
}

#[test]
fn substrings_and_prefixes() {
    for (s, part) in [
        ("", ""), ("", "a"), ("abc", ""), ("abc", "abc"), ("abc", "bc"), ("abc", "abcd"),
        ("aab", "ab"), ("data: [DONE]\n\n", "[DONE]"), ("[DON", "[DONE]"), ("[DONe]", "[DONE]"),
    ] {
        assert_eq!(after_prefix(s, part).as_deref(), s.strip_prefix(part), "{:?} {:?}", s, part);
        assert_eq!(same(s, part), s == part);
    }
    assert_eq!(after_prefix("data: x", "data: ").as_deref(), Some("x"));
    assert!(same("\u{e9}", "\u{e9}"));
    let names = vec!["a".to_string(), "b".to_string()];
    assert!(listed(&names, "b") && !listed(&names, "ab") && !listed(&Vec::new(), "a"));
}

#[test]
fn pieces_rejoin_to_the_text() {
    for s in ["", ",", "a,b", ",a,,b,"] {
        assert_eq!(split(s, ',').join(","), s);
        assert!(split(s, ',').iter().all(|piece| !piece.contains(',')));
    }
}

#[test]
fn digest_of_a_text() {
    let made = digest("infercache \u{e9}");
    assert_eq!(made.len(), 64);
    assert!(made.chars().all(|c| c.is_ascii_digit() || ('a'..='f').contains(&c)));
    assert_ne!(made, digest("infercache e"));
    assert_eq!(
        digest("The quick brown fox jumps over the lazy dog"),
        "d7a8fbb307d7809469ca9abcb0082e4f8d5651e46d3cdb762d02d0bf37c9e592"
    );
}

#[test]
fn line_that_a_text_leaves_open() {
    assert_eq!(last_line(""), "");
    assert_eq!(last_line("a"), "a");
    assert_eq!(last_line("a\n"), "");
    assert_eq!(last_line("a\nb\r"), "b\r");
    assert_eq!(last_line("\n\ndata: "), "data: ");
}
