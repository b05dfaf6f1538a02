use speed_cloudflare_cli::text::{
    contains, decimal, join, lines, pad, repeat, same, split, split_once,
};

#[test]
fn splitting_agrees_with_the_standard_library() {
    for text in ["", ".", "a", "a.b", "..a..", "192.0.2.1", "1.2.3.4.5", "ä.ö.ü", "::1", "a:b"] {
        for sep in ['.', ':'] {
            let expected: Vec<String> = text.split(sep).map(|p| p.to_string()).collect();
            assert_eq!(split(text, sep), expected);
            assert_eq!(split(text, sep).join(&sep.to_string()), text);
            assert_eq!(contains(text, sep), text.contains(sep));
            let once = text.split_once(sep).map(|(a, b)| (a.to_string(), b.to_string()));
            assert_eq!(split_once(text, sep), once);
        }
    }
}

#[test]
fn lines_agree_with_the_standard_library() {
    for text in [
        "", "\n", "\r", "\r\n", "a", "a\n", "a\r\n", "a\r", "a\n\nb", "a\r\r\nb\r", "\n\n", "x=1\ny=2",
    ] {
        let expected: Vec<String> = text.lines().map(|l| l.to_string()).collect();
        assert_eq!(lines(text), expected, "{:?}", text);
    }
}

#[test]
fn numerals_are_decimal() {
    for n in [0, 1, 9, 10, 11, 99, 100, 1_000, 100_000, 25_000_000, usize::MAX] {
        assert_eq!(decimal(n), n.to_string());
        assert_eq!(decimal(n).parse::<usize>(), Ok(n));
    }
}

#[test]
fn padding_agrees_with_the_standard_library() {
    for text in ["", "Latency:", "exactly twenty chars", "more than twenty characters", "ÄÖ"] {
        assert_eq!(pad(text, 20), format!("{:<20}", text));
    }
}

#[test]
fn composing() {
    assert_eq!(repeat("═", 60), "═".repeat(60));
    assert_eq!(repeat("═", 0), "");
    assert_eq!(join("ab", "c"), "abc");
    assert!(same("auto", "auto"));
    assert!(!same("auto", "aut"));
    assert!(!same("auto", "autx"));
}
