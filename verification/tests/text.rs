use ralume::text::{join_strings, parse_u32, sort_strings, str_contains, str_lt, trimmed};

#[test]
fn trim_matches_std() {
    let samples = ["", "  a  ", "\u{3000}x\u{2028}", "\t\n\r\u{b}\u{c}y\u{85}\u{a0}", "\u{200b}z\u{200b}", " \u{1680}\u{2000}\u{200a}\u{202f}\u{205f}w", "no-space"];
    for s in samples {
        assert_eq!(trimmed(s), s.trim(), "input {:?}", s);
    }
}

#[test]
fn parse_u32_matches_std() {
    let samples = ["0", "+7", "-1", "", "+", "4294967295", "4294967296", "00012", "1 2", "12a", "99999999999999999999"];
    for s in samples {
        assert_eq!(parse_u32(s), s.parse::<u32>().ok(), "input {:?}", s);
    }
}

#[test]
fn lines_match_std() {
    let samples = ["", "a", "a\n", "a\r\nb", "\n\n", "x\ry\r", "one\ntwo\r\nthree\r", "\r\n"];
    for s in samples {
        let chars: Vec<char> = s.chars().collect();
        let ours: Vec<String> = ralume::text::lines_of(&chars).into_iter().map(|l| l.into_iter().collect()).collect();
        let std: Vec<String> = s.lines().map(|l| l.to_string()).collect();
        assert_eq!(ours, std, "input {:?}", s);
    }
}

#[test]
fn contains_and_order_of_strings() {
    assert!(str_contains("failed to lookup address", "lookup"));
    assert!(str_contains("abc", ""));
    assert!(!str_contains("ab", "abc"));
    assert!(str_lt("part-001", "part-002"));
    assert!(str_lt("a", "ab"));
    assert!(!str_lt("b", "ab"));
    assert!(!str_lt("x", "x"));
}

#[test]
fn strings_sort_ascending() {
    let sorted = sort_strings(vec!["/t/part-002.webm".to_string(), "/t/part-000.webm".to_string(), "/t/part-010.webm".to_string(), "/t/part-001.webm".to_string()]);
    assert_eq!(sorted, vec!["/t/part-000.webm", "/t/part-001.webm", "/t/part-002.webm", "/t/part-010.webm"]);
    let parts = vec!["a".to_string(), "".to_string(), "b c".to_string()];
    assert_eq!(join_strings(&parts, ", "), "a, , b c");
}
