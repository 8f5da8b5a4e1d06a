use boxed::text::{decimal_string, parse_u64, split_words, str_eq};

#[test]
fn decimal_matches_to_string() {
    for n in [0u64, 7, 10, 99, 100, 1048576, u64::MAX] {
        assert_eq!(decimal_string(n), n.to_string());
    }
}

#[test]
fn parse_matches_std() {
    for s in ["0", "42", "+42", "007", "", "+", "-1", "1a", " 1", "18446744073709551615", "18446744073709551616", "99999999999999999999"] {
        assert_eq!(parse_u64(s), s.parse::<u64>().ok(), "{s:?}");
    }
}

#[test]
fn words_match_split_whitespace() {
    for s in ["cpu io memory pids", "  cpuset\tcpu\n", "", "   ", "a\u{a0}b\u{3000}c"] {
        let expected: Vec<String> = s.split_whitespace().map(str::to_owned).collect();
        assert_eq!(split_words(s), expected, "{s:?}");
    }
}

#[test]
fn equality() {
    assert!(str_eq("abc", "abc"));
    assert!(!str_eq("abc", "abd"));
    assert!(!str_eq("ab", "abc"));
}

#[test]
fn decimal_round_trip() {
    for n in [0u64, 1, 9, 10, 4096, u64::MAX - 1, u64::MAX] {
        assert_eq!(parse_u64(&decimal_string(n)), Some(n));
    }
}

#[test]
fn split_then_join_gives_back_the_text() {
    for s in ["a,b,c", "", ",", "a,,b,", "no separator"] {
        let chars: Vec<char> = s.chars().collect();
        let pieces = boxed::text::split_chars(&chars, ',');
        assert_eq!(pieces.join(","), s);
        assert!(pieces.iter().all(|p| !p.contains(',')));
        assert_eq!(pieces.len(), s.matches(',').count() + 1);
    }
}
