use sailent::text::{find_str, parse_i32, split_str, str_eq, strip_prefix_str, trim_str};

#[test]
fn trim_removes_unicode_whitespace() {
    assert_eq!(trim_str("  a b \t\n"), "a b");
    assert_eq!(trim_str("\u{3000}x\u{a0}"), "x");
    assert_eq!(trim_str("   "), "");
    assert_eq!(trim_str(""), "");
}

#[test]
fn split_matches_std_split() {
    for (s, p) in [("a|b||c", "|"), ("xANDyANDANDz", "AND"), ("", "|"), ("aaa", "aa"), ("é|ü", "|")] {
        let expected: Vec<String> = s.split(p).map(|x| x.to_string()).collect();
        assert_eq!(split_str(s, p), expected);
    }
}

#[test]
fn find_and_prefix() {
    assert_eq!(find_str("abcabc", "ca", 0), Some(2));
    assert_eq!(find_str("abcabc", "bc", 2), Some(4));
    assert_eq!(find_str("abc", "d", 0), None);
    assert_eq!(strip_prefix_str("filter x", "filter"), Some(" x"));
    assert_eq!(strip_prefix_str("filt", "filter"), None);
    assert!(str_eq("ab", "ab"));
    assert!(!str_eq("ab", "abc"));
}

#[test]
fn parse_i32_matches_std() {
    for s in ["0", "-0", "+12", "007", "2147483647", "-2147483648", "2147483648", "-2147483649", "", "+", "-", "1 ", "1a", "99999999999999999999"] {
        assert_eq!(parse_i32(s), s.parse::<i32>().ok(), "input {:?}", s);
    }
}
