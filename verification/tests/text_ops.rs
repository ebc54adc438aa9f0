use towny_bot::text::{
    chars_of, concat_chars, contains_chars, find_chars, parse_usize_chars, replace_all_chars,
    split_on_chars, split_once_chars, starts_with_chars, strip_prefix_chars, strip_suffix_chars,
    trim_chars, IntErrorKind,
};

fn s(v: &[char]) -> String {
    v.iter().collect()
}

#[test]
fn trim_removes_unicode_white_space_at_both_ends() {
    assert_eq!(s(&trim_chars(&chars_of("  \t a b \n"))), "a b");
    assert_eq!(s(&trim_chars(&chars_of("\u{3000}x\u{a0}"))), "x");
    assert_eq!(s(&trim_chars(&chars_of("   "))), "");
    assert_eq!(s(&trim_chars(&chars_of(""))), "");
}

#[test]
fn split_keeps_empty_pieces() {
    let pieces = split_on_chars(&chars_of(",a,,b"), ',');
    let pieces: Vec<String> = pieces.iter().map(|p| s(p)).collect();
    assert_eq!(pieces, vec!["", "a", "", "b"]);
    let single = split_on_chars(&chars_of(""), ',');
    assert_eq!(single.len(), 1);
    assert!(single[0].is_empty());
}

#[test]
fn find_and_split_once_take_the_first_occurrence() {
    let m = chars_of("a:b:c");
    assert_eq!(find_chars(&m, &chars_of(":")), Some(1));
    let (a, b) = split_once_chars(&m, &chars_of(":")).unwrap();
    assert_eq!((s(&a), s(&b)), ("a".to_string(), "b:c".to_string()));
    assert!(split_once_chars(&m, &chars_of(";")).is_none());
    assert_eq!(find_chars(&m, &chars_of("")), Some(0));
}

#[test]
fn prefixes_and_suffixes() {
    let m = chars_of("Bearer xyz");
    assert!(starts_with_chars(&m, &chars_of("Bearer ")));
    assert_eq!(s(&strip_prefix_chars(&m, &chars_of("Bearer ")).unwrap()), "xyz");
    assert!(strip_prefix_chars(&m, &chars_of("bearer")).is_none());
    assert_eq!(s(&strip_suffix_chars(&chars_of("12]"), &chars_of("]")).unwrap()), "12");
    assert!(strip_suffix_chars(&chars_of("12"), &chars_of("]")).is_none());
    assert!(contains_chars(&chars_of("a [+] Lestallum b"), &chars_of("[+] Lestallum")));
    assert!(!contains_chars(&chars_of("[+] Lestallu"), &chars_of("[+] Lestallum")));
    assert_eq!(s(&concat_chars(&chars_of("ab"), &chars_of("→c"))), "ab→c");
}

#[test]
fn replace_substitutes_every_occurrence_from_the_left() {
    let r = replace_all_chars(&chars_of("hi {} and {}{"), &chars_of("{}"), &chars_of("Bob"));
    assert_eq!(s(&r), "hi Bob and Bob{");
    let unchanged = replace_all_chars(&chars_of("no placeholder"), &chars_of("{}"), &chars_of("x"));
    assert_eq!(s(&unchanged), "no placeholder");
}

#[test]
fn parse_usize_follows_from_str() {
    assert_eq!(parse_usize_chars(&chars_of("12")), Ok(12));
    assert_eq!(parse_usize_chars(&chars_of("+7")), Ok(7));
    assert_eq!(parse_usize_chars(&chars_of("007")), Ok(7));
    assert_eq!(parse_usize_chars(&chars_of("")), Err(IntErrorKind::Empty));
    assert_eq!(parse_usize_chars(&chars_of("+")), Err(IntErrorKind::InvalidDigit));
    assert_eq!(parse_usize_chars(&chars_of("-")), Err(IntErrorKind::InvalidDigit));
    assert_eq!(parse_usize_chars(&chars_of("-1")), Err(IntErrorKind::InvalidDigit));
    assert_eq!(parse_usize_chars(&chars_of(" 1")), Err(IntErrorKind::InvalidDigit));
    assert_eq!(parse_usize_chars(&chars_of("1a")), Err(IntErrorKind::InvalidDigit));
    let max = usize::MAX.to_string();
    assert_eq!(parse_usize_chars(&chars_of(&max)), Ok(usize::MAX));
    let over = format!("{}0", usize::MAX);
    assert_eq!(parse_usize_chars(&chars_of(&over)), Err(IntErrorKind::PosOverflow));
    let over_then_letter = format!("{}0x", usize::MAX);
    assert_eq!(parse_usize_chars(&chars_of(&over_then_letter)), Err(IntErrorKind::PosOverflow));
}

#[test]
fn parse_usize_errors_match_std() {
    for s in ["", "+", "-", "-1", "1a", "99999999999999999999999", "9999999999999999999999x", "+5", "12"] {
        let std_result = s.parse::<usize>();
        let ours = parse_usize_chars(&chars_of(s));
        match (std_result, ours) {
            (Ok(a), Ok(b)) => assert_eq!(a, b),
            (Err(e), Err(k)) => {
                let expected = match k {
                    IntErrorKind::Empty => std::num::IntErrorKind::Empty,
                    IntErrorKind::InvalidDigit => std::num::IntErrorKind::InvalidDigit,
                    IntErrorKind::PosOverflow => std::num::IntErrorKind::PosOverflow,
                };
                assert_eq!(e.kind(), &expected, "{s}");
            }
            (a, b) => panic!("{s}: {a:?} vs {b:?}"),
        }
    }
}
