use siplot::text::{contains_char, decimal_string, replace, string_of, trim_end_matches_char};

#[test]
fn decimal_rendering_of_integers() {
    assert_eq!(decimal_string(0), "0");
    assert_eq!(decimal_string(7), "7");
    assert_eq!(decimal_string(-42), "-42");
    assert_eq!(decimal_string(1234567890), "1234567890");
    assert_eq!(decimal_string(i64::MAX), i64::MAX.to_string());
    assert_eq!(decimal_string(i64::MIN), i64::MIN.to_string());
}

#[test]
fn replace_matches_std_replace() {
    for (s, p, r) in [
        ("aaa", "aa", "b"),
        ("{x}{x}", "{x}", "Y"),
        ("abc", "d", "zz"),
        ("", "a", "b"),
        ("héllo wörld", "ö", "o"),
    ] {
        assert_eq!(replace(s, p, r), s.replace(p, r));
    }
}

#[test]
fn small_string_helpers() {
    assert_eq!(string_of("abc"), "abc");
    assert!(contains_char("a.b", '.'));
    assert!(!contains_char("ab", '.'));
    assert_eq!(trim_end_matches_char("1.2000", '0'), "1.2");
    assert_eq!(trim_end_matches_char("000", '0'), "");
}
