use menemen::text::{
    append_str, cut_after, cut_after_text, cut_before, cut_before_text, find_char, find_sub, from_chars, has_char, matches_at,
    parse_decimal, push_decimal, push_joined, same_text, split, to_chars,
};

fn chars(s: &str) -> Vec<char> {
    s.chars().collect()
}

#[test]
fn chars_and_back() {
    assert_eq!(to_chars("héllo"), vec!['h', 'é', 'l', 'l', 'o']);
    assert_eq!(to_chars(""), Vec::<char>::new());
    assert_eq!(from_chars(&['a', 'ß', 'c']), "aßc");
    assert_eq!(from_chars(&[]), "");
    assert_eq!(from_chars(&to_chars("x=y&z")), "x=y&z");
}

#[test]
fn first_character() {
    assert_eq!(find_char(&chars("a/b/c"), '/'), 1);
    assert_eq!(find_char(&chars("/"), '/'), 0);
    assert_eq!(find_char(&chars("abc"), '/'), 3);
    assert_eq!(find_char(&chars(""), '/'), 0);
}

#[test]
fn first_occurrence() {
    assert_eq!(find_sub(&chars("http://a://b"), &chars("://")), 4);
    assert_eq!(find_sub(&chars("a:/b"), &chars("://")), 4);
    assert_eq!(find_sub(&chars("a:/"), &chars("://")), 3);
    assert_eq!(find_sub(&chars(":://"), &chars("://")), 1);
    assert_eq!(find_sub(&chars("abc"), &chars("")), 0);
    assert_eq!(find_sub(&chars(""), &chars("x")), 0);
    assert!(matches_at(&chars("abc"), &chars("bc"), 1));
    assert!(!matches_at(&chars("abc"), &chars("bc"), 2));
    assert!(!matches_at(&chars("abc"), &chars("bc"), 7));
    assert!(matches_at(&chars("abc"), &chars(""), 3));
    assert!(!matches_at(&chars("abc"), &chars(""), 4));
}

#[test]
fn splitting() {
    let text = chars("a//b/");
    let pieces: Vec<String> = split(&text, '/').iter().map(|p| from_chars(p)).collect();
    assert_eq!(pieces, vec!["a", "", "b", ""]);
    let text = chars("abc");
    let pieces: Vec<String> = split(&text, '/').iter().map(|p| from_chars(p)).collect();
    assert_eq!(pieces, vec!["abc"]);
    let text = chars("");
    let pieces: Vec<String> = split(&text, '/').iter().map(|p| from_chars(p)).collect();
    assert_eq!(pieces, vec![""]);
}

#[test]
fn joining() {
    let mut out = String::from(">");
    push_joined(
        &mut out,
        &vec!["a".to_string(), "".to_string(), "b".to_string()],
        '/',
    );
    assert_eq!(out, ">a//b");
    let mut out = String::from(">");
    push_joined(&mut out, &vec![], '/');
    assert_eq!(out, ">");
    push_joined(&mut out, &vec!["x".to_string()], '/');
    assert_eq!(out, ">x");
    append_str(&mut out, "yz");
    assert_eq!(out, ">xyz");
}

#[test]
fn reading_numerals() {
    assert_eq!(parse_decimal(&chars("0"), 65535), Some(0));
    assert_eq!(parse_decimal(&chars("8080"), 65535), Some(8080));
    assert_eq!(parse_decimal(&chars("+8080"), 65535), Some(8080));
    assert_eq!(parse_decimal(&chars("00080"), 65535), Some(80));
    assert_eq!(parse_decimal(&chars("65535"), 65535), Some(65535));
    assert_eq!(parse_decimal(&chars("65536"), 65535), None);
    assert_eq!(parse_decimal(&chars("655350"), 65535), None);
    assert_eq!(parse_decimal(&chars(""), 65535), None);
    assert_eq!(parse_decimal(&chars("+"), 65535), None);
    assert_eq!(parse_decimal(&chars("++1"), 65535), None);
    assert_eq!(parse_decimal(&chars("-1"), 65535), None);
    assert_eq!(parse_decimal(&chars("1 "), 65535), None);
    assert_eq!(parse_decimal(&chars(" 1"), 65535), None);
    assert_eq!(parse_decimal(&chars("1a"), 65535), None);
    assert_eq!(parse_decimal(&chars("99999999999999999999x"), 65535), None);
    assert_eq!(parse_decimal(&chars("٣"), 65535), None);
    assert_eq!(
        parse_decimal(&chars("18446744073709551615"), u64::MAX),
        Some(u64::MAX)
    );
    assert_eq!(parse_decimal(&chars("18446744073709551616"), u64::MAX), None);
    assert_eq!(parse_decimal(&chars("7"), 0), None);
    assert_eq!(parse_decimal(&chars("000"), 0), Some(0));
}

#[test]
fn writing_numerals() {
    for (n, text) in [
        (0u64, "0"),
        (9, "9"),
        (10, "10"),
        (443, "443"),
        (65535, "65535"),
        (u64::MAX, "18446744073709551615"),
    ] {
        let mut out = String::from("#");
        push_decimal(&mut out, n);
        assert_eq!(out, format!("#{}", text));
        assert_eq!(parse_decimal(&chars(text), u64::MAX), Some(n));
    }
}

#[test]
fn cutting_at_the_first_separator() {
    let text = chars("a=b=c");
    assert_eq!(from_chars(cut_before(&text, '=')), "a");
    assert_eq!(from_chars(cut_after(&text, '=')), "b=c");
    let text = chars("abc");
    assert_eq!(from_chars(cut_before(&text, '=')), "abc");
    assert_eq!(from_chars(cut_after(&text, '=')), "");
    let text = chars("=");
    assert_eq!(from_chars(cut_before(&text, '=')), "");
    assert_eq!(from_chars(cut_after(&text, '=')), "");
    assert!(has_char(&chars("a=b"), '='));
    assert!(!has_char(&chars("ab"), '='));
    assert!(!has_char(&chars(""), '='));
}

#[test]
fn comparing_texts() {
    assert!(same_text(&chars("https"), &chars("https")));
    assert!(!same_text(&chars("https"), &chars("http")));
    assert!(!same_text(&chars("http"), &chars("https")));
    assert!(!same_text(&chars("https"), &chars("httpx")));
    assert!(same_text(&chars(""), &chars("")));
}

#[test]
fn cutting_at_the_first_occurrence() {
    let text = chars("Date: Tue: 10");
    let sep = chars(": ");
    assert_eq!(from_chars(cut_before_text(&text, &sep)), "Date");
    assert_eq!(from_chars(cut_after_text(&text, &sep)), "Tue: 10");
    let text = chars("Name:value");
    assert_eq!(from_chars(cut_before_text(&text, &sep)), "Name:value");
    assert_eq!(from_chars(cut_after_text(&text, &sep)), "");
    let text = chars("ab: ");
    assert_eq!(from_chars(cut_before_text(&text, &sep)), "ab");
    assert_eq!(from_chars(cut_after_text(&text, &sep)), "");
}
