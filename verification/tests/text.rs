use xcount::text::{
    chars_of, eq_ignore_ascii_case, lines, parse_u64, push_decimal, push_decimal2, remove_char,
    split_chars, str_equals, string_from_chars, trim_chars,
};

#[test]
fn parse_plain_numbers() {
    assert_eq!(parse_u64("0"), Some(0));
    assert_eq!(parse_u64("418"), Some(418));
    assert_eq!(parse_u64("+7"), Some(7));
    assert_eq!(parse_u64("007"), Some(7));
    assert_eq!(parse_u64("18446744073709551615"), Some(u64::MAX));
}

#[test]
fn parse_refuses_what_std_refuses() {
    for s in ["", "+", "-1", "1.5", " 1", "1k", "++1", "18446744073709551616", "١٢"] {
        assert_eq!(parse_u64(s), None, "{s:?}");
        assert!(s.parse::<u64>().is_err());
    }
}

#[test]
fn parse_agrees_with_std() {
    for s in ["12", "+0", "99999999999", "4294967296", "0000000000000000000001"] {
        assert_eq!(parse_u64(s), s.parse::<u64>().ok(), "{s:?}");
    }
}

#[test]
fn decimal_digits() {
    let mut s = String::new();
    push_decimal(&mut s, 0);
    push_decimal(&mut s, 1234567890);
    assert_eq!(s, "01234567890");
    let mut t = String::new();
    push_decimal2(&mut t, 7);
    push_decimal2(&mut t, 42);
    push_decimal2(&mut t, 123);
    assert_eq!(t, "0742123");
}

#[test]
fn split_keeps_empty_pieces() {
    assert_eq!(split_chars("a,b,,c", ','), vec!["a", "b", "", "c"]);
    assert_eq!(split_chars("", ','), vec![""]);
    assert_eq!(split_chars(",", ','), vec!["", ""]);
    assert_eq!(split_chars("alone", ','), vec!["alone"]);
}

#[test]
fn split_then_join_gives_the_text_back() {
    for s in ["a,b,,c", "", ",x,", "no separator"] {
        let parts = split_chars(s, ',');
        assert!(!parts.is_empty());
        assert!(parts.iter().all(|p| !p.contains(',')));
        assert_eq!(parts.join(","), s);
    }
}

#[test]
fn lines_like_std() {
    for s in ["a\nb", "a\nb\n", "a\r\nb\r\n", "\n", "", "x\r", "a\n\nb", "\r\n\r\n", "a\rb\n"] {
        let ours = lines(s);
        let std_lines: Vec<&str> = s.lines().collect();
        assert_eq!(ours, std_lines, "{s:?}");
    }
}

#[test]
fn trim_like_std() {
    for s in ["  a b  ", "\t\n x\u{a0}", "\u{3000}y\u{2029}", "", "   ", "z"] {
        let v = chars_of(s);
        let t = string_from_chars(&trim_chars(&v));
        assert_eq!(t, s.trim(), "{s:?}");
    }
}

#[test]
fn remove_commas() {
    let v = chars_of("1,234,567");
    assert_eq!(string_from_chars(&remove_char(&v, ',')), "1234567");
}

#[test]
fn ascii_case_insensitive_equality() {
    assert!(eq_ignore_ascii_case("WizKidAyo", "wizkidayo"));
    assert!(!eq_ignore_ascii_case("wizkid", "wizkidayo"));
    assert!(!eq_ignore_ascii_case("Ä", "ä"));
    assert!(eq_ignore_ascii_case("a_1", "A_1"));
}

#[test]
fn character_equality() {
    assert!(str_equals("json", "json"));
    assert!(!str_equals("json", "JSON"));
    assert!(!str_equals("jso", "json"));
}
