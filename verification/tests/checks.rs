use xcount::appconfig::{chrome_path_problem, AppConfig};
use xcount::utils::{
    parse_count, validate_dir, validate_file, validate_username, validate_usernames, CountText,
    PathKind,
};

#[test]
fn directory_accepted() {
    assert_eq!(validate_dir("./results", PathKind::Directory), Ok("./results".to_string()));
}

#[test]
fn directory_missing() {
    assert_eq!(
        validate_dir("/nope", PathKind::Missing),
        Err("Directory does not exist: /nope".to_string())
    );
}

#[test]
fn directory_is_a_file() {
    assert_eq!(
        validate_dir("users.txt", PathKind::File),
        Err("Path is not a directory: users.txt".to_string())
    );
    assert_eq!(
        validate_dir("/dev/null", PathKind::Other),
        Err("Path is not a directory: /dev/null".to_string())
    );
}

#[test]
fn file_accepted() {
    assert_eq!(validate_file("users.txt", PathKind::File), Ok("users.txt".to_string()));
}

#[test]
fn file_missing_or_not_a_file() {
    assert_eq!(
        validate_file("gone.txt", PathKind::Missing),
        Err("File does not exist: gone.txt".to_string())
    );
    assert_eq!(
        validate_file("/tmp", PathKind::Directory),
        Err("Path is not a file: /tmp".to_string())
    );
}

#[test]
fn good_usernames() {
    for u in ["daviddanielng", "elonmusk", "a", "_", "abc_123", "fifteen_chars15", "ábc"] {
        assert_eq!(validate_username(u), None, "{u:?}");
    }
}

#[test]
fn empty_username() {
    assert_eq!(validate_username(""), Some("`` Username cannot be empty".to_string()));
}

#[test]
fn long_username() {
    assert_eq!(
        validate_username("sixteen_chars_16"),
        Some("`sixteen_chars_16` Username cannot be longer than 15 characters".to_string())
    );
}

#[test]
fn length_counts_bytes() {
    // eight two-byte characters: 16 bytes
    assert_eq!(
        validate_username("éééééééé"),
        Some("`éééééééé` Username cannot be longer than 15 characters".to_string())
    );
    assert_eq!(validate_username("ééééééé"), None);
}

#[test]
fn bad_characters() {
    for u in ["a-b", "a b", "a.b", "@abc", "x!"] {
        assert_eq!(
            validate_username(u),
            Some(format!("`{u}` Username can only contain letters, numbers, and underscores")),
        );
    }
}

#[test]
fn first_bad_username_is_reported() {
    let names = vec!["good".to_string(), "bad-one".to_string(), "".to_string()];
    assert_eq!(
        validate_usernames(&names),
        Some("`bad-one` Username can only contain letters, numbers, and underscores".to_string())
    );
    let fine = vec!["a".to_string(), "b_2".to_string()];
    assert_eq!(validate_usernames(&fine), None);
    assert_eq!(validate_usernames(&Vec::new()), None);
}

#[test]
fn whole_counts() {
    assert_eq!(parse_count("418"), CountText::Whole(418));
    assert_eq!(parse_count(" 1,234 "), CountText::Whole(1234));
    assert_eq!(parse_count("abc"), CountText::Whole(0));
    assert_eq!(parse_count(""), CountText::Whole(0));
}

#[test]
fn suffixed_counts() {
    assert_eq!(
        parse_count("418K"),
        CountText::Scaled { mantissa: "418".to_string(), factor: 1_000 }
    );
    assert_eq!(
        parse_count(" 1.2M "),
        CountText::Scaled { mantissa: "1.2".to_string(), factor: 1_000_000 }
    );
    assert_eq!(
        parse_count("3 b"),
        CountText::Scaled { mantissa: "3".to_string(), factor: 1_000_000_000 }
    );
    assert_eq!(
        parse_count("1,5k"),
        CountText::Scaled { mantissa: "15".to_string(), factor: 1_000 }
    );
}

#[test]
fn config_holds_path() {
    let p = "/usr/bin/chromium".to_string();
    assert_eq!(AppConfig::new(&p).exe_path, "/usr/bin/chromium");
}

#[test]
fn chrome_path_checks() {
    assert_eq!(chrome_path_problem("/usr/bin/chrome", PathKind::File), None);
    assert_eq!(
        chrome_path_problem("/usr/bin/chrome", PathKind::Missing),
        Some("/usr/bin/chrome: No such file ".to_string())
    );
    assert_eq!(
        chrome_path_problem("/usr/bin", PathKind::Directory),
        Some("/usr/bin: Not a file".to_string())
    );
}

#[test]
fn whole_numbers_read_back() {
    for n in [0u64, 7, 418, 1_000_000, u64::MAX] {
        assert_eq!(parse_count(&n.to_string()), CountText::Whole(n));
    }
}

#[test]
fn suffix_case_does_not_matter() {
    for s in ["418k", "1.2m", "3b", " 1,234 ", "abc", "12"] {
        assert_eq!(parse_count(s), parse_count(&s.to_ascii_uppercase()), "{s:?}");
    }
}
