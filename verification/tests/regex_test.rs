use k9::{try_assert_err_matches_regex, try_assert_matches_regex};

fn strip_ansi(s: &str) -> String {
    String::from_utf8(strip_ansi_escapes::strip(s)).expect("not a utf8 string")
}

#[test]
fn matches_regex_test_test_assert_equal() {
    colored::control::set_override(true);
    try_assert_matches_regex("abc", r#"abc"#, None).expect("valid pattern").unwrap();
    try_assert_matches_regex("123-234", "\\d{3}-\\d{3}", None).expect("valid pattern").unwrap();

    let err = try_assert_matches_regex("123-234", "\\d{3}-\\d{5}", None)
        .expect("valid pattern")
        .unwrap_err();

    let plain = strip_ansi(&err.to_string());
    assert!(plain.contains("Expected string:\n  123-234"));
    assert!(plain.contains("to match regex:\n  `\\d{3}-\\d{5}`"));
}

#[test]
fn err_matches_regex_test_test_assert_equal() {
    colored::control::set_override(true);
    let result: Result<(), String> = Err("123 error message".to_string());
    try_assert_err_matches_regex(result, r#"123"#, None).expect("valid pattern").unwrap();

    let result: Result<(), String> = Ok(());
    let assertion_result = try_assert_err_matches_regex(result, r#"123"#, None)
        .expect("valid pattern");
    assert!(assertion_result.is_err());

    let result: Result<(), String> = Err("123 error message".to_string());
    let err = try_assert_err_matches_regex(result, "\\d{3}-\\d{5}", None)
        .expect("valid pattern")
        .unwrap_err();
    let plain = strip_ansi(&err.to_string());
    assert!(plain.contains("to be an `Err(std::fmt::Debug)` that matches \\d{3}-\\d{5}"));
}

#[test]
fn test() {
    colored::control::set_override(true);
    let result: Result<(), String> = Err("123 error message".to_string());
    assert!(try_assert_err_matches_regex(result, r#"123"#, None)
        .expect("valid pattern")
        .is_ok());

    let result: Result<(), String> = Err("123 error message".to_string());
    let err = try_assert_err_matches_regex(result, "\\d{3}-\\d{5}", None)
        .expect("valid pattern")
        .expect_err("must fail");
    assert!(strip_ansi(&err.to_string()).contains("123 error message"));
}

#[test]
fn test_when_ok() {
    colored::control::set_override(true);
    let result: Result<(), String> = Ok(());
    let err = try_assert_err_matches_regex(result, r#"123"#, None)
        .expect("valid pattern")
        .expect_err("must fail");
    assert!(strip_ansi(&err.to_string()).contains("but it was `Ok(T)`"));
}

#[test]
fn invalid_pattern_is_reported() {
    assert!(try_assert_matches_regex("abc", "(unclosed", None).is_none());
    let result: Result<(), String> = Err("e".to_string());
    assert!(try_assert_err_matches_regex(result, "(unclosed", None).is_none());
}
