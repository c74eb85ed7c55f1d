use k9::{
    assert_contains, assert_err, assert_greater_than, assert_greater_than_or_equal,
    assert_lesser_than, assert_lesser_than_or_equal, assert_ok, make_assertion_impl, Assertion,
    BuildSystem, Config,
};

fn setup_test_env() -> Config {
    colored::control::set_override(true);
    let mut config = Config::new(false, false, BuildSystem::Cargo, true);
    k9::set_panic(&mut config, false);
    k9::set_terminal_with_override(&mut config, 100);
    config
}

fn strip_ansi(s: &str) -> String {
    String::from_utf8(strip_ansi_escapes::strip(s)).expect("not a utf8 string")
}

fn message_of(failure: Option<String>, name: &str, args: &str, desc: Option<&str>, config: &Config) -> String {
    let a: Assertion =
        make_assertion_impl(name, args.to_string(), failure, desc).expect("must fail");
    strip_ansi(&a.get_failure_message(config))
}

#[test]
fn test_assert_greater_than() {
    let config = setup_test_env();

    assert!(assert_greater_than(2, 1).is_none());
    assert!(assert_greater_than(1, 1).is_some());

    let failure_message = assert_greater_than(1, 2).expect("must fail");
    assert!(strip_ansi(&failure_message)
        .contains("Expected Left value to be greater than Right value"));
    assert!(strip_ansi(&failure_message).contains("Left value:  1"));
    assert!(strip_ansi(&failure_message).contains("Right value: 2"));

    assert!(assert_greater_than(9.8, 3.14).is_none());
    let _ = message_of(
        assert_greater_than(1, 2),
        "assert_greater_than",
        "1, 2",
        None,
        &config,
    );
}

#[test]
fn greater_than_test_with_context() {
    let config = setup_test_env();
    let err = message_of(
        assert_greater_than(1, 2),
        "assert_greater_than",
        "1, 2, \"Expected left to be greater than right\"",
        Some("Expected left to be greater than right"),
        &config,
    );
    assert!(err.contains("Expected left to be greater than right"));
    assert!(err.contains("Expected Left value to be greater than Right value"));
}

#[test]
fn test_assert_greater_than_or_equal() {
    setup_test_env();
    assert!(assert_greater_than_or_equal(2, 1).is_none());
    assert!(assert_greater_than_or_equal(1, 1).is_none());
    let msg = assert_greater_than_or_equal(1, 2).expect("must fail");
    assert!(strip_ansi(&msg)
        .contains("Expected Left value to be greater than or equal to Right value"));
}

#[test]
fn greater_than_or_equal_test_with_context() {
    let config = setup_test_env();
    let err = message_of(
        assert_greater_than_or_equal(1, 2),
        "assert_greater_than_or_equal",
        "1, 2, \"context\"",
        Some("context"),
        &config,
    );
    assert!(err.contains("context"));
}

#[test]
fn test_assert_lesser_than() {
    setup_test_env();
    assert!(assert_lesser_than(1, 2).is_none());
    assert!(assert_lesser_than(2, 1).is_some());
    let msg = strip_ansi(&assert_lesser_than(1, 1).expect("must fail"));
    assert!(msg.contains("Expected Left value to be lesser than Right value,\nbut they were equal"));
}

#[test]
fn lesser_than_test_with_context() {
    let config = setup_test_env();
    let err = message_of(
        assert_lesser_than(2, 1),
        "assert_lesser_than",
        "2, 1, \"context\"",
        Some("context"),
        &config,
    );
    assert!(err.contains("context"));
}

#[test]
fn test_assert_lesser_than_or_equal() {
    setup_test_env();
    assert!(assert_lesser_than_or_equal(1, 2).is_none());
    assert!(assert_lesser_than_or_equal(1, 1).is_none());
    assert!(assert_lesser_than_or_equal(2, 1).is_some());
}

#[test]
fn lesser_than_or_equal_test_with_context() {
    let config = setup_test_env();
    let err = message_of(
        assert_lesser_than_or_equal(2, 1),
        "assert_lesser_than_or_equal",
        "2, 1, \"context\"",
        Some("context"),
        &config,
    );
    assert!(err.contains("Expected Left value to be lesser than or equal to Right value"));
}

#[test]
fn test_assert_ok() {
    let config = setup_test_env();

    assert!(assert_ok(Result::<_, ()>::Ok(1)).is_none());
    assert!(assert_ok(Result::<_, ()>::Ok(9.8f64)).is_none());
    assert!(assert_ok(Result::<_, ()>::Ok("Hola!")).is_none());
    assert!(assert_ok(Result::<_, ()>::Ok(vec![1, 2, 3])).is_none());
    assert!(assert_ok(Result::<_, ()>::Ok([1, 2, 3])).is_none());
    assert!(assert_ok(Result::<_, ()>::Ok(&[1, 2, 3])).is_none());
    assert!(assert_ok(Result::<_, ()>::Ok("Hello, World!")).is_none());

    assert!(assert_ok(Result::<(), _>::Err("Invalid number")).is_some());
    if let Err(e) = "xc".parse::<u32>() {
        assert!(assert_ok(Result::<(), _>::Err(e)).is_some());
    }

    let failure_message = message_of(
        assert_ok(Result::<(), _>::Err("Parsing Error")),
        "assert_ok",
        "Result::<(), _>::Err(\"Parsing Error\")",
        None,
        &config,
    );
    assert!(failure_message.contains("Expected Value to be Ok(T)"));
    assert!(failure_message.contains("Got: Err(\"Parsing Error\")"));
}

#[test]
fn ok_test_with_context() {
    let config = setup_test_env();
    let err = message_of(
        assert_ok(Result::<(), _>::Err("Version Mismatch!")),
        "assert_ok",
        "Result::<(), _>::Err(\"Version Mismatch!\"), \"Expected Value to be Ok(T)\"",
        Some("Expected Value to be Ok(T)"),
        &config,
    );
    assert!(err.contains("Expected Value to be Ok(T)"));
}

#[test]
fn test_assert_err() {
    let config = setup_test_env();

    assert!(assert_err(Result::<(), _>::Err("Invalid number")).is_none());
    assert!(assert_err(Result::<(), _>::Err("Invalid path")).is_none());

    assert!(assert_err(Result::<_, ()>::Ok(1)).is_some());
    assert!(assert_err(Result::<_, ()>::Ok("Hola!")).is_some());
    assert!(assert_err(Result::<_, ()>::Ok(vec![1, 2, 3])).is_some());

    let failure_message = message_of(
        assert_err(Result::<_, ()>::Ok([1, 2, 3])),
        "assert_err",
        "Result::<_, ()>::Ok([1, 2, 3])",
        None,
        &config,
    );
    assert!(failure_message.contains("Expected Value to be Err(E)"));
}

#[test]
fn err_test_with_context() {
    let config = setup_test_env();
    let err = message_of(
        assert_err(Result::<_, ()>::Ok(1)),
        "assert_err",
        "Result::<_, ()>::Ok(1), \"Expected Value to be Err(T)\"",
        Some("Expected Value to be Err(T)"),
        &config,
    );
    assert!(err.contains("Expected Value to be Err(T)"));
}

#[test]
fn test_assert_contains() {
    let config = setup_test_env();

    assert!(assert_contains(&vec![1, 2, 3, 4, 5], &5).is_none());
    assert!(assert_contains(&[9.8, 3.15], &2.5).is_some());
    assert!(assert_contains(&[9.8, 3.15], &9.8).is_none());
    assert!(assert_contains(&[(1, 2), (2, 3)], &(3, 4)).is_some());
    assert!(assert_contains(&[(1, 2), (2, 3), (3, 4)], &(3, 4)).is_none());

    assert!(assert_contains(&vec!["canine", "k9", "k-9"], &"k-9").is_none());
    assert!(assert_contains(&vec!["a", "b", "c"], &"A").is_some());

    let failure_message = message_of(
        assert_contains(&vec![1, 2], &5),
        "assert_contains",
        "vec![1, 2], 5",
        None,
        &config,
    );
    assert!(failure_message.contains("Expected Left value to contain Right value"));

    assert!(assert_contains(&vec![98, 99], &99).is_none());
}

#[test]
fn contains_test_with_context() {
    let config = setup_test_env();
    let err = message_of(
        assert_contains(&vec![98, 99], &100),
        "assert_contains",
        "vec![98, 99], 100, \"Expected left value to contain right value\"",
        Some("Expected left value to contain right value"),
        &config,
    );
    assert!(err.contains("Expected left value to contain right value"));
}

#[test]
fn smoke_test() {
    let config = setup_test_env();
    let mut ledger = k9::Ledger::new();

    assert!(k9::assert_equal(1, 1, 1 != 1, &config).is_none());

    assert!(assert_err(Result::<(), _>::Err("Error!")).is_none());

    assert!(assert_greater_than(2, 1).is_none());

    assert!(assert_greater_than_or_equal(1, 1).is_none());

    assert!(assert_lesser_than(1, 2).is_none());

    assert!(assert_lesser_than_or_equal(1, 1).is_none());

    assert!(k9::try_assert_matches_regex("abc", "abc", None)
        .expect("valid pattern")
        .is_ok());

    assert!(assert_ok(Result::<_, ()>::Ok(2)).is_none());

    let r = k9::matches_inline_snapshot(
        &mut ledger,
        &config,
        "assert_matches_inline_snapshot",
        format!("{:?}", Some(true)),
        Some("Some(true)"),
        1,
        "lib.rs",
        "",
    )
    .expect("no snapshot machinery runs in read mode");
    assert!(r.is_none());
}

#[test]
fn greater_than_diff_orders_strings() {
    setup_test_env();
    assert!(k9::greater_than_diff("b", "a").is_none());
    assert!(k9::greater_than_diff("a", "b").is_some());
    assert!(k9::greater_than_diff("a", "a").is_some());
    assert!(k9::greater_than_diff("ab", "a").is_none());
}

#[test]
fn my_function_builds_sample_rows() {
    let m = k9::my_function();
    assert_eq!(m.len(), 6);
    assert_eq!(m.get(&3).map(|s| s.as_str()), Some("aaa"));
    assert_eq!(m.get(&8).map(|s| s.as_str()), Some("aaaaaaaa"));
    assert_eq!(m.get(&2), None);
}
