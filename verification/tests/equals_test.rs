use k9::{assert_equal, make_assertion_impl, Assertion, BuildSystem, Config};

fn setup_test_env() -> Config {
    colored::control::set_override(true);
    let mut config = Config::new(false, false, BuildSystem::Cargo, true);
    k9::set_panic(&mut config, false);
    k9::set_terminal_with_override(&mut config, 100);
    config
}

fn strip_ansi(s: &str) -> String {
    String::from_utf8(strip_ansi_escapes::strip(s)).expect("not a utf8 string")
}

fn assertion_message(m: Option<Assertion>, config: &Config) -> String {
    strip_ansi(&m.expect("Assertion must fail").get_failure_message(config))
}

fn named_equal_assertion<T1, T2>(
    left: T1,
    right: T2,
    fail: bool,
    args_str: &str,
    description: Option<&str>,
    config: &Config,
) -> Option<Assertion>
where
    T1: std::fmt::Debug + PartialEq,
    T2: std::fmt::Debug + PartialEq,
{
    let failure = assert_equal(&left, &right, fail, config);
    make_assertion_impl("assert_equal", args_str.to_string(), failure, description)
}

#[test]
fn test_assert_equal() {
    let config = setup_test_env();

    assert!(named_equal_assertion(1, 1, 1 != 1, "1, 1", None, &config).is_none());
    let lol = String::from("lol");
    assert!(named_equal_assertion("lol", &lol, "lol" != lol, "\"lol\", &String::from(\"lol\")", None, &config).is_none());

    assert_eq!(
        assertion_message(named_equal_assertion(2, 9, 2 != 9, "2, 9", None, &config), &config),
        "
━━━━━━━━━━━━━━━━━━━━━━━━━━━━━━━━━━━━━━━━━━━━━━━━━━━━━━━━━━━━━━━━━━━━━━━━━━━━━━━━━━━━━━━━━━━━━━━━━━━━
assert_equal!(2, 9);

Assertion Failure!


Expected `Left` to equal `Right`:

- 2
+ 9

━━━━━━━━━━━━━━━━━━━━━━━━━━━━━━━━━━━━━━━━━━━━━━━━━━━━━━━━━━━━━━━━━━━━━━━━━━━━━━━━━━━━━━━━━━━━━━━━━━━━
"
    );
    assert_eq!("hello", "hello");
    assert!(named_equal_assertion(
        123,
        123,
        123 != 123,
        "123, 123",
        Some("Expected two integers to be the same"),
        &config
    )
    .is_none());
}

#[test]
fn type_inference() {
    let config = setup_test_env();
    assert_eq!(1, "1".parse().unwrap());
    // the comparison's own type must drive the parse
    let parsed: i32 = "1".parse().unwrap();
    assert!(named_equal_assertion(1, parsed, 1 != parsed, "1, \"1\".parse().unwrap()", None, &config).is_none());
}

#[test]
fn equals_test_with_context() {
    let config = setup_test_env();
    assert_eq!(
        assertion_message(
            named_equal_assertion(
                1,
                2,
                1 != 2,
                "1, 2, \"Expected those two things to be equal\"",
                Some("Expected those two things to be equal"),
                &config
            ),
            &config
        ),
        "
━━━━━━━━━━━━━━━━━━━━━━━━━━━━━━━━━━━━━━━━━━━━━━━━━━━━━━━━━━━━━━━━━━━━━━━━━━━━━━━━━━━━━━━━━━━━━━━━━━━━
assert_equal!(1, 2, \"Expected those two things to be equal\");

Expected those two things to be equal


Expected `Left` to equal `Right`:

- 1
+ 2

━━━━━━━━━━━━━━━━━━━━━━━━━━━━━━━━━━━━━━━━━━━━━━━━━━━━━━━━━━━━━━━━━━━━━━━━━━━━━━━━━━━━━━━━━━━━━━━━━━━━
"
    );
}

#[test]
fn multiline_struct_equality_test() {
    let config = setup_test_env();
    #[derive(PartialEq, Debug)]
    struct X {
        a: String,
        b: i32,
        c: (String, u32),
        d: Option<()>,
    }

    let x1 = X {
        a: "test".to_string(),
        b: 4,
        c: ("test2".to_string(), 4),
        d: Some(()),
    };

    let x2 = X {
        a: "test".to_string(),
        b: 4,
        c: ("test2".to_string(), 9),
        d: None,
    };

    let fail = x1 != x2;
    let err = named_equal_assertion(x1, x2, fail, "x1, x2", None, &config)
        .expect("must fail")
        .get_failure_message(&config);

    assert_eq!(
        strip_ansi(&err),
        "
━━━━━━━━━━━━━━━━━━━━━━━━━━━━━━━━━━━━━━━━━━━━━━━━━━━━━━━━━━━━━━━━━━━━━━━━━━━━━━━━━━━━━━━━━━━━━━━━━━━━
assert_equal!(x1, x2);

Assertion Failure!


Expected `Left` to equal `Right`:

  X {
      a: \"test\",
      b: 4,
      c: (
          \"test2\",
-         4,
+         9,
      ),
-     d: Some(
-         (),
-     ),
+     d: None,
  }

━━━━━━━━━━━━━━━━━━━━━━━━━━━━━━━━━━━━━━━━━━━━━━━━━━━━━━━━━━━━━━━━━━━━━━━━━━━━━━━━━━━━━━━━━━━━━━━━━━━━
"
    );
}

#[test]
fn collapsed_output() {
    let config = setup_test_env();
    assert_eq!(
        assertion_message(
            named_equal_assertion(
                vec![1, 2],
                vec![1, 3],
                vec![1, 2] != vec![1, 3],
                "vec![1, 2], vec![1, 3]",
                None,
                &config
            ),
            &config
        ),
        "
━━━━━━━━━━━━━━━━━━━━━━━━━━━━━━━━━━━━━━━━━━━━━━━━━━━━━━━━━━━━━━━━━━━━━━━━━━━━━━━━━━━━━━━━━━━━━━━━━━━━
assert_equal!(vec![1, 2], vec![1, 3]);

Assertion Failure!


Expected `Left` to equal `Right`:

  [
      1,
-     2,
+     3,
  ]

━━━━━━━━━━━━━━━━━━━━━━━━━━━━━━━━━━━━━━━━━━━━━━━━━━━━━━━━━━━━━━━━━━━━━━━━━━━━━━━━━━━━━━━━━━━━━━━━━━━━
"
    );

    let mut v1 = generate_random_vectors(1, 30);
    let mut v2 = generate_random_vectors(1, 30);
    v2[2] = 98;
    v2[25] = 98;
    assert_eq!(
        assertion_message(named_equal_assertion(v1.clone(), v2.clone(), v1 != v2, "v1, v2", None, &config), &config),
        "
━━━━━━━━━━━━━━━━━━━━━━━━━━━━━━━━━━━━━━━━━━━━━━━━━━━━━━━━━━━━━━━━━━━━━━━━━━━━━━━━━━━━━━━━━━━━━━━━━━━━
assert_equal!(v1, v2);

Assertion Failure!


Expected `Left` to equal `Right`:

  [
      1,
      2,
-     3,
+     98,
      4,
      5,
...   18 lines collapsed
      24,
      25,
-     26,
+     98,
      27,
      28,
      29,
  ]

━━━━━━━━━━━━━━━━━━━━━━━━━━━━━━━━━━━━━━━━━━━━━━━━━━━━━━━━━━━━━━━━━━━━━━━━━━━━━━━━━━━━━━━━━━━━━━━━━━━━
"
    );

    v1 = generate_random_vectors(1, 100);
    v2 = generate_random_vectors(1, 100);
    v2[1] = 98;
    v2[45] = 98;
    v2[56] = 98;
    v2[85] = 98;
    assert_eq!(
        assertion_message(named_equal_assertion(v1.clone(), v2.clone(), v1 != v2, "v1, v2", None, &config), &config),
        "
━━━━━━━━━━━━━━━━━━━━━━━━━━━━━━━━━━━━━━━━━━━━━━━━━━━━━━━━━━━━━━━━━━━━━━━━━━━━━━━━━━━━━━━━━━━━━━━━━━━━
assert_equal!(v1, v2);

Assertion Failure!


Expected `Left` to equal `Right`:

  [
      1,
-     2,
+     98,
      3,
      4,
...   40 lines collapsed
      45,
-     46,
+     98,
      47,
      48,
...   6 lines collapsed
      55,
      56,
-     57,
+     98,
      58,
      59,
...   24 lines collapsed
      84,
      85,
-     86,
+     98,
      87,
      88,
...   10 lines collapsed
      99,
  ]

━━━━━━━━━━━━━━━━━━━━━━━━━━━━━━━━━━━━━━━━━━━━━━━━━━━━━━━━━━━━━━━━━━━━━━━━━━━━━━━━━━━━━━━━━━━━━━━━━━━━
"
    );

    v1 = generate_random_vectors(1, 15);
    v2 = generate_random_vectors(1, 15);
    v2[1] = 98;
    assert_eq!(
        assertion_message(named_equal_assertion(v1.clone(), v2.clone(), v1 != v2, "v1, v2", None, &config), &config),
        "
━━━━━━━━━━━━━━━━━━━━━━━━━━━━━━━━━━━━━━━━━━━━━━━━━━━━━━━━━━━━━━━━━━━━━━━━━━━━━━━━━━━━━━━━━━━━━━━━━━━━
assert_equal!(v1, v2);

Assertion Failure!


Expected `Left` to equal `Right`:

  [
      1,
-     2,
+     98,
      3,
      4,
      5,
      6,
      7,
      8,
      9,
      10,
      11,
      12,
      13,
      14,
  ]

━━━━━━━━━━━━━━━━━━━━━━━━━━━━━━━━━━━━━━━━━━━━━━━━━━━━━━━━━━━━━━━━━━━━━━━━━━━━━━━━━━━━━━━━━━━━━━━━━━━━
"
    );
}

fn generate_random_vectors(from: u64, to: u64) -> Vec<u64> {
    (from..to).into_iter().collect::<Vec<_>>()
}

#[test]
fn custom_comparison_formatters_test_test_assert_hash_sets_large_diff_without_custom_format() {
    let config = setup_test_env();

    let s1 = std::collections::HashSet::<i32>::from_iter(1..100);
    let s2 = std::collections::HashSet::<i32>::from_iter(1..101);

    let fail = s1 != s2;
    let message = assertion_message(
        make_assertion_impl(
            "assert_equal",
            "s1, s2".to_string(),
            assert_equal(&s1, &s2, fail, &config),
            None,
        ),
        &config,
    );

    // since the order is randomized, we expect multiple insertions and removals
    assert!(fail);
    assert!(fail);
    assert!(message.matches('-').count() > 1);
    assert!(message.matches('+').count() > 1);
}

#[test]
fn custom_comparison_formatters_test_test_assert_hash_maps_large_diff_without_custom_format() {
    let config = setup_test_env();

    let s1 = std::collections::HashMap::<i32, i32>::from_iter((1..100).zip(1..100));
    let s2 = std::collections::HashMap::<i32, i32>::from_iter((1..101).zip(1..101));

    let fail = s1 != s2;
    let message = assertion_message(
        make_assertion_impl(
            "assert_equal",
            "s1, s2".to_string(),
            assert_equal(&s1, &s2, fail, &config),
            None,
        ),
        &config,
    );

    assert!(fail);
    assert!(message.matches('-').count() > 1);
    assert!(message.matches('+').count() > 1);
}

#[test]
fn custom_comparison_formatters_test_test_assert_hash_sets_small_diff_with_custom_format() {
    let config = setup_test_env();

    let s1 = std::collections::HashSet::<i32>::from_iter(1..10);
    let s2 = std::collections::HashSet::<i32>::from_iter(1..11);

    // an order-independent rendering: the sets sorted before diffing
    let b1 = std::collections::BTreeSet::from_iter(s1.iter());
    let b2 = std::collections::BTreeSet::from_iter(s2.iter());
    let fail = s1 != s2;
    let message = assertion_message(
        make_assertion_impl(
            "assert_equal",
            "s1, s2".to_string(),
            assert_equal(&b1, &b2, fail, &config),
            None,
        ),
        &config,
    );

    assert_eq!(
        message,
        r##"
━━━━━━━━━━━━━━━━━━━━━━━━━━━━━━━━━━━━━━━━━━━━━━━━━━━━━━━━━━━━━━━━━━━━━━━━━━━━━━━━━━━━━━━━━━━━━━━━━━━━
assert_equal!(s1, s2);

Assertion Failure!


Expected `Left` to equal `Right`:

  {
      1,
      2,
      3,
      4,
      5,
      6,
      7,
      8,
      9,
+     10,
  }

━━━━━━━━━━━━━━━━━━━━━━━━━━━━━━━━━━━━━━━━━━━━━━━━━━━━━━━━━━━━━━━━━━━━━━━━━━━━━━━━━━━━━━━━━━━━━━━━━━━━
"##
    );
}

#[test]
fn custom_comparison_formatters_test_test_assert_hash_maps_small_diff_with_custom_format() {
    let config = setup_test_env();

    let s1 = std::collections::HashMap::<i32, i32>::from_iter((1..10).zip(1..10));
    let s2 = std::collections::HashMap::<i32, i32>::from_iter((1..11).zip(1..11));

    let b1 = std::collections::BTreeMap::from_iter(s1.iter());
    let b2 = std::collections::BTreeMap::from_iter(s2.iter());
    let fail = s1 != s2;
    let message = assertion_message(
        make_assertion_impl(
            "assert_equal",
            "s1, s2".to_string(),
            assert_equal(&b1, &b2, fail, &config),
            None,
        ),
        &config,
    );

    assert_eq!(
        message,
        r##"
━━━━━━━━━━━━━━━━━━━━━━━━━━━━━━━━━━━━━━━━━━━━━━━━━━━━━━━━━━━━━━━━━━━━━━━━━━━━━━━━━━━━━━━━━━━━━━━━━━━━
assert_equal!(s1, s2);

Assertion Failure!


Expected `Left` to equal `Right`:

  {
      1: 1,
      2: 2,
      3: 3,
      4: 4,
      5: 5,
      6: 6,
      7: 7,
      8: 8,
      9: 9,
+     10: 10,
  }

━━━━━━━━━━━━━━━━━━━━━━━━━━━━━━━━━━━━━━━━━━━━━━━━━━━━━━━━━━━━━━━━━━━━━━━━━━━━━━━━━━━━━━━━━━━━━━━━━━━━
"##
    );
}

#[test]
fn custom_comparison_formatters_test_test_assert_hash_sets_large_diff_when_type_is_not_ord() {
    let config = setup_test_env();

    #[derive(PartialEq, Eq, Debug, Hash)]
    struct MyInt(i32);

    let s1 = std::collections::HashSet::<MyInt>::from_iter((1..100).map(MyInt));
    let s2 = std::collections::HashSet::<MyInt>::from_iter((1..101).map(MyInt));

    let fail = s1 != s2;
    let message = assertion_message(
        make_assertion_impl(
            "assert_equal",
            "s1, s2".to_string(),
            assert_equal(&s1, &s2, fail, &config),
            None,
        ),
        &config,
    );

    assert!(fail);
    assert!(message.matches('-').count() > 1);
    assert!(message.matches('+').count() > 1);
}

#[test]
fn custom_comparison_formatters_test_test_assert_hash_maps_large_diff_when_type_is_not_ord() {
    let config = setup_test_env();

    #[derive(PartialEq, Eq, Debug, Hash)]
    struct MyInt(i32);

    let s1 = std::collections::HashMap::<MyInt, i32>::from_iter((1..100).map(|i| (MyInt(i), i)));
    let s2 = std::collections::HashMap::<MyInt, i32>::from_iter((1..101).map(|i| (MyInt(i), i)));

    let fail = s1 != s2;
    let message = assertion_message(
        make_assertion_impl(
            "assert_equal",
            "s1, s2".to_string(),
            assert_equal(&s1, &s2, fail, &config),
            None,
        ),
        &config,
    );

    assert!(fail);
    assert!(message.matches('-').count() > 1);
    assert!(message.matches('+').count() > 1);
}
