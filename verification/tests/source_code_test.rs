use k9::{
    extract_range, find_snapshot_literal_range, join_and_remove_overlap, line_and_column_to_offset,
    remove_overlap, split_by_ranges, LineColumn, Range, SnapshotError,
};

const SOURCE: &str = r##"                       // 1
fn main() {                                         // 2
    let hello = "world";                            // 3
    random_macro!(hello);                           // 4
    hello_macro!(stuff, "literal");                 // 5
    wrong_macro!(stuff, not_a_literal);             // 6
}
"##;

#[test]
fn no_literal() {
    let range = find_snapshot_literal_range(SOURCE, "random_macro", 4, false).unwrap();
    assert_eq!(range.start, range.end);

    assert_eq!(
        format!("{:?}", range),
        r##"Range { start: LineColumn { line: 4, column: 24 }, end: LineColumn { line: 4, column: 24 } }"##
    );
}

#[test]
fn literal() {
    let range = find_snapshot_literal_range(SOURCE, "hello_macro", 5, true).unwrap();

    assert_eq!(
        format!("{:?}", range),
        r##"Range { start: LineColumn { line: 5, column: 25 }, end: LineColumn { line: 5, column: 34 } }"##
    );
}

#[test]
fn not_a_literal_error() {
    let err = find_snapshot_literal_range(SOURCE, "wrong_macro", 6, true).unwrap_err();

    // the offending call's own text travels with the error
    assert_eq!(
        err,
        SnapshotError::MalformedCallSite("wrong_macro!(stuff, not_a_literal)".to_string())
    );
}

#[test]
fn missing_call_is_not_found() {
    // the error reports what was searched for
    assert_eq!(
        find_snapshot_literal_range(SOURCE, "hello_macro", 4, true).unwrap_err(),
        SnapshotError::NotFound { name: "hello_macro".to_string(), line: 4 }
    );
    assert_eq!(
        find_snapshot_literal_range(SOURCE, "absent_macro", 5, true).unwrap_err(),
        SnapshotError::NotFound { name: "absent_macro".to_string(), line: 5 }
    );
    assert_eq!(
        find_snapshot_literal_range("fn main() { let x = ; }", "m", 1, true).unwrap_err(),
        SnapshotError::NotFound { name: "m".to_string(), line: 1 }
    );
    let msg = find_snapshot_literal_range(SOURCE, "absent_macro", 5, true)
        .unwrap_err()
        .message();
    assert_eq!(msg, "no macro call named `absent_macro` was found at line 5");
}

#[test]
fn resolving_argument_tokens() {
    let lit = k9::ArgToken {
        is_literal: true,
        start: LineColumn { line: 5, column: 25 },
        end: LineColumn { line: 5, column: 34 },
    };
    let plain = k9::ArgToken {
        is_literal: false,
        start: LineColumn { line: 5, column: 18 },
        end: LineColumn { line: 5, column: 23 },
    };

    // replace mode takes the trailing literal's exact span
    let r = k9::resolve_snapshot_range(&vec![plain, lit], true, "m!(stuff, \"literal\")", "m", 5)
        .unwrap();
    assert_eq!(r, Range { start: lit.start, end: lit.end });

    // create mode is a zero-width point after the last token
    let r = k9::resolve_snapshot_range(&vec![plain], false, "m!(stuff)", "m", 5).unwrap();
    assert_eq!(r, Range { start: plain.end, end: plain.end });

    // a trailing non-literal in replace mode is malformed
    let e = k9::resolve_snapshot_range(&vec![lit, plain], true, "m!(\"literal\", stuff)", "m", 5)
        .unwrap_err();
    assert_eq!(e, SnapshotError::MalformedCallSite("m!(\"literal\", stuff)".to_string()));

    // nothing to resolve without argument tokens
    assert_eq!(
        k9::resolve_snapshot_range(&vec![], false, "m!()", "m", 5).unwrap_err(),
        SnapshotError::NotFound { name: "m".to_string(), line: 5 }
    );
}

const CONTENT: &str = r##"
Hello World
Random Subset
1234567
"##;

#[test]
fn extracting_range() {
    assert_eq!(
        extract_range(
            CONTENT,
            &Range {
                start: LineColumn { line: 2, column: 1 },
                end: LineColumn { line: 2, column: 6 }
            }
        )
        .as_str(),
        "Hello"
    );
}

#[test]
fn empty_range() {
    assert_eq!(
        extract_range(
            CONTENT,
            &Range {
                start: LineColumn { line: 2, column: 1 },
                end: LineColumn { line: 2, column: 1 }
            }
        )
        .as_str(),
        ""
    );
}

#[test]
fn overflow() {
    assert_eq!(
        extract_range(
            CONTENT,
            &Range {
                start: LineColumn { line: 99, column: 1 },
                end: LineColumn { line: 199, column: 1 }
            }
        )
        .as_str(),
        ""
    );
}

#[test]
fn multiline_extract() {
    assert_eq!(
        extract_range(
            CONTENT,
            &Range {
                start: LineColumn { line: 2, column: 7 },
                end: LineColumn { line: 3, column: 7 }
            }
        )
        .as_str(),
        "World\nRandom"
    );
}

#[test]
fn split_by_ranges_cuts_chunks() {
    let r1 = Range {
        start: LineColumn { line: 2, column: 1 },
        end: LineColumn { line: 2, column: 6 },
    };
    let r2 = Range {
        start: LineColumn { line: 4, column: 1 },
        end: LineColumn { line: 4, column: 8 },
    };
    let chunks = split_by_ranges(CONTENT.to_string(), &vec![r1, r2]).unwrap();
    assert_eq!(chunks, vec![
        "\n".to_string(),
        " World\nRandom Subset\n".to_string(),
        "\n".to_string(),
    ]);

    // ranges touching the same line collide
    let overlapping = split_by_ranges(CONTENT.to_string(), &vec![r1, r1]).unwrap_err();
    assert_eq!(overlapping, SnapshotError::OverlappingRanges);

    // a range outside the text is refused
    let outside = Range {
        start: LineColumn { line: 99, column: 1 },
        end: LineColumn { line: 99, column: 1 },
    };
    assert_eq!(
        split_by_ranges(CONTENT.to_string(), &vec![outside]).unwrap_err(),
        SnapshotError::InvalidRange
    );
}

const CODE: &str = r#"fn main() {
    assert_equal!((1, 2), (2, 4));
    println!("{}", "hello world");
}

pub fn test() {
    assert_greater_than!(1, 2);
    assert_matches_inline_snapshot!("hello", "howdy");
}
"#;

fn first_index(s: &str, substring: &str) -> u32 {
    s.match_indices(substring).collect::<Vec<_>>().pop().unwrap().0 as u32
}

#[test]
fn test_line_and_column_to_offset() {
    assert_eq!(line_and_column_to_offset(CODE, 1, 1), Ok(0));
    assert_eq!(
        line_and_column_to_offset(CODE, 7, 5),
        Ok(first_index(CODE, "assert_greater_than"))
    );
    let err = line_and_column_to_offset(CODE, 1, 99).unwrap_err();
    assert_eq!(err, "line `1` have `11` characters and doesn't have `99` column");
    // a line beyond the text reports the accumulated byte count
    assert_eq!(line_and_column_to_offset(CODE, 99, 1), Ok(CODE.len() as u32));
    assert_eq!(line_and_column_to_offset("abc", 9, 1), Ok(4));
}

#[test]
fn remove_path_overlap_test() {
    let join = |l: &str, r: &str| join_and_remove_overlap(l, r).unwrap();

    assert_eq!(join("hello/world", "world/hello"), "hello/world/hello");

    assert_eq!(join("a/b/c/d/e/f/g", "c/d/e/f/g/h/i"), "a/b/c/d/e/f/g/h/i");

    assert_eq!(join("a/b/c", "a/b/c"), "a/b/c");

    // no overlap, similar directories
    assert_eq!(join("a/b/c/d", "a/b/c"), "a/b/c/d/a/b/c");

    assert_eq!(
        join("/home/workspace/my_crate", "my_crate/my_file"),
        "/home/workspace/my_crate/my_file"
    );
}

#[test]
fn remove_overlap_drops_shared_run() {
    let base = |l: &str, r: &str| remove_overlap(l, r).unwrap();

    assert_eq!(base("hello/world", "world/hello"), "hello");
    assert_eq!(base("a/b/c/d/e/f/g", "c/d/e/f/g/h/i"), "a/b");
    assert_eq!(base("a/b/c", "a/b/c"), "");
    assert_eq!(base("a/b/c/d", "a/b/c"), "a/b/c/d");
    assert_eq!(base("/home/workspace/my_crate", "my_crate/my_file"), "/home/workspace");
    assert_eq!(
        base("/Users/me/p/gull/gull", "gull/e2e/flow_codegen_test.rs"),
        "/Users/me/p/gull"
    );

    // an absolute right-hand path cannot be joined, nor one with
    // relative components
    assert!(remove_overlap("a/b", "/c").is_err());
    assert!(join_and_remove_overlap("a/b", "/c").is_err());
    assert!(remove_overlap("x", "../a").is_err());
    assert!(remove_overlap("x", "./a").is_err());
    assert!(join_and_remove_overlap("x", "a/../b").is_err());
}
