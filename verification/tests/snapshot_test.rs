use k9::{
    make_literal, matches_inline_snapshot, schedule_snapshot_update, snapshot_internal, unquote,
    update_inline_snapshots, value_to_string, BuildSystem, Config, Ledger, SnapshotError,
    UpdateInlineSnapshotMode,
};

fn read_config() -> Config {
    colored::control::set_override(true);
    let mut config = Config::new(false, false, BuildSystem::Cargo, true);
    k9::set_panic(&mut config, false);
    k9::set_terminal_with_override(&mut config, 100);
    config
}

fn update_config() -> Config {
    let mut config = read_config();
    config.update_mode = true;
    config
}

#[test]
fn inline_snapshot() {
    let mut ledger = Ledger::new();
    let config = read_config();
    let r = matches_inline_snapshot(
        &mut ledger,
        &config,
        "assert_matches_inline_snapshot",
        format!("{}", std::f64::consts::E),
        Some(r##"2.718281828459045"##),
        5,
        "basic_tests.rs",
        "",
    )
    .unwrap();
    assert!(r.is_none());
    let r = matches_inline_snapshot(
        &mut ledger,
        &config,
        "assert_matches_inline_snapshot",
        format!("{}", std::f64::consts::E),
        Some(r##"2.718281828459045"##),
        8,
        "basic_tests.rs",
        "",
    )
    .unwrap();
    assert!(r.is_none());
}

#[test]
fn passing() {}

#[test]
fn test_matches_inline_snapshot() {
    let mut ledger = Ledger::new();
    let config = read_config();
    let r = matches_inline_snapshot(
        &mut ledger,
        &config,
        "assert_matches_inline_snapshot",
        "1234567890".repeat(5).chars().rev().collect::<String>(),
        Some("09876543210987654321098765432109876543210987654321"),
        2,
        "matches_inline_snapshot_test.rs",
        "",
    )
    .unwrap();
    assert!(r.is_none());
}

#[test]
fn experimental_snapshot() {
    let mut ledger = Ledger::new();
    let config = read_config();
    let r = snapshot_internal(
        &mut ledger,
        &config,
        "snapshot",
        "Hello\nWorld",
        Some("\nHello\nWorld\n"),
        5,
        "snapshots_experimental.rs",
        "",
    )
    .unwrap();
    assert!(r.is_none());

    let map: std::collections::BTreeSet<u8> = vec![1, 2, 3, 0, 5, 8].into_iter().collect();
    assert_eq!(value_to_string(&map), "\n{\n    0,\n    1,\n    2,\n    3,\n    5,\n    8,\n}\n");

    assert_eq!(
        make_literal("uses single quotes for literal").unwrap(),
        "\"uses single quotes for literal\""
    );

    assert_eq!(
        make_literal(r#"should"not"use"quotes"in"literal"#).unwrap(),
        r##"r#"should"not"use"quotes"in"literal"#"##
    );

    assert_eq!(
        make_literal(r####"should use more than two "## for escaping"####).unwrap(),
        r####"r###"should use more than two "## for escaping"###"####
    );
}

#[test]
fn json_serialization() {
    assert_eq!(
        value_to_string(r#"{"key": ["value1", "value2"]}"#),
        r#"{"key": ["value1", "value2"]}"#
    );
}

#[test]
fn single_quotes_r_str() {
    assert_eq!(
        value_to_string(r#"this is 'wrapped' in single quotes in # string"#),
        "this is 'wrapped' in single quotes in # string"
    );
}

#[test]
fn escaped_single_quotes() {
    assert_eq!(
        value_to_string("this is \'wrapped\' in escaped single quotes"),
        "this is 'wrapped' in escaped single quotes"
    );
}

#[test]
fn single_quotes() {
    assert_eq!(
        value_to_string("this is 'wrapped' in single quotes"),
        "this is 'wrapped' in single quotes"
    );
}

#[test]
fn escaped_double_quotes() {
    assert_eq!(
        value_to_string("this is an escaped \" double quote "),
        r#"this is an escaped " double quote "#
    );
}

#[test]
fn double_quotes_r_str() {
    assert_eq!(
        value_to_string(r#"this is an double " qote inside # stirng"#),
        r#"this is an double " qote inside # stirng"#
    );
}

#[test]
fn newline_escaping_serialization() {
    // an annoying side effect: a literal backslash-n gets double
    // escaped by the structural rendering, and unescaping it leaves a
    // trailing backslash and a real newline
    assert_eq!(
        value_to_string(r#" escaped nl char \n"#),
        "\n escaped nl char \\\n\n"
    );
}

const BASIC_TESTS_SOURCE: &str = r##"
use k9::*;

#[test]
fn inline_snapshot() {
    snapshot!(format!("{}", std::f64::consts::E));
    k9::snapshot!(format!("{}", std::f64::consts::E));
    snapshot!(format!("much to escape--> \"{} <--in here", "#".repeat(7)));
}

#[test]
fn passing() {}
"##;

const BASIC_TESTS_UPDATED: &str = r#########"
use k9::*;

#[test]
fn inline_snapshot() {
    snapshot!(format!("{}", std::f64::consts::E), "2.718281828459045");
    k9::snapshot!(format!("{}", std::f64::consts::E), "2.718281828459045");
    snapshot!(format!("much to escape--> \"{} <--in here", "#".repeat(7)), r########"much to escape--> "####### <--in here"########);
}

#[test]
fn passing() {}
"#########;

#[test]
fn inline_snapshots() {
    let mut ledger = Ledger::new();
    let config = update_config();

    let e = format!("{}", std::f64::consts::E);
    let escaped = format!("much to escape--> \"{} <--in here", "#".repeat(7));
    let calls: Vec<(String, usize)> = vec![(e.clone(), 6), (e, 7), (escaped, 8)];
    for (value, line) in calls {
        let r = matches_inline_snapshot(
            &mut ledger,
            &config,
            "snapshot",
            value,
            None,
            line,
            "basic_tests.rs",
            BASIC_TESTS_SOURCE,
        )
        .unwrap();
        assert!(r.is_none());
    }

    let files = ledger.drain();
    assert_eq!(files.len(), 1);
    let file = files.into_iter().next().unwrap();
    assert_eq!(file.path, "basic_tests.rs");
    let rewritten = update_inline_snapshots(file, BASIC_TESTS_SOURCE).unwrap();
    assert_eq!(rewritten, BASIC_TESTS_UPDATED);

    // a second drain hands out nothing: the edits are consumed once
    assert_eq!(ledger.drain().len(), 0);

    // re-running against the updated literals converges: no new edits
    let mut ledger2 = Ledger::new();
    let e = format!("{}", std::f64::consts::E);
    let r = matches_inline_snapshot(
        &mut ledger2,
        &config,
        "snapshot",
        e,
        Some("2.718281828459045"),
        6,
        "basic_tests.rs",
        BASIC_TESTS_UPDATED,
    )
    .unwrap();
    assert!(r.is_none());
    assert_eq!(ledger2.drain().len(), 0);
}

#[test]
fn end_to_end_create_multiline() {
    // a missing literal is created, wrapped in newlines, and a second
    // run in read mode passes
    let source = "fn a() {}\nfn b() {}\nfn c() {}\nfn d() {}\nassert_snapshot!(compute());\n";
    let mut ledger = Ledger::new();
    let config = update_config();
    let r = matches_inline_snapshot(
        &mut ledger,
        &config,
        "assert_snapshot",
        value_to_string("hello\nworld"),
        None,
        5,
        "scenario.rs",
        source,
    )
    .unwrap();
    assert!(r.is_none());
    let files = ledger.drain();
    assert_eq!(files.len(), 1);
    let rewritten = update_inline_snapshots(files.into_iter().next().unwrap(), source).unwrap();
    assert_eq!(
        rewritten,
        "fn a() {}\nfn b() {}\nfn c() {}\nfn d() {}\nassert_snapshot!(compute(), \"\nhello\nworld\n\");\n"
    );

    // the rewritten literal reads back as the compared text
    let lit = make_literal(&value_to_string("hello\nworld")).unwrap();
    assert_eq!(unquote(&lit).unwrap(), "\nhello\nworld\n");

    let mut ledger2 = Ledger::new();
    let read = read_config();
    let r2 = matches_inline_snapshot(
        &mut ledger2,
        &read,
        "assert_snapshot",
        value_to_string("hello\nworld"),
        Some("\nhello\nworld\n"),
        5,
        "scenario.rs",
        "",
    )
    .unwrap();
    assert!(r2.is_none());
}

#[test]
fn create_and_replace_shapes() {
    // create: a zero-width span right before the closing paren gets the
    // separator and the new literal
    let content = "check(1, 2);";
    let create = k9::InlineSnapshotUpdate {
        range: k9::Range {
            start: k9::LineColumn { line: 1, column: 11 },
            end: k9::LineColumn { line: 1, column: 11 },
        },
        new_value: "1, 2 -> 3".to_string(),
        mode: UpdateInlineSnapshotMode::Create,
    };
    let file = k9::SourceFile {
        content: content.to_string(),
        updates: vec![create],
        path: "shape.rs".to_string(),
    };
    assert_eq!(update_inline_snapshots(file, content).unwrap(), "check(1, 2, \"1, 2 -> 3\");");

    // replace: the old literal's exact span is substituted
    let content = "check(1, 2, \"old\");";
    let replace = k9::InlineSnapshotUpdate {
        range: k9::Range {
            start: k9::LineColumn { line: 1, column: 13 },
            end: k9::LineColumn { line: 1, column: 18 },
        },
        new_value: "new".to_string(),
        mode: UpdateInlineSnapshotMode::Replace,
    };
    let file = k9::SourceFile {
        content: content.to_string(),
        updates: vec![replace],
        path: "shape.rs".to_string(),
    };
    assert_eq!(update_inline_snapshots(file, content).unwrap(), "check(1, 2, \"new\");");
}

#[test]
fn splice_with_no_edits_keeps_every_byte() {
    let content = "fn main() {}\nno trailing newline";
    let file = k9::SourceFile {
        content: content.to_string(),
        updates: vec![],
        path: "keep.rs".to_string(),
    };
    assert_eq!(update_inline_snapshots(file, content).unwrap(), content);

    let chunks = k9::split_by_ranges(content.to_string(), &vec![]).unwrap();
    assert_eq!(chunks, vec![content.to_string()]);
}

#[test]
fn overlapping_edits_are_refused() {
    let edit = |line: usize, value: &str| k9::InlineSnapshotUpdate {
        range: k9::Range {
            start: k9::LineColumn { line, column: 1 },
            end: k9::LineColumn { line, column: 2 },
        },
        new_value: value.to_string(),
        mode: UpdateInlineSnapshotMode::Replace,
    };
    let content = "abc\ndef\n";
    let file = k9::SourceFile {
        content: content.to_string(),
        updates: vec![edit(1, "x"), edit(1, "y")],
        path: "overlap.rs".to_string(),
    };
    assert_eq!(
        update_inline_snapshots(file, content).unwrap_err(),
        SnapshotError::OverlappingRanges
    );
    assert!(SnapshotError::OverlappingRanges.message().contains("one inline snapshot macro per line"));

    // disjoint lines are fine, in either arrival order
    let file = k9::SourceFile {
        content: content.to_string(),
        updates: vec![edit(2, "y"), edit(1, "x")],
        path: "overlap.rs".to_string(),
    };
    assert_eq!(update_inline_snapshots(file, content).unwrap(), "\"x\"bc\n\"y\"ef\n");
}

#[test]
fn concurrent_modification_is_refused() {
    let file = k9::SourceFile {
        content: "captured content".to_string(),
        updates: vec![],
        path: "drifted.rs".to_string(),
    };
    assert_eq!(
        update_inline_snapshots(file, "the file changed meanwhile"),
        Err(SnapshotError::ConcurrentModification)
    );
}

#[test]
fn out_of_bounds_edit_is_refused() {
    let content = "one line\n";
    let file = k9::SourceFile {
        content: content.to_string(),
        updates: vec![k9::InlineSnapshotUpdate {
            range: k9::Range {
                start: k9::LineColumn { line: 99, column: 1 },
                end: k9::LineColumn { line: 199, column: 1 },
            },
            new_value: "x".to_string(),
            mode: UpdateInlineSnapshotMode::Replace,
        }],
        path: "oob.rs".to_string(),
    };
    assert_eq!(update_inline_snapshots(file, content).unwrap_err(), SnapshotError::InvalidRange);
}

#[test]
fn unquotable_snapshot_text_is_refused() {
    let content = "snap!(x);\n";
    let mut ledger = Ledger::new();
    let r = schedule_snapshot_update(
        &mut ledger,
        "enc.rs",
        content,
        "snap",
        1,
        &format!("defeats escaping: \"{}", "#".repeat(255)),
        UpdateInlineSnapshotMode::Create,
    );
    assert!(r.is_ok());
    let files = ledger.drain();
    assert_eq!(
        update_inline_snapshots(files.into_iter().next().unwrap(), content).unwrap_err(),
        SnapshotError::EncodingError
    );
}

#[test]
fn quoting_escalation_round_trips() {
    // a quote character right next to a naive delimiter forces a
    // stronger delimiter, and the literal reads back exactly
    let tricky = "ends with a quote\"";
    let lit = make_literal(tricky).unwrap();
    assert_eq!(lit, "r#\"ends with a quote\"\"#");
    assert_eq!(unquote(&lit).unwrap(), tricky);

    let nested = "holds \"# and \"## already";
    let lit = make_literal(nested).unwrap();
    assert_eq!(lit, "r###\"holds \"# and \"## already\"###");
    assert_eq!(unquote(&lit).unwrap(), nested);

    assert_eq!(make_literal("plain text").unwrap(), "\"plain text\"");
    assert_eq!(unquote("\"plain text\"").unwrap(), "plain text");
    assert_eq!(
        make_literal(&format!("defeats escaping: \"{}", "#".repeat(255))),
        Err(SnapshotError::EncodingError)
    );
    assert_eq!(
        make_literal(&format!("seven marks: \"{}", "#".repeat(7))).unwrap(),
        format!("r{h}\"seven marks: \"{m}\"{h}", h = "#".repeat(8), m = "#".repeat(7))
    );
}

#[test]
fn scheduling_after_the_drain_is_refused() {
    let content = "snap!(x);\n";
    let mut ledger = Ledger::new();
    schedule_snapshot_update(
        &mut ledger,
        "late.rs",
        content,
        "snap",
        1,
        "first",
        UpdateInlineSnapshotMode::Create,
    )
    .unwrap();
    assert_eq!(ledger.drain().len(), 1);

    // the run is ending: a late registration is a logic error, not a
    // silent fresh capture
    let r = schedule_snapshot_update(
        &mut ledger,
        "late.rs",
        content,
        "snap",
        1,
        "too late",
        UpdateInlineSnapshotMode::Create,
    );
    assert_eq!(r.unwrap_err(), SnapshotError::LedgerDrained);
    assert_eq!(ledger.drain().len(), 0);
}

#[test]
fn scheduled_edit_carries_the_located_span() {
    let content = "fn t() {\n    hello_macro!(stuff, \"literal\");\n}\n";
    let mut ledger = Ledger::new();
    schedule_snapshot_update(
        &mut ledger,
        "span.rs",
        content,
        "hello_macro",
        2,
        "new text",
        UpdateInlineSnapshotMode::Replace,
    )
    .unwrap();
    let files = ledger.drain();
    assert_eq!(files.len(), 1);
    assert_eq!(files[0].updates.len(), 1);
    // exactly the trailing literal's span, quotes included, end exclusive
    assert_eq!(
        files[0].updates[0].range,
        k9::Range {
            start: k9::LineColumn { line: 2, column: 25 },
            end: k9::LineColumn { line: 2, column: 34 },
        }
    );
}

#[test]
fn scheduling_on_a_missing_call_reports_not_found() {
    let content = "fn main() {}\n";
    let mut ledger = Ledger::new();
    let r = schedule_snapshot_update(
        &mut ledger,
        "missing.rs",
        content,
        "snapshot",
        3,
        "value",
        UpdateInlineSnapshotMode::Create,
    );
    assert_eq!(
        r.unwrap_err(),
        SnapshotError::NotFound { name: "snapshot".to_string(), line: 3 }
    );
    // the file stays captured, with no edit recorded
    let files = ledger.drain();
    assert_eq!(files.len(), 1);
    assert_eq!(files[0].updates.len(), 0);
}

#[test]
fn read_mode_reports_missing_snapshot() {
    let mut ledger = Ledger::new();
    let config = read_config();
    let r = matches_inline_snapshot(
        &mut ledger,
        &config,
        "snapshot",
        "value".to_string(),
        None,
        1,
        "lib.rs",
        "",
    )
    .unwrap();
    let message = r.expect("a missing snapshot is a failure outside update mode");
    let plain = String::from_utf8(strip_ansi_escapes::strip(&message)).unwrap();
    assert!(plain.contains("did not have any inline snapshots"));
    assert!(plain.contains("K9_UPDATE_SNAPSHOTS=1"));
}
