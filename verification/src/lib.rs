//! An assertion and inline-snapshot engine.
//!
//! The heart of the crate is inline snapshot management: locating an
//! assertion call site in source text by macro name and line, resolving
//! the span of its trailing string literal (or the insertion point for a
//! new one), encoding values as snapshot literals, collecting pending
//! edits per file, and splicing them back into the text without touching
//! any unrelated byte.

mod assertion_error;
mod assertions;
mod ast;
mod colors;
mod comparison_diff;
pub mod config;
mod errors;
mod literal;
mod multiline_string;
mod parsing;
mod paths;
mod regex_assertions;
mod snap;
mod snapshot;
mod source_code;
mod string_diff;
mod utils;

pub use assertion_error::AssertionError;
pub use assertions::{Assertion, make_assertion_impl, assert_equal, assert_ok, assert_err, assert_greater_than, assert_greater_than_or_equal, assert_lesser_than, assert_lesser_than_or_equal, assert_contains, debug_repr, debug_compact};
pub use ast::{ArgToken, find_snapshot_literal_range, resolve_snapshot_range};
pub use comparison_diff::greater_than_diff;
pub use config::{BuildSystem, Config, set_panic, set_terminal_with_override, terminal_width_override, update_instructions, terminal_separator_line};
pub use errors::SnapshotError;
pub use literal::{encode_debug_repr, make_literal, unquote};
pub use multiline_string::MultilineString;
pub use parsing::line_and_column_to_offset;
pub use paths::{join_and_remove_overlap, remove_overlap};
pub use regex_assertions::{assert_matches_regex_impl, try_assert_matches_regex, err_repr_matches_regex, assert_err_matches_regex_impl, try_assert_err_matches_regex, valid_regex, regex_matches};
pub use snap::Snap;
pub use snapshot::{InlineSnapshotUpdate, SourceFile, UpdateInlineSnapshotMode, Ledger, ledger_wf, update_inline_snapshots, schedule_snapshot_update, snapshot_matching_message, empty_snapshot_message, value_to_string, matches_inline_snapshot, snapshot_internal};
pub use source_code::{LineColumn, Range, extract_range, split_by_ranges};
pub use string_diff::{DiffLine, colored_diff, diff_items};
pub use utils::{add_linebreaks, my_function, usize_to_string};
