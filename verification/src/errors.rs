use vstd::prelude::*;

verus! {

/// The failures of the snapshot engine.
#[derive(Debug, Clone, PartialEq, Eq)]
pub enum SnapshotError {
    /// The recorded line has no matching macro call: the file drifted,
    /// could not be parsed, or the macro name does not match. Carries
    /// the macro name and the 1-based line that were searched for.
    NotFound { name: String, line: usize },
    /// In replace mode, the trailing argument of the call is not a
    /// literal; carries the source text of the offending call.
    MalformedCallSite(String),
    /// The snapshot text defeats every quoting strategy.
    EncodingError,
    /// Two scheduled edits collide: at most one inline snapshot call per
    /// source line is supported.
    OverlappingRanges,
    /// A scheduled edit's span does not lie inside the captured text.
    InvalidRange,
    /// The file on disk changed after its content was captured; stale
    /// edits must not be applied to it.
    ConcurrentModification,
    /// An edit was scheduled after the ledger was drained: the run is
    /// ending, and a late registration is the caller's logic error.
    LedgerDrained,
}

impl SnapshotError {
    /// A short description of the failure.
    pub fn message(&self) -> String {
        match self {
            SnapshotError::NotFound { name, line } => {
                let mut v: Vec<char> = Vec::new();
                crate::utils::push_str_chars(&mut v, "no macro call named `");
                crate::utils::push_str_chars(&mut v, name.as_str());
                crate::utils::push_str_chars(&mut v, "` was found at line ");
                crate::utils::push_str_chars(
                    &mut v,
                    crate::utils::usize_to_string(*line).as_str(),
                );
                crate::utils::chars_to_string(&v)
            },
            SnapshotError::MalformedCallSite(_) => "the trailing macro argument is not a string literal".to_owned(),
            SnapshotError::EncodingError => "failed to create a snapshot string literal".to_owned(),
            SnapshotError::OverlappingRanges => "overlapping ranges! can be only one inline snapshot macro per line".to_owned(),
            SnapshotError::InvalidRange => "a scheduled edit lies outside the source file".to_owned(),
            SnapshotError::ConcurrentModification => "file content was modified during test run".to_owned(),
            SnapshotError::LedgerDrained => "the pending edits were already drained; the run is ending".to_owned(),
        }
    }
}

} // verus!
