use crate::errors::SnapshotError;
use crate::literal::spec_make_literal;
use crate::source_code::{
    cuts_view, lc_offset, lc_to_offset, splice_all, splice_offsets, valid_range, GCut, Range,
};
use vstd::multiset::Multiset;
use vstd::prelude::*;

verus! {

broadcast use vstd::seq_lib::group_to_multiset_ensures;

/// How an edit rewrites its call site.
#[derive(Clone, Copy, Debug, PartialEq, Eq, Structural)]
pub enum UpdateInlineSnapshotMode {
    /// There is no inline snapshot yet: the new literal is inserted with
    /// a leading `", "` separator.
    Create,
    /// An existing inline snapshot occupies the range: it is replaced.
    Replace,
}

/// One scheduled rewrite of a source file: the span to replace, the raw
/// (not yet quoted) snapshot text to put there, and the edit shape.
#[derive(Debug, Clone)]
pub struct InlineSnapshotUpdate {
    pub range: Range,
    pub new_value: String,
    pub mode: UpdateInlineSnapshotMode,
}

/// A source file with pending snapshot edits: its path, its content as
/// captured when the first edit arrived, and the edits collected since.
#[derive(Debug)]
pub struct SourceFile {
    pub content: String,
    pub updates: Vec<InlineSnapshotUpdate>,
    pub path: String,
}

/// The separator written before the new literal: `", "` when a new
/// argument is created, nothing when an existing literal is replaced.
pub open spec fn spec_separator(mode: UpdateInlineSnapshotMode) -> Seq<char> {
    match mode {
        UpdateInlineSnapshotMode::Create => seq![',', ' '],
        UpdateInlineSnapshotMode::Replace => Seq::empty(),
    }
}

/// The text an edit writes into its span: the separator, then the quoted
/// literal of the snapshot text (empty only when quoting is impossible,
/// a case the splicer refuses beforehand).
pub open spec fn spec_edit_text(u: InlineSnapshotUpdate) -> Seq<char> {
    match spec_make_literal(u.new_value@) {
        Some(l) => spec_separator(u.mode) + l,
        None => Seq::empty(),
    }
}

/// The cut a sorted edit list makes in the captured text.
pub open spec fn cuts_of(s: Seq<char>, us: Seq<InlineSnapshotUpdate>) -> Seq<GCut> {
    us.map_values(
        |u: InlineSnapshotUpdate|
            GCut {
                start: lc_offset(s, u.range.start),
                end: lc_offset(s, u.range.end),
                text: spec_edit_text(u),
            },
    )
}

/// Edits ordered by the line their span starts on.
pub open spec fn sorted_by_line(us: Seq<InlineSnapshotUpdate>) -> bool {
    forall|i: int, j: int|
        0 <= i < j < us.len() ==> (#[trigger] us[i]).range.start.line <= (#[trigger] us[j]).range.start.line
}

/// Two edits collide when one's span starts on a line the other's span
/// covers: at most one inline snapshot call per source line is
/// supported, and overlap is a fatal ordering violation.
pub open spec fn updates_collide(us: Seq<InlineSnapshotUpdate>) -> bool {
    exists|i: int, j: int|
        0 <= i < us.len() && 0 <= j < us.len() && i != j && (#[trigger] us[i]).range.start.line <= (
        #[trigger] us[j]).range.start.line <= us[i].range.end.line
}

/// The range non-overlap law: edits that pass the collision check, once
/// ordered by start line, sit on strictly increasing lines and never
/// overlap — each edit's span ends strictly before the next one begins.
/// Input that violates this is refused with `OverlappingRanges` by the
/// splicer, never silently merged or truncated.
pub proof fn lemma_sorted_edits_disjoint(us: Seq<InlineSnapshotUpdate>)
    requires
        sorted_by_line(us),
        !updates_collide(us),
    ensures
        forall|i: int, j: int|
            0 <= i < j < us.len() ==> (#[trigger] us[i]).range.end.line < (
            #[trigger] us[j]).range.start.line,
{
    assert forall|i: int, j: int|
        0 <= i < j < us.len() implies (#[trigger] us[i]).range.end.line < (
    #[trigger] us[j]).range.start.line by {
        assert(us[i].range.start.line <= us[j].range.start.line);
        assert(!(us[i].range.start.line <= us[j].range.start.line <= us[i].range.end.line));
    }
}

/// An element that appears at two indices is counted at least twice.
proof fn lemma_count_two(s: Seq<InlineSnapshotUpdate>, i: int, j: int)
    requires
        0 <= i < s.len(),
        0 <= j < s.len(),
        i != j,
        s[i] == s[j],
    ensures
        s.to_multiset().count(s[i]) >= 2,
{
    let x = s[i];
    assert(s.remove(i).to_multiset() =~= s.to_multiset().remove(x));
    let j2 = if j < i {
        j
    } else {
        j - 1
    };
    assert(s.remove(i)[j2] == x);
    assert(s.remove(i).contains(x));
    assert(s.remove(i).to_multiset().count(x) > 0);
    assert(s.to_multiset().remove(x).count(x) >= 1);
}

/// An element counted at least twice appears at two indices.
proof fn lemma_two_indices(s: Seq<InlineSnapshotUpdate>, x: InlineSnapshotUpdate)
    requires
        s.to_multiset().count(x) >= 2,
    ensures
        exists|i: int, j: int|
            0 <= i < s.len() && 0 <= j < s.len() && i != j && #[trigger] s[i] == x && #[trigger] s[j]
                == x,
{
    assert(s.to_multiset().count(x) > 0);
    assert(s.contains(x));
    let i = choose|i: int| 0 <= i < s.len() && s[i] == x;
    assert(s.remove(i).to_multiset() =~= s.to_multiset().remove(x));
    assert(s.remove(i).to_multiset().count(x) >= 1);
    assert(s.remove(i).contains(x));
    let j0 = choose|j: int| j0_in(s.remove(i), j) && s.remove(i)[j] == x;
    assert(0 <= j0 < s.remove(i).len() && s.remove(i)[j0] == x);
    let j = if j0 < i {
        j0
    } else {
        j0 + 1
    };
    assert(s[j] == x);
    assert(s[i] == x);
    assert(i != j);
}

/// Helper predicate so the bound variable of a choose has one shape.
spec fn j0_in(s: Seq<InlineSnapshotUpdate>, j: int) -> bool {
    0 <= j < s.len()
}

/// Whether edits collide does not depend on their order: it carries over
/// to any rearrangement.
proof fn lemma_collide_permutation(s1: Seq<InlineSnapshotUpdate>, s2: Seq<InlineSnapshotUpdate>)
    requires
        s1.to_multiset() == s2.to_multiset(),
        updates_collide(s1),
    ensures
        updates_collide(s2),
{
    let (i, j) = choose|i: int, j: int|
        0 <= i < s1.len() && 0 <= j < s1.len() && i != j && (#[trigger] s1[i]).range.start.line <= (
        #[trigger] s1[j]).range.start.line <= s1[i].range.end.line;
    let x = s1[i];
    let y = s1[j];
    if x == y {
        lemma_count_two(s1, i, j);
        lemma_two_indices(s2, x);
        let (p, q) = choose|p: int, q: int|
            0 <= p < s2.len() && 0 <= q < s2.len() && p != q && #[trigger] s2[p] == x
                && #[trigger] s2[q] == x;
        assert(s2[p].range.start.line <= s2[q].range.start.line <= s2[p].range.end.line);
    } else {
        assert(s1.contains(x) && s1.contains(y));
        assert(s2.to_multiset().count(x) > 0 && s2.to_multiset().count(y) > 0);
        assert(s2.contains(x) && s2.contains(y));
        let p = choose|p: int| 0 <= p < s2.len() && s2[p] == x;
        let q = choose|q: int| 0 <= q < s2.len() && s2[q] == y;
        assert(p != q);
        assert(s2[p].range.start.line <= s2[q].range.start.line <= s2[p].range.end.line);
    }
}

/// Sort edits by the line their span starts on (selection sort; the
/// result holds exactly the given edits).
fn sort_updates(v: Vec<InlineSnapshotUpdate>) -> (r: Vec<InlineSnapshotUpdate>)
    ensures
        r@.to_multiset() == v@.to_multiset(),
        sorted_by_line(r@),
        r@.len() == v@.len(),
{
    let mut rest = v;
    let mut out: Vec<InlineSnapshotUpdate> = Vec::new();
    proof {
        assert(out@.to_multiset().add(rest@.to_multiset()) =~= v@.to_multiset());
    }
    while rest.len() > 0
        invariant
            out@.to_multiset().add(rest@.to_multiset()) == v@.to_multiset(),
            out@.len() + rest@.len() == v@.len(),
            sorted_by_line(out@),
            forall|a: int, b: int|
                0 <= a < out@.len() && 0 <= b < rest@.len() ==> (#[trigger] out@[a]).range.start.line
                    <= (#[trigger] rest@[b]).range.start.line,
        decreases rest.len(),
    {
        // pick the edit with the smallest start line
        let mut min: usize = 0;
        let mut c: usize = 1;
        while c < rest.len()
            invariant
                0 <= min < rest@.len(),
                1 <= c <= rest@.len(),
                forall|t: int|
                    0 <= t < c ==> rest@[min as int].range.start.line <= (
                    #[trigger] rest@[t]).range.start.line,
            decreases rest.len() - c,
        {
            if rest[c].range.start.line < rest[min].range.start.line {
                min = c;
            }
            c = c + 1;
        }
        let ghost old_out = out@;
        let ghost old_rest = rest@;
        let picked = rest.remove(min);
        out.push(picked);
        proof {
            assert(old_rest.remove(min as int).to_multiset() =~= old_rest.to_multiset().remove(
                picked,
            ));
            assert(out@.to_multiset() =~= old_out.to_multiset().insert(picked));
            assert(out@.to_multiset().add(rest@.to_multiset()) =~= old_out.to_multiset().add(
                old_rest.to_multiset(),
            )) by {
                assert(old_rest.to_multiset().count(picked) > 0);
            }
            // the picked edit keeps the output sorted
            assert(forall|b: int|
                0 <= b < rest@.len() ==> picked.range.start.line <= (
                #[trigger] rest@[b]).range.start.line) by {
                assert(forall|b: int|
                    0 <= b < rest@.len() ==> rest@[b] == old_rest[if b < min as int {
                        b
                    } else {
                        b + 1
                    }]);
            }
        }
    }
    proof {
        assert(rest@.to_multiset() =~= Multiset::empty());
        assert(out@.to_multiset().add(rest@.to_multiset()) =~= out@.to_multiset());
    }
    out
}

/// Carrying a per-element fact across a rearrangement: every element of
/// `s2` is an element of `s1`, so a fact about all of `s1`'s elements
/// holds of all of `s2`'s.
proof fn lemma_element_property(
    s1: Seq<InlineSnapshotUpdate>,
    s2: Seq<InlineSnapshotUpdate>,
    p: spec_fn(InlineSnapshotUpdate) -> bool,
)
    requires
        s1.to_multiset() == s2.to_multiset(),
        forall|i: int| 0 <= i < s1.len() ==> p(#[trigger] s1[i]),
    ensures
        forall|j: int| 0 <= j < s2.len() ==> p(#[trigger] s2[j]),
{
    assert forall|j: int| 0 <= j < s2.len() implies p(s2[j]) by {
        let x = s2[j];
        assert(s2.contains(x));
        assert(s2.to_multiset().count(x) > 0);
        assert(s1.to_multiset().count(x) > 0);
        assert(s1.contains(x));
        let i = choose|i: int| 0 <= i < s1.len() && s1[i] == x;
        assert(p(s1[i]));
    }
}

/// Apply a file's pending edits to its captured content and return the
/// rewritten text.
///
/// The file on disk must still be byte-identical to the captured
/// content; otherwise the batch is refused with
/// `ConcurrentModification` and nothing may be written. Every edit's
/// span must lie inside the text, no two edits may touch the same line,
/// and every snapshot text must be quotable; the edits are then applied
/// in order of their start lines, each span replaced by its separator
/// and quoted literal, and every character outside the spans kept
/// verbatim. A file with no pending edits comes back unchanged.
pub fn update_inline_snapshots(file: SourceFile, on_disk: &str) -> (r: Result<
    String,
    SnapshotError,
>)
    ensures
        ((r matches Err(e) && e == SnapshotError::ConcurrentModification) <==> on_disk@
            != file.content@),
        on_disk@ == file.content@ ==> ({
            let content = file.content@;
            let us = file.updates@;
            if exists|i: int|
                0 <= i < us.len() && !valid_range(content, (#[trigger] us[i]).range) {
                r matches Err(e) && e == SnapshotError::InvalidRange
            } else if updates_collide(us) {
                r matches Err(e) && e == SnapshotError::OverlappingRanges
            } else if exists|i: int|
                0 <= i < us.len() && spec_make_literal((#[trigger] us[i]).new_value@) is None {
                r matches Err(e) && e == SnapshotError::EncodingError
            } else {
                r matches Ok(out) && exists|sorted: Seq<InlineSnapshotUpdate>|
                    {
                        &&& #[trigger] sorted.to_multiset() == us.to_multiset()
                        &&& sorted_by_line(sorted)
                        &&& out@ == splice_all(content, cuts_of(content, sorted))
                    }
            }
        }),
        on_disk@ == file.content@ && file.updates@.len() == 0 ==> (r matches Ok(out) && out@
            == file.content@),
{
    let SourceFile { content, updates, path: _path } = file;
    let ghost cseq = content@;
    let ghost us = updates@;
    // the run cannot safely apply stale edits to a file that changed
    let disk = on_disk.to_owned();
    if !(disk == content) {
        return Err(SnapshotError::ConcurrentModification);
    }
    let chars = crate::utils::str_chars(content.as_str());
    // every span must lie inside the captured text
    let mut i: usize = 0;
    while i < updates.len()
        invariant
            0 <= i <= us.len(),
            us == updates@,
            us == file.updates@,
            cseq == chars@,
            cseq == file.content@,
            on_disk@ == file.content@,
            forall|t: int| 0 <= t < i ==> valid_range(cseq, (#[trigger] us[t]).range),
        decreases updates.len() - i,
    {
        let a = lc_to_offset(&chars, &updates[i].range.start);
        let b = lc_to_offset(&chars, &updates[i].range.end);
        match (a, b) {
            (Some(x), Some(y)) => {
                if y < x {
                    return Err(SnapshotError::InvalidRange);
                }
            },
            _ => {
                return Err(SnapshotError::InvalidRange);
            },
        }
        i = i + 1;
    }
    // two snapshot macros cannot legally start on the same or
    // overlapping lines
    let mut i: usize = 0;
    while i < updates.len()
        invariant
            0 <= i <= us.len(),
            us == updates@,
            us == file.updates@,
            cseq == file.content@,
            on_disk@ == file.content@,
            forall|t: int| 0 <= t < us.len() ==> valid_range(cseq, (#[trigger] us[t]).range),
            forall|a: int, b: int|
                0 <= a < i && 0 <= b < us.len() && a != b ==> !((#[trigger] us[a]).range.start.line
                    <= (#[trigger] us[b]).range.start.line <= us[a].range.end.line),
        decreases updates.len() - i,
    {
        let mut j: usize = 0;
        while j < updates.len()
            invariant
                0 <= i < us.len(),
                0 <= j <= us.len(),
                us == updates@,
                us == file.updates@,
                cseq == file.content@,
                on_disk@ == file.content@,
                forall|t: int| 0 <= t < us.len() ==> valid_range(cseq, (#[trigger] us[t]).range),
                forall|b: int|
                    0 <= b < j && i != b ==> !(us[i as int].range.start.line <= (
                    #[trigger] us[b]).range.start.line <= us[i as int].range.end.line),
            decreases updates.len() - j,
        {
            if j != i && updates[i].range.start.line <= updates[j].range.start.line
                && updates[j].range.start.line <= updates[i].range.end.line {
                return Err(SnapshotError::OverlappingRanges);
            }
            j = j + 1;
        }
        i = i + 1;
    }
    proof {
        assert(!updates_collide(us));
    }
    // every snapshot text must be quotable
    let mut i: usize = 0;
    while i < updates.len()
        invariant
            0 <= i <= us.len(),
            us == updates@,
            us == file.updates@,
            cseq == file.content@,
            on_disk@ == file.content@,
            forall|t: int| 0 <= t < us.len() ==> valid_range(cseq, (#[trigger] us[t]).range),
            !updates_collide(us),
            forall|t: int|
                0 <= t < i ==> spec_make_literal((#[trigger] us[t]).new_value@) is Some,
        decreases updates.len() - i,
    {
        match crate::literal::make_literal(updates[i].new_value.as_str()) {
            Ok(_) => {},
            Err(_) => {
                return Err(SnapshotError::EncodingError);
            },
        }
        i = i + 1;
    }
    // apply the edits in order of their start lines
    let sorted = sort_updates(updates);
    let ghost sseq = sorted@;
    proof {
        lemma_element_property(us, sseq, |u: InlineSnapshotUpdate| valid_range(cseq, u.range));
        lemma_element_property(
            us,
            sseq,
            |u: InlineSnapshotUpdate| spec_make_literal(u.new_value@) is Some,
        );
        if updates_collide(sseq) {
            lemma_collide_permutation(sseq, us);
        }
    }
    let mut cuts: Vec<crate::source_code::Cut> = Vec::new();
    let mut k: usize = 0;
    while k < sorted.len()
        invariant
            0 <= k <= sseq.len(),
            sseq == sorted@,
            cseq == chars@,
            forall|t: int| 0 <= t < sseq.len() ==> valid_range(cseq, (#[trigger] sseq[t]).range),
            forall|t: int|
                0 <= t < sseq.len() ==> spec_make_literal((#[trigger] sseq[t]).new_value@) is Some,
            us == file.updates@,
            cseq == file.content@,
            on_disk@ == file.content@,
            sseq.to_multiset() == us.to_multiset(),
            cuts_view(cuts@) == cuts_of(cseq, sseq).take(k as int),
        decreases sorted.len() - k,
    {
        let u = &sorted[k];
        let a = match lc_to_offset(&chars, &u.range.start) {
            Some(x) => x,
            None => {
                proof {
                    assert(valid_range(cseq, sseq[k as int].range));
                }
                return Err(SnapshotError::InvalidRange);
            },
        };
        let b = match lc_to_offset(&chars, &u.range.end) {
            Some(x) => x,
            None => {
                return Err(SnapshotError::InvalidRange);
            },
        };
        let lit = match crate::literal::make_literal(u.new_value.as_str()) {
            Ok(l) => l,
            Err(_) => {
                return Err(SnapshotError::EncodingError);
            },
        };
        let mut text: Vec<char> = Vec::new();
        match u.mode {
            UpdateInlineSnapshotMode::Create => {
                text.push(',');
                text.push(' ');
            },
            UpdateInlineSnapshotMode::Replace => {},
        }
        crate::utils::push_str_chars(&mut text, lit.as_str());
        proof {
            assert(text@ =~= spec_edit_text(sseq[k as int]));
        }
        let ghost pre_cuts = cuts@;
        cuts.push(crate::source_code::Cut { start: a, end: b, text });
        k = k + 1;
        proof {
            crate::source_code::lemma_cuts_view_push(pre_cuts, cuts@.last());
            assert(cuts@ == pre_cuts.push(cuts@.last()));
            assert(cuts@.last()@ == cuts_of(cseq, sseq)[k - 1]);
            assert(cuts_view(cuts@) =~= cuts_of(cseq, sseq).take(k as int));
        }
    }
    proof {
        assert(cuts_of(cseq, sseq).take(sseq.len() as int) =~= cuts_of(cseq, sseq));
        // in sorted order, edits that never share a line leave disjoint,
        // ordered spans
        let gcuts = cuts_of(cseq, sseq);
        assert forall|t: int|
            0 <= t < gcuts.len() implies crate::source_code::prev_end(gcuts, t) <= (
        #[trigger] gcuts[t]).start <= gcuts[t].end <= cseq.len() by {
            crate::source_code::lemma_lc_offset_bounds(cseq, sseq[t].range.start);
            crate::source_code::lemma_lc_offset_bounds(cseq, sseq[t].range.end);
            if t > 0 {
                let a = sseq[t - 1];
                let b = sseq[t];
                assert(a.range.start.line <= b.range.start.line);
                assert(!(a.range.start.line <= b.range.start.line <= a.range.end.line));
                crate::source_code::lemma_lc_offset_order(cseq, a.range.end, b.range.start);
            }
        }
    }
    let out = splice_offsets(&chars, &cuts);
    proof {
        if us.len() == 0 {
            assert(sseq.len() == 0);
            crate::source_code::lemma_splice_all_empty(cseq, cuts_of(cseq, sseq));
        }
    }
    Ok(crate::utils::chars_to_string(&out))
}

impl SourceFile {
    /// A freshly captured source file with no pending edits.
    pub fn new(path: String, content: String) -> (r: SourceFile)
        ensures
            r.path == path,
            r.content == content,
            r.updates@.len() == 0,
    {
        SourceFile { path, content, updates: Vec::new() }
    }

    /// Whether the file on disk still matches the captured content; a
    /// file that changed underneath the run must not be rewritten.
    pub fn read_and_compare(&self, on_disk: &str) -> (r: Result<(), SnapshotError>)
        ensures
            r matches Ok(u) <==> on_disk@ == self.content@,
            r matches Err(e) ==> e == SnapshotError::ConcurrentModification,
    {
        let disk = on_disk.to_owned();
        if disk == self.content {
            Ok(())
        } else {
            Err(SnapshotError::ConcurrentModification)
        }
    }
}

/// The pending-edit ledger: every source file touched during the run,
/// keyed by its path, each with its captured content and the edits
/// collected so far. The run's orchestrator owns it and drains it once
/// at the end; an edit scheduled after that is a logic error of the
/// caller (the run is ending) and is refused with `LedgerDrained`.
pub struct Ledger {
    pub files: Vec<SourceFile>,
    pub drained: bool,
}

/// No two entries of the ledger are for the same path.
pub open spec fn ledger_wf(l: Ledger) -> bool {
    forall|i: int, j: int|
        0 <= i < j < l.files@.len() ==> (#[trigger] l.files@[i]).path@ != (
        #[trigger] l.files@[j]).path@
}

impl Ledger {
    /// An empty ledger, ready to collect edits.
    pub fn new() -> (r: Ledger)
        ensures
            r.files@.len() == 0,
            !r.drained,
            ledger_wf(r),
    {
        Ledger { files: Vec::new(), drained: false }
    }

    /// Index of the entry for a path, if there is one.
    fn find(&self, path: &String) -> (r: Option<usize>)
        ensures
            r matches Some(i) ==> 0 <= i < self.files@.len() && self.files@[i as int].path@
                == path@,
            r is None ==> forall|t: int|
                0 <= t < self.files@.len() ==> (#[trigger] self.files@[t]).path@ != path@,
    {
        let mut i: usize = 0;
        while i < self.files.len()
            invariant
                0 <= i <= self.files@.len(),
                forall|t: int| 0 <= t < i ==> (#[trigger] self.files@[t]).path@ != path@,
            decreases self.files.len() - i,
        {
            if self.files[i].path == *path {
                return Some(i);
            }
            i = i + 1;
        }
        None
    }

    /// Remove and return all entries, leaving the ledger empty and
    /// marked drained: the edits are consumed exactly once, and a later
    /// registration is refused.
    pub fn drain(&mut self) -> (r: Vec<SourceFile>)
        ensures
            r == old(self).files,
            final(self).files@.len() == 0,
            final(self).drained,
            ledger_wf(*final(self)),
    {
        let mut taken: Vec<SourceFile> = Vec::new();
        core::mem::swap(&mut taken, &mut self.files);
        self.drained = true;
        taken
    }
}

/// Whether an edit shape replaces an existing literal.
pub open spec fn spec_literal_exists(mode: UpdateInlineSnapshotMode) -> bool {
    mode == UpdateInlineSnapshotMode::Replace
}

/// How a scheduling result relates to locating the call in the captured
/// content: exactly the locator's verdict, with the located span carried
/// into the appended edit (`appended` matters only on success).
pub open spec fn locate_verdict(
    captured: Seq<char>,
    macro_name: Seq<char>,
    line_num: int,
    mode: UpdateInlineSnapshotMode,
    r: Result<(), SnapshotError>,
    appended: Range,
) -> bool {
    match crate::ast::lex_model(captured) {
        None => r matches Err(e) && crate::ast::is_not_found(e, macro_name, line_num),
        Some(toks) => {
            let out = crate::ast::spec_locate(
                captured,
                toks,
                macro_name,
                line_num,
                spec_literal_exists(mode),
            );
            match out {
                crate::ast::LocatedOutcome::Found(rg) => r is Ok && appended == rg,
                crate::ast::LocatedOutcome::Malformed(ct) => r matches Err(e) && (e matches
                SnapshotError::MalformedCallSite(m) && m@ == ct),
                crate::ast::LocatedOutcome::Missing => r matches Err(e)
                    && crate::ast::is_not_found(e, macro_name, line_num),
            }
        },
    }
}

/// What scheduling an edit does to the ledger: the entry for the path is
/// created (capturing the given content) or extended in place, nothing
/// else moves, the result is the locator's verdict on the captured
/// content, and a successful schedule appends exactly one edit carrying
/// the snapshot text, the edit shape, and the located span.
pub open spec fn schedule_post(
    before: Seq<SourceFile>,
    after: Seq<SourceFile>,
    path: Seq<char>,
    disk_content: Seq<char>,
    macro_name: Seq<char>,
    line_num: int,
    to_add: Seq<char>,
    mode: UpdateInlineSnapshotMode,
    r: Result<(), SnapshotError>,
) -> bool {
    if exists|t: int| 0 <= t < before.len() && (#[trigger] before[t]).path@ == path {
        &&& after.len() == before.len()
        &&& forall|t: int|
            0 <= t < before.len() && (#[trigger] before[t]).path@ != path ==> after[t] == before[t]
        &&& forall|t: int|
            0 <= t < before.len() && (#[trigger] before[t]).path@ == path ==> {
                &&& after[t].path == before[t].path
                &&& after[t].content == before[t].content
                &&& (r is Ok ==> after[t].updates@.len() == before[t].updates@.len() + 1
                    && after[t].updates@.take(before[t].updates@.len() as int)
                    == before[t].updates@ && edit_matches(
                    after[t].updates@.last(),
                    to_add,
                    mode,
                ))
                &&& (r is Err ==> after[t].updates == before[t].updates)
                &&& locate_verdict(
                    before[t].content@,
                    macro_name,
                    line_num,
                    mode,
                    r,
                    after[t].updates@.last().range,
                )
            }
    } else {
        &&& after.len() == before.len() + 1
        &&& forall|t: int| 0 <= t < before.len() ==> #[trigger] after[t] == before[t]
        &&& after.last().path@ == path
        &&& after.last().content@ == disk_content
        &&& (r is Ok ==> after.last().updates@.len() == 1 && edit_matches(
            after.last().updates@.last(),
            to_add,
            mode,
        ))
        &&& (r is Err ==> after.last().updates@.len() == 0)
        &&& locate_verdict(
            disk_content,
            macro_name,
            line_num,
            mode,
            r,
            after.last().updates@.last().range,
        )
    }
}

/// Schedule one snapshot rewrite: look up (or create, capturing
/// `disk_content` once) the ledger entry for `path`, locate the call of
/// `macro_name` at `line_num` in the captured content, resolve the span
/// to replace — the existing trailing literal in replace mode, a
/// zero-width point after the last argument in create mode — and append
/// the edit to that file's batch.
///
/// On failure the file's entry stays (with its captured content), but no
/// edit is recorded for it.
pub fn schedule_snapshot_update(
    ledger: &mut Ledger,
    path: &str,
    disk_content: &str,
    macro_name: &str,
    line_num: usize,
    to_add: &str,
    mode: UpdateInlineSnapshotMode,
) -> (r: Result<(), SnapshotError>)
    requires
        ledger_wf(*old(ledger)),
    ensures
        ledger_wf(*final(ledger)),
        final(ledger).drained == old(ledger).drained,
        r matches Err(e) ==> (e is NotFound || e matches SnapshotError::MalformedCallSite(_) || e
            == SnapshotError::LedgerDrained),
        old(ledger).drained ==> (*final(ledger) == *old(ledger) && r == Err::<
            (),
            SnapshotError,
        >(SnapshotError::LedgerDrained)),
        !old(ledger).drained ==> schedule_post(
            old(ledger).files@,
            final(ledger).files@,
            path@,
            disk_content@,
            macro_name@,
            line_num as int,
            to_add@,
            mode,
            r,
        ),
{
    if ledger.drained {
        // registering after the drain is the caller's logic error
        return Err(SnapshotError::LedgerDrained);
    }
    let p = path.to_owned();
    let idx = match ledger.find(&p) {
        Some(i) => i,
        None => {
            let f = SourceFile::new(p, disk_content.to_owned());
            ledger.files.push(f);
            ledger.files.len() - 1
        },
    };
    let ghost mid_files = ledger.files@;
    let literal_exists = match mode {
        UpdateInlineSnapshotMode::Replace => true,
        UpdateInlineSnapshotMode::Create => false,
    };
    let range = {
        let f = &ledger.files[idx];
        crate::ast::find_snapshot_literal_range(
            f.content.as_str(),
            macro_name,
            line_num,
            literal_exists,
        )
    };
    match range {
        Ok(rg) => {
            let mut f = ledger.files.remove(idx);
            f.updates.push(
                InlineSnapshotUpdate { range: rg, new_value: to_add.to_owned(), mode },
            );
            ledger.files.insert(idx, f);
            proof {
                assert(ledger.files@.len() == mid_files.len());
                assert(forall|t: int|
                    0 <= t < mid_files.len() && t != idx ==> ledger.files@[t] == mid_files[t]);
                assert(ledger.files@[idx as int].updates@.last().range == rg);
                let before = old(ledger).files@;
                assert forall|t: int|
                    0 <= t < before.len() && (#[trigger] before[t]).path@ == path@ implies t
                    == idx as int by {
                    if t != idx as int && idx < before.len() {
                        assert(before[t].path@ != before[idx as int].path@);
                    }
                }
                assert(spec_literal_exists(mode) == literal_exists);
                let captured = mid_files[idx as int].content@;
                assert(crate::ast::lex_model(captured) is Some);
                let toks2 = crate::ast::lex_model(captured).unwrap();
                let out = crate::ast::spec_locate(
                    captured,
                    toks2,
                    macro_name@,
                    line_num as int,
                    literal_exists,
                );
                assert(crate::ast::locate_result_matches(Ok::<Range, SnapshotError>(rg), out, macro_name@, line_num as int));
                assert(out == crate::ast::LocatedOutcome::Found(rg));
                assert(locate_verdict(
                    captured,
                    macro_name@,
                    line_num as int,
                    mode,
                    Ok::<(), SnapshotError>(()),
                    rg,
                ));
                let after = ledger.files@;
                let rr = Ok::<(), SnapshotError>(());
                if exists|t: int| 0 <= t < before.len() && (#[trigger] before[t]).path@ == path@ {
                    assert(after.len() == before.len());
                    assert(forall|t: int|
                        0 <= t < before.len() && (#[trigger] before[t]).path@ != path@ ==> after[t]
                            == before[t]);
                    assert forall|t: int|
                        0 <= t < before.len() && (#[trigger] before[t]).path@
                            == path@ implies after[t].path == before[t].path
                        && after[t].content == before[t].content && after[t].updates@.len()
                        == before[t].updates@.len() + 1 && after[t].updates@.take(
                        before[t].updates@.len() as int,
                    ) == before[t].updates@ && edit_matches(after[t].updates@.last(), to_add@, mode)
                        && locate_verdict(
                        before[t].content@,
                        macro_name@,
                        line_num as int,
                        mode,
                        rr,
                        after[t].updates@.last().range,
                    ) by {
                        assert(t == idx as int);
                        assert(after[t].updates@.take(before[t].updates@.len() as int)
                            =~= before[t].updates@);
                    }
                } else {
                    assert(after.len() == before.len() + 1);
                    assert(forall|t: int| 0 <= t < before.len() ==> #[trigger] after[t] == before[t]);
                    assert(after.last().path@ == path@);
                    assert(after.last().content@ == disk_content@);
                    assert(after.last().updates@.len() == 1);
                    assert(edit_matches(after.last().updates@.last(), to_add@, mode));
                    assert(locate_verdict(
                        disk_content@,
                        macro_name@,
                        line_num as int,
                        mode,
                        rr,
                        after.last().updates@.last().range,
                    ));
                }
            }
            Ok(())
        },
        Err(e) => {
            proof {
                let before = old(ledger).files@;
                assert forall|t: int|
                    0 <= t < before.len() && (#[trigger] before[t]).path@ == path@ implies t
                    == idx as int by {
                    if t != idx as int && idx < before.len() {
                        assert(before[t].path@ != before[idx as int].path@);
                    }
                }
                assert(spec_literal_exists(mode) == literal_exists);
                assert(locate_verdict(
                    mid_files[idx as int].content@,
                    macro_name@,
                    line_num as int,
                    mode,
                    Err::<(), SnapshotError>(e),
                    mid_files[idx as int].updates@.last().range,
                ));
            }
            Err(e)
        },
    }
}

/// The fields of a freshly scheduled edit: it carries the given snapshot
/// text and edit shape, and an insertion (create) edit has a zero-width
/// span.
pub open spec fn edit_matches(
    u: InlineSnapshotUpdate,
    to_add: Seq<char>,
    mode: UpdateInlineSnapshotMode,
) -> bool {
    &&& u.new_value@ == to_add
    &&& u.mode == mode
    &&& (mode == UpdateInlineSnapshotMode::Create ==> u.range.start == u.range.end)
}

/// A result with its success payload dropped, for relating the entry
/// point's result to the scheduling step's.
pub open spec fn unit_of(r: Result<Option<String>, SnapshotError>) -> Result<(), SnapshotError> {
    match r {
        Ok(_) => Ok(()),
        Err(e) => Err(e),
    }
}

/// The failure text shown when the computed text differs from the
/// existing inline snapshot, or `None` exactly when the two are equal.
pub fn snapshot_matching_message(s: &str, snapshot: &str, config: &crate::config::Config) -> (r:
    Option<String>)
    ensures
        r is None <==> s@ == snapshot@,
{
    let diff = crate::string_diff::colored_diff(snapshot, s, config.expand_mode);
    match diff {
        None => None,
        Some(diff) => {
            let mut v: Vec<char> = Vec::new();
            crate::utils::push_str_chars(&mut v, "Expected ");
            crate::utils::push_str_chars(&mut v, crate::colors::paint_red("string").as_str());
            crate::utils::push_str_chars(&mut v, " to match ");
            crate::utils::push_str_chars(
                &mut v,
                crate::colors::paint_green("inline snapshot").as_str(),
            );
            crate::utils::push_str_chars(&mut v, "

    Difference:
    ");
            crate::utils::push_str_chars(&mut v, diff.as_str());
            crate::utils::push_str_chars(&mut v, "

    ");
            crate::utils::push_str_chars(
                &mut v,
                crate::config::update_instructions(config).as_str(),
            );
            crate::utils::push_str_chars(&mut v, "
    ");
            Some(crate::utils::chars_to_string(&v))
        },
    }
}

/// The failure text shown when the assertion has no inline snapshot yet
/// and the run is not allowed to create one.
pub fn empty_snapshot_message(s: &str, config: &crate::config::Config) -> String {
    let mut v: Vec<char> = Vec::new();
    crate::utils::push_str_chars(&mut v, "Expected ");
    crate::utils::push_str_chars(&mut v, crate::colors::paint_red("string").as_str());
    crate::utils::push_str_chars(&mut v, " to match ");
    crate::utils::push_str_chars(&mut v, crate::colors::paint_green("inline snapshot").as_str());
    crate::utils::push_str_chars(
        &mut v,
        "

but that assertion did not have any inline snapshots.

Received value:
",
    );
    crate::utils::push_str_chars(&mut v, crate::colors::paint_green(s).as_str());
    crate::utils::push_str_chars(&mut v, "

");
    crate::utils::push_str_chars(&mut v, crate::config::update_instructions(config).as_str());
    crate::utils::push_str_chars(&mut v, "
");
    crate::utils::chars_to_string(&v)
}

/// Canonical snapshot text of a value: its structural rendering, with
/// the readability rewrites of `encode_debug_repr` applied. The result
/// always has the encoding's shape (in particular, a text with embedded
/// newlines is wrapped in a leading and a trailing newline); the
/// rendering itself cannot be pinned for a generic value.
pub fn value_to_string<V: core::fmt::Debug>(value: V) -> (r: String)
    ensures
        exists|d: Seq<char>| r@ == crate::literal::spec_encode_debug(d),
{
    let repr = crate::assertions::debug_repr(&value);
    let r = crate::literal::encode_debug_repr(repr.as_str());
    proof {
        assert(r@ == crate::literal::spec_encode_debug(repr@));
    }
    r
}

/// Judge a computed snapshot text against the call site's existing
/// literal, or schedule a rewrite.
///
/// Outside update mode this is a pure comparison: the failure text when
/// the two differ (or when no literal exists yet), `None` when they
/// match; the ledger is untouched. In update mode a mismatch or a
/// missing literal schedules an edit for the call of `macro_name` at
/// `line_num` of `file_path` (capturing `disk_content` for that file on
/// first touch), and no failure is reported; a snapshot that already
/// matches schedules nothing, so a later run finds the same text again.
pub fn matches_inline_snapshot(
    ledger: &mut Ledger,
    config: &crate::config::Config,
    macro_name: &str,
    s: String,
    snapshot: Option<&str>,
    line_num: usize,
    file_path: &str,
    disk_content: &str,
) -> (r: Result<Option<String>, SnapshotError>)
    requires
        ledger_wf(*old(ledger)),
    ensures
        ledger_wf(*final(ledger)),
        !config.update_mode ==> *final(ledger) == *old(ledger),
        !config.update_mode ==> (r matches Ok(m) && ((snapshot matches Some(t) && m is None) <==> (
        snapshot matches Some(t) && t@ == s@))),
        !config.update_mode && snapshot is None ==> (r matches Ok(m) && m is Some),
        config.update_mode ==> (r matches Ok(m) ==> m is None),
        config.update_mode && (snapshot matches Some(t) && t@ == s@) ==> (*final(ledger) == *old(
            ledger,
        ) && (r matches Ok(m) && m is None)),
        final(ledger).drained == old(ledger).drained,
        config.update_mode && snapshot is None && !old(ledger).drained ==> schedule_post(
            old(ledger).files@,
            final(ledger).files@,
            file_path@,
            disk_content@,
            macro_name@,
            line_num as int,
            s@,
            UpdateInlineSnapshotMode::Create,
            unit_of(r),
        ),
        config.update_mode && (snapshot matches Some(t) && t@ != s@) && !old(
            ledger,
        ).drained ==> schedule_post(
            old(ledger).files@,
            final(ledger).files@,
            file_path@,
            disk_content@,
            macro_name@,
            line_num as int,
            s@,
            UpdateInlineSnapshotMode::Replace,
            unit_of(r),
        ),
        config.update_mode && old(ledger).drained && (snapshot is None || (snapshot matches Some(t)
            && t@ != s@)) ==> (*final(ledger) == *old(ledger) && r == Err::<
            Option<String>,
            SnapshotError,
        >(SnapshotError::LedgerDrained)),
{
    match (snapshot, config.update_mode) {
        (Some(snapshot), false) => Ok(snapshot_matching_message(s.as_str(), snapshot, config)),
        (None, false) => Ok(Some(empty_snapshot_message(s.as_str(), config))),
        (existing, true) => {
            match existing {
                Some(snapshot) => {
                    let need_updating = snapshot_matching_message(
                        s.as_str(),
                        snapshot,
                        config,
                    ).is_some();
                    if need_updating {
                        match schedule_snapshot_update(
                            ledger,
                            file_path,
                            disk_content,
                            macro_name,
                            line_num,
                            s.as_str(),
                            UpdateInlineSnapshotMode::Replace,
                        ) {
                            Ok(u) => u,
                            Err(e) => {
                                return Err(e);
                            },
                        }
                    }
                },
                None => {
                    match schedule_snapshot_update(
                        ledger,
                        file_path,
                        disk_content,
                        macro_name,
                        line_num,
                        s.as_str(),
                        UpdateInlineSnapshotMode::Create,
                    ) {
                        Ok(u) => u,
                        Err(e) => {
                            return Err(e);
                        },
                    }
                },
            }
            Ok(None)
        },
    }
}

/// Judge a value against the call site's existing literal, or schedule a
/// rewrite: `matches_inline_snapshot` on the value's canonical snapshot
/// text.
pub fn snapshot_internal<V: core::fmt::Debug>(
    ledger: &mut Ledger,
    config: &crate::config::Config,
    macro_name: &str,
    value: V,
    snapshot: Option<&str>,
    line_num: usize,
    file_path: &str,
    disk_content: &str,
) -> (r: Result<Option<String>, SnapshotError>)
    requires
        ledger_wf(*old(ledger)),
    ensures
        ledger_wf(*final(ledger)),
        !config.update_mode ==> *final(ledger) == *old(ledger),
        !config.update_mode ==> r is Ok,
        !config.update_mode && snapshot is None ==> (r matches Ok(m) && m is Some),
        config.update_mode ==> (r matches Ok(m) ==> m is None),
{
    let value_str = value_to_string(value);
    matches_inline_snapshot(
        ledger,
        config,
        macro_name,
        value_str,
        snapshot,
        line_num,
        file_path,
        disk_content,
    )
}

/// Idempotence of updating: the literal an update writes for a snapshot
/// text reads back as exactly that text, so re-running the assertion
/// with the now-updated literal compares equal texts and reports no
/// difference (`snapshot_matching_message` is `None` exactly on equal
/// texts).
pub proof fn lemma_update_idempotent(t: Seq<char>, l: Seq<char>)
    requires
        spec_make_literal(t) == Some(l),
    ensures
        crate::literal::spec_unquote(l) == Some(t),
{
    crate::literal::lemma_literal_round_trip(t, l);
}

} // verus!
