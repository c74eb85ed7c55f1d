use vstd::prelude::*;

verus! {

/// A position in source text. Lines and columns both start at 1;
/// columns count characters within the line, not bytes.
///
/// ```text
/// 12345678910   15   20   25...
/// hello_world
/// ```
///
/// {line: 1, column: 1} -> {line: 1, column: 6} => "hello"
/// {line: 1, column: 2} -> {line: 1, column: 6} => "ello"
/// {line: 1, column: 1} -> {line: 1, column: 1} => ""
#[derive(Clone, Copy, Debug, PartialEq, Eq, Structural)]
pub struct LineColumn {
    pub line: usize,
    pub column: usize,
}

/// A span of text in a source file: from `start` (inclusive) to `end`
/// (exclusive). `start == end` denotes a zero-width insertion point.
#[derive(Clone, Copy, Debug, PartialEq, Eq, Structural)]
pub struct Range {
    pub start: LineColumn,
    pub end: LineColumn,
}

/// Index of the first newline at or after position `i`, or the length of
/// the text if there is none.
pub open spec fn next_nl(s: Seq<char>, i: int) -> int
    decreases s.len() - i when 0 <= i <= s.len()
{
    if i >= s.len() {
        s.len() as int
    } else if s[i] == '\n' {
        i
    } else {
        next_nl(s, i + 1)
    }
}

pub proof fn lemma_next_nl(s: Seq<char>, i: int)
    requires
        0 <= i <= s.len(),
    ensures
        i <= next_nl(s, i) <= s.len(),
        next_nl(s, i) < s.len() ==> s[next_nl(s, i)] == '\n',
        forall|j: int| i <= j < next_nl(s, i) ==> s[j] != '\n',
    decreases s.len() - i,
{
    if i < s.len() && s[i] != '\n' {
        lemma_next_nl(s, i + 1);
    }
}

/// Character offset at which the 1-based line `line` starts, or
/// `s.len() + 1` if the text has no such line.
pub open spec fn line_start(s: Seq<char>, line: int) -> int
    decreases line when line >= 1
{
    if line <= 1 {
        0
    } else {
        let p = line_start(s, line - 1);
        if 0 <= p <= s.len() {
            let n = next_nl(s, p);
            if n < s.len() {
                n + 1
            } else {
                s.len() as int + 1
            }
        } else {
            s.len() as int + 1
        }
    }
}

pub proof fn lemma_line_start_bounds(s: Seq<char>, line: int)
    requires
        line >= 1,
    ensures
        0 <= line_start(s, line) <= s.len() + 1,
    decreases line,
{
    if line > 1 {
        lemma_line_start_bounds(s, line - 1);
        if line_start(s, line - 1) <= s.len() {
            lemma_next_nl(s, line_start(s, line - 1));
        }
    }
}

/// Length in characters of the 1-based line `line` (newline excluded).
pub open spec fn line_len(s: Seq<char>, line: int) -> int {
    next_nl(s, line_start(s, line)) - line_start(s, line)
}

/// Whether the text has a 1-based line `line` (a line past the last
/// newline counts, even when it is empty, so that an insertion point
/// there is expressible).
pub open spec fn valid_line(s: Seq<char>, line: int) -> bool {
    &&& line >= 1
    &&& line_start(s, line) <= s.len()
}

/// Whether the position denotes a character of the text or the position
/// one past the end of its line.
pub open spec fn valid_lc(s: Seq<char>, lc: LineColumn) -> bool {
    &&& valid_line(s, lc.line as int)
    &&& lc.column >= 1
    &&& lc.column - 1 <= line_len(s, lc.line as int)
}

/// Character offset of a 1-based line/column position.
pub open spec fn lc_offset(s: Seq<char>, lc: LineColumn) -> int {
    line_start(s, lc.line as int) + lc.column - 1
}

pub proof fn lemma_lc_offset_bounds(s: Seq<char>, lc: LineColumn)
    requires
        valid_lc(s, lc),
    ensures
        0 <= lc_offset(s, lc) <= s.len(),
{
    lemma_line_start_bounds(s, lc.line as int);
    lemma_next_nl(s, line_start(s, lc.line as int));
}

/// Whether the span lies inside the text, with its start not after its
/// end (in character offsets).
pub open spec fn valid_range(s: Seq<char>, r: Range) -> bool {
    &&& valid_lc(s, r.start)
    &&& valid_lc(s, r.end)
    &&& lc_offset(s, r.start) <= lc_offset(s, r.end)
}

/// Compute the character offset of a position, or `None` when the text
/// has no such position.
pub fn lc_to_offset(content: &Vec<char>, lc: &LineColumn) -> (r: Option<usize>)
    ensures
        r is Some <==> valid_lc(content@, *lc),
        r is Some ==> r->0 == lc_offset(content@, *lc),
{
    let ghost s = content@;
    if lc.line < 1 || lc.column < 1 {
        return None;
    }
    let mut line: usize = 1;
    let mut pos: usize = 0;
    proof {
        lemma_line_start_bounds(s, 1);
    }
    while line < lc.line
        invariant
            1 <= line <= lc.line,
            lc.line >= 1,
            pos == line_start(s, line as int),
            pos <= s.len(),
            s == content@,
        decreases lc.line - line,
    {
        // advance past the next newline, if any
        let mut j: usize = pos;
        proof {
            lemma_next_nl(s, pos as int);
        }
        while j < content.len() && content[j] != '\n'
            invariant
                pos <= j <= s.len(),
                next_nl(s, pos as int) == next_nl(s, j as int),
                s == content@,
            decreases s.len() - j,
        {
            proof {
                lemma_next_nl(s, j as int);
            }
            j = j + 1;
        }
        proof {
            lemma_next_nl(s, j as int);
            assert(next_nl(s, pos as int) == j);
        }
        if j == content.len() {
            // no further line exists
            proof {
                assert(line_start(s, line + 1) == s.len() + 1);
                lemma_line_start_monotone_invalid(s, line + 1, lc.line as int);
            }
            return None;
        }
        pos = j + 1;
        line = line + 1;
    }
    // pos is the start of the target line; find its length
    let mut j: usize = pos;
    proof {
        lemma_next_nl(s, pos as int);
    }
    while j < content.len() && content[j] != '\n'
        invariant
            pos <= j <= s.len(),
            next_nl(s, pos as int) == next_nl(s, j as int),
            s == content@,
        decreases s.len() - j,
    {
        proof {
            lemma_next_nl(s, j as int);
        }
        j = j + 1;
    }
    proof {
        lemma_next_nl(s, j as int);
        assert(next_nl(s, pos as int) == j);
    }
    let llen = j - pos;
    if lc.column - 1 <= llen {
        Some(pos + (lc.column - 1))
    } else {
        None
    }
}

/// Once a line is absent, all later lines are absent too.
proof fn lemma_line_start_monotone_invalid(s: Seq<char>, line: int, later: int)
    requires
        1 <= line <= later,
        line_start(s, line) == s.len() + 1,
    ensures
        line_start(s, later) == s.len() + 1,
    decreases later - line,
{
    if later > line {
        lemma_line_start_monotone_invalid(s, line, later - 1);
    }
}

/// One scheduled replacement in character offsets: the characters in
/// `[start, end)` are dropped and `text` is put in their place.
pub struct Cut {
    pub start: usize,
    pub end: usize,
    pub text: Vec<char>,
}

/// The mathematical view of a `Cut`.
pub struct GCut {
    pub start: int,
    pub end: int,
    pub text: Seq<char>,
}

impl View for Cut {
    type V = GCut;

    open spec fn view(&self) -> GCut {
        GCut { start: self.start as int, end: self.end as int, text: self.text@ }
    }
}

/// The views of a list of cuts.
pub open spec fn cuts_view(cs: Seq<Cut>) -> Seq<GCut> {
    cs.map_values(|c: Cut| c@)
}

pub proof fn lemma_cuts_view_push(cs: Seq<Cut>, c: Cut)
    ensures
        cuts_view(cs.push(c)) == cuts_view(cs).push(c@),
{
    assert(cuts_view(cs.push(c)) =~= cuts_view(cs).push(c@));
}

/// End of the cut before index `i`, or the start of the text.
pub open spec fn prev_end(cs: Seq<GCut>, i: int) -> int {
    if i <= 0 {
        0
    } else {
        cs[i - 1].end
    }
}

/// Cuts are in order, do not overlap, and lie inside the text.
pub open spec fn wf_cuts(s: Seq<char>, cs: Seq<GCut>) -> bool {
    forall|i: int|
        0 <= i < cs.len() ==> prev_end(cs, i) <= (#[trigger] cs[i]).start <= cs[i].end <= s.len()
}

/// The spliced text up to and including the `k`-th cut: alternating kept
/// segments of `s` and replacement texts.
pub open spec fn splice_prefix(s: Seq<char>, cs: Seq<GCut>, k: int) -> Seq<char>
    decreases k,
{
    if k <= 0 {
        Seq::empty()
    } else {
        splice_prefix(s, cs, k - 1) + s.subrange(prev_end(cs, k - 1), cs[k - 1].start) + cs[k
            - 1].text
    }
}

/// The whole spliced text: every character of `s` outside the cuts,
/// byte for byte, with each cut's text in place of its span.
pub open spec fn splice_all(s: Seq<char>, cs: Seq<GCut>) -> Seq<char> {
    splice_prefix(s, cs, cs.len() as int) + s.subrange(prev_end(cs, cs.len() as int), s.len() as int)
}

/// With no cuts the spliced text is the input, unchanged.
pub proof fn lemma_splice_all_empty(s: Seq<char>, cs: Seq<GCut>)
    requires
        cs.len() == 0,
    ensures
        splice_all(s, cs) == s,
{
    assert(splice_all(s, cs) =~= s);
}

/// Append `src[from..to]` to `dst`.
pub fn push_subrange(dst: &mut Vec<char>, src: &Vec<char>, from: usize, to: usize)
    requires
        from <= to <= src.len(),
    ensures
        final(dst)@ == old(dst)@ + src@.subrange(from as int, to as int),
{
    let mut j: usize = from;
    while j < to
        invariant
            from <= j <= to <= src.len(),
            dst@ == old(dst)@ + src@.subrange(from as int, j as int),
        decreases to - j,
    {
        dst.push(src[j]);
        proof {
            assert(src@.subrange(from as int, j + 1 as int) == src@.subrange(
                from as int,
                j as int,
            ).push(src@[j as int]));
        }
        j = j + 1;
    }
}

/// Cut the text at the given spans and put each cut's replacement text
/// in its place; everything outside the spans is kept verbatim.
pub fn splice_offsets(content: &Vec<char>, cuts: &Vec<Cut>) -> (r: Vec<char>)
    requires
        wf_cuts(content@, cuts_view(cuts@)),
    ensures
        r@ == splice_all(content@, cuts_view(cuts@)),
{
    let ghost gcuts = cuts_view(cuts@);
    let mut result: Vec<char> = Vec::new();
    let mut pos: usize = 0;
    let mut k: usize = 0;
    while k < cuts.len()
        invariant
            0 <= k <= cuts.len(),
            gcuts == cuts_view(cuts@),
            wf_cuts(content@, gcuts),
            pos == prev_end(gcuts, k as int),
            pos <= content@.len(),
            result@ == splice_prefix(content@, gcuts, k as int),
        decreases cuts.len() - k,
    {
        let c = &cuts[k];
        proof {
            assert(gcuts[k as int] == cuts@[k as int]@);
        }
        push_subrange(&mut result, content, pos, c.start);
        crate::utils::push_chars(&mut result, &c.text);
        pos = c.end;
        k = k + 1;
        proof {
            assert(result@ == splice_prefix(content@, gcuts, k as int));
        }
    }
    push_subrange(&mut result, content, pos, content.len());
    result
}

/// Line starts are nondecreasing in the line number, and the start of a
/// later valid line lies past the newline that ends an earlier line.
pub proof fn lemma_line_start_order(s: Seq<char>, l1: int, l2: int)
    requires
        1 <= l1 < l2,
        valid_line(s, l2),
    ensures
        valid_line(s, l1),
        next_nl(s, line_start(s, l1)) < line_start(s, l2),
    decreases l2 - l1,
{
    lemma_line_start_bounds(s, l1);
    if line_start(s, l1) > s.len() {
        lemma_line_start_monotone_invalid(s, l1, l2);
    }
    lemma_next_nl(s, line_start(s, l1));
    if l2 == l1 + 1 {
        assert(line_start(s, l2) == if next_nl(s, line_start(s, l1)) < s.len() {
            next_nl(s, line_start(s, l1)) + 1
        } else {
            s.len() as int + 1
        });
    } else {
        lemma_line_start_order(s, l2 - 1, l2);
        lemma_line_start_order(s, l1, l2 - 1);
        lemma_next_nl(s, line_start(s, l2 - 1));
    }
}

/// A position on an earlier line precedes the start of a later line.
pub proof fn lemma_lc_offset_order(s: Seq<char>, a: LineColumn, b: LineColumn)
    requires
        valid_lc(s, a),
        valid_lc(s, b),
        a.line < b.line,
    ensures
        lc_offset(s, a) < lc_offset(s, b),
{
    lemma_line_start_order(s, a.line as int, b.line as int);
}

/// Extract the text of a span. For a span that lies inside the text this
/// is exactly the characters from its start (inclusive) to its end
/// (exclusive); for any other span the result is empty.
pub fn extract_range(s: &str, range: &Range) -> (r: String)
    ensures
        valid_range(s@, *range) ==> r@ == s@.subrange(
            lc_offset(s@, range.start),
            lc_offset(s@, range.end),
        ),
        !valid_range(s@, *range) ==> r@ == Seq::<char>::empty(),
{
    let chars = crate::utils::str_chars(s);
    let o_start = lc_to_offset(&chars, &range.start);
    let o_end = lc_to_offset(&chars, &range.end);
    let mut out: Vec<char> = Vec::new();
    match (o_start, o_end) {
        (Some(a), Some(b)) => {
            if a <= b {
                proof {
                    lemma_lc_offset_bounds(s@, range.end);
                }
                push_subrange(&mut out, &chars, a, b);
            }
        },
        _ => {},
    }
    crate::utils::chars_to_string(&out)
}

/// End of the range before index `i` as a character offset, or the start
/// of the text.
pub open spec fn range_prev_end(s: Seq<char>, rs: Seq<Range>, i: int) -> int {
    if i <= 0 {
        0
    } else {
        lc_offset(s, rs[i - 1].end)
    }
}

/// Adjacent ranges must be separated by at least one line: an edit's end
/// line strictly precedes the next edit's start line.
pub open spec fn ranges_nonoverlapping(rs: Seq<Range>) -> bool {
    forall|i: int|
        0 <= i < rs.len() - 1 ==> (#[trigger] rs[i]).end.line < rs[i + 1].start.line
}

/// Split the text into the `ranges.len() + 1` chunks that lie outside
/// the given ranges, in order. The ranges must already be sorted; a pair
/// of ranges that touch the same line is an overlap and is refused, as
/// is a range outside the text.
#[verifier::rlimit(60)]
pub fn split_by_ranges(content: String, ranges: &Vec<Range>) -> (r: Result<
    Vec<String>,
    crate::errors::SnapshotError,
>)
    ensures
        r matches Err(crate::errors::SnapshotError::OverlappingRanges) <==> !ranges_nonoverlapping(
            ranges@,
        ),
        !(r matches Err(crate::errors::SnapshotError::OverlappingRanges)) ==> ((r matches Err(
            crate::errors::SnapshotError::InvalidRange,
        )) <==> exists|i: int| 0 <= i < ranges@.len() && !valid_range(content@, #[trigger] ranges@[i])),
        ranges_nonoverlapping(ranges@) && (forall|i: int|
            0 <= i < ranges@.len() ==> valid_range(content@, #[trigger] ranges@[i])) ==> r is Ok,
        r matches Ok(chunks) ==> {
            &&& chunks@.len() == ranges@.len() + 1
            &&& forall|i: int|
                0 <= i < ranges@.len() ==> (#[trigger] chunks@[i])@ == content@.subrange(
                    range_prev_end(content@, ranges@, i),
                    lc_offset(content@, ranges@[i].start),
                )
            &&& chunks@[ranges@.len() as int]@ == content@.subrange(
                range_prev_end(content@, ranges@, ranges@.len() as int),
                content@.len() as int,
            )
        },
{
    let ghost s = content@;
    // ranges must be pre-sorted; a shared line is an overlap
    let mut i: usize = 1;
    while i < ranges.len()
        invariant
            1 <= i,
            ranges@.len() > 0 ==> i <= ranges@.len(),
            forall|j: int|
                0 <= j < i - 1 ==> (#[trigger] ranges@[j]).end.line < ranges@[j + 1].start.line,
        decreases ranges.len() - i,
    {
        if ranges[i - 1].end.line >= ranges[i].start.line {
            return Err(crate::errors::SnapshotError::OverlappingRanges);
        }
        i = i + 1;
    }
    let chars = crate::utils::str_chars(&content);
    let mut chunks: Vec<String> = Vec::new();
    let mut pos: usize = 0;
    let mut k: usize = 0;
    while k < ranges.len()
        invariant
            0 <= k <= ranges@.len(),
            s == content@,
            chars@ == s,
            ranges_nonoverlapping(ranges@),
            forall|j: int| 0 <= j < k ==> valid_range(s, #[trigger] ranges@[j]),
            pos == range_prev_end(s, ranges@, k as int),
            pos <= s.len(),
            chunks@.len() == k,
            forall|j: int|
                0 <= j < k ==> (#[trigger] chunks@[j])@ == s.subrange(
                    range_prev_end(s, ranges@, j),
                    lc_offset(s, ranges@[j].start),
                ),
        decreases ranges.len() - k,
    {
        let o_start = lc_to_offset(&chars, &ranges[k].start);
        let o_end = lc_to_offset(&chars, &ranges[k].end);
        match (o_start, o_end) {
            (Some(a), Some(b)) => {
                if b < a {
                    return Err(crate::errors::SnapshotError::InvalidRange);
                }
                proof {
                    lemma_lc_offset_bounds(s, ranges@[k as int].end);
                    if k > 0 {
                        lemma_lc_offset_order(s, ranges@[k - 1].end, ranges@[k as int].start);
                    }
                }
                let mut chunk: Vec<char> = Vec::new();
                push_subrange(&mut chunk, &chars, pos, a);
                chunks.push(crate::utils::chars_to_string(&chunk));
                pos = b;
            },
            _ => {
                return Err(crate::errors::SnapshotError::InvalidRange);
            },
        }
        k = k + 1;
    }
    let mut tail: Vec<char> = Vec::new();
    push_subrange(&mut tail, &chars, pos, chars.len());
    chunks.push(crate::utils::chars_to_string(&tail));
    Ok(chunks)
}

} // verus!
