use crate::source_code::next_nl;
use crate::utils::{lemma_nl_count_concat, lemma_nl_count_single, lemma_nl_count_zero, nl_count};
use vstd::prelude::*;

verus! {

/// One item of a line diff: a line only the left text has, one only the
/// right text has, or a line both share.
#[derive(Debug, Clone, PartialEq, Eq)]
pub enum DiffLine {
    Left(String),
    Right(String),
    Both(String, String),
}

/// A newline-terminated segment loses a trailing carriage return.
pub open spec fn strip_cr(l: Seq<char>) -> Seq<char> {
    if l.len() > 0 && l.last() == '\r' {
        l.drop_last()
    } else {
        l
    }
}

/// The text split at newlines; every segment but the last is stripped of
/// a trailing carriage return.
pub open spec fn split_nl(s: Seq<char>) -> Seq<Seq<char>>
    decreases s.len() via split_nl_dec
{
    let n = next_nl(s, 0);
    if n >= s.len() {
        seq![s]
    } else {
        seq![strip_cr(s.take(n))] + split_nl(s.skip(n + 1))
    }
}

#[via_fn]
proof fn split_nl_dec(s: Seq<char>) {
    crate::source_code::lemma_next_nl(s, 0);
}

/// The line sequence a diff of source texts works on: the split
/// segments, with the empty text contributing no line at all.
pub open spec fn diff_src_lines(s: Seq<char>) -> Seq<Seq<char>> {
    if s.len() == 0 {
        Seq::empty()
    } else {
        split_nl(s)
    }
}

/// The texts of the Left and Both items, in order.
pub open spec fn left_lines(d: Seq<DiffLine>) -> Seq<Seq<char>>
    decreases d.len(),
{
    if d.len() == 0 {
        Seq::empty()
    } else {
        let rest = left_lines(d.drop_first());
        match d.first() {
            DiffLine::Left(l) => seq![l@] + rest,
            DiffLine::Both(l, _) => seq![l@] + rest,
            DiffLine::Right(_) => rest,
        }
    }
}

/// The texts of the Right and Both items, in order.
pub open spec fn right_lines(d: Seq<DiffLine>) -> Seq<Seq<char>>
    decreases d.len(),
{
    if d.len() == 0 {
        Seq::empty()
    } else {
        let rest = right_lines(d.drop_first());
        match d.first() {
            DiffLine::Right(r) => seq![r@] + rest,
            DiffLine::Both(_, r) => seq![r@] + rest,
            DiffLine::Left(_) => rest,
        }
    }
}

/// The two sides of a shared item are the same line.
pub open spec fn both_equal(d: DiffLine) -> bool {
    match d {
        DiffLine::Both(l, r) => l@ == r@,
        _ => true,
    }
}

/// A diff item whose texts hold no newline (every item of a line diff
/// does: the texts are split lines).
pub open spec fn item_nl_free(d: DiffLine) -> bool {
    match d {
        DiffLine::Left(l) => nl_count(l@) == 0,
        DiffLine::Right(r) => nl_count(r@) == 0,
        DiffLine::Both(l, r) => nl_count(l@) == 0 && nl_count(r@) == 0,
    }
}

/// The segments of a split text hold no newline.
proof fn lemma_split_nl_free(s: Seq<char>)
    ensures
        forall|i: int| 0 <= i < split_nl(s).len() ==> nl_count(#[trigger] split_nl(s)[i]) == 0,
    decreases s.len(),
{
    let n = next_nl(s, 0);
    crate::source_code::lemma_next_nl(s, 0);
    if n >= s.len() {
        lemma_nl_count_zero(s);
    } else {
        lemma_nl_count_zero(strip_cr(s.take(n)));
        lemma_split_nl_free(s.skip(n + 1));
        assert forall|i: int|
            0 <= i < split_nl(s).len() implies nl_count(#[trigger] split_nl(s)[i]) == 0 by {
            if i > 0 {
                assert(split_nl(s)[i] == split_nl(s.skip(n + 1))[i - 1]);
            }
        }
    }
}

/// When both projections of a diff are newline-free lines, so is every
/// item's text.
proof fn lemma_items_nl_free(d: Seq<DiffLine>)
    requires
        forall|i: int| 0 <= i < left_lines(d).len() ==> nl_count(#[trigger] left_lines(d)[i]) == 0,
        forall|i: int|
            0 <= i < right_lines(d).len() ==> nl_count(#[trigger] right_lines(d)[i]) == 0,
    ensures
        forall|i: int| 0 <= i < d.len() ==> item_nl_free(#[trigger] d[i]),
    decreases d.len(),
{
    if d.len() > 0 {
        let tail = d.drop_first();
        match d.first() {
            DiffLine::Left(l) => {
                assert(left_lines(d)[0] == l@);
                assert(forall|i: int|
                    0 <= i < left_lines(tail).len() ==> left_lines(tail)[i] == left_lines(d)[i
                        + 1]);
                assert(right_lines(tail) == right_lines(d));
            },
            DiffLine::Right(r) => {
                assert(right_lines(d)[0] == r@);
                assert(forall|i: int|
                    0 <= i < right_lines(tail).len() ==> right_lines(tail)[i] == right_lines(d)[i
                        + 1]);
                assert(left_lines(tail) == left_lines(d));
            },
            DiffLine::Both(l, r) => {
                assert(left_lines(d)[0] == l@);
                assert(right_lines(d)[0] == r@);
                assert(forall|i: int|
                    0 <= i < left_lines(tail).len() ==> left_lines(tail)[i] == left_lines(d)[i
                        + 1]);
                assert(forall|i: int|
                    0 <= i < right_lines(tail).len() ==> right_lines(tail)[i] == right_lines(d)[i
                        + 1]);
            },
        }
        lemma_items_nl_free(tail);
        assert forall|i: int| 0 <= i < d.len() implies item_nl_free(#[trigger] d[i]) by {
            if i > 0 {
                assert(d[i] == tail[i - 1]);
            }
        }
    }
}

/// Relies on diff::lines (a Myers line diff): reading the Left and Both
/// items in order gives back exactly the line sequence of the left text,
/// the Right and Both items that of the right text, and the two sides of
/// a Both item are equal. The line sequence is the text split at
/// newlines, carriage returns stripped before a newline, with one extra
/// empty segment when the text ends in a newline and none at all for an
/// empty text.
#[verifier::external_body]
fn diff_lines(left: &str, right: &str) -> (r: Vec<DiffLine>)
    ensures
        left_lines(r@) == diff_src_lines(left@),
        right_lines(r@) == diff_src_lines(right@),
        forall|i: int| 0 <= i < r@.len() ==> both_equal(#[trigger] r@[i]),
{
    diff::lines(left, right)
        .into_iter()
        .map(
            |d| match d {
                diff::Result::Left(l) => DiffLine::Left(l.to_string()),
                diff::Result::Both(l, r2) => DiffLine::Both(l.to_string(), r2.to_string()),
                diff::Result::Right(r2) => DiffLine::Right(r2.to_string()),
            },
        )
        .collect()
}

/// The verified line diff of the two texts: reading the Left and Both
/// items in order gives back exactly the left text's line sequence, the
/// Right and Both items the right's, and the two sides of a shared item
/// are equal — so a caller can check the listing a rendering is built
/// from.
pub fn diff_items(left: &str, right: &str) -> (r: Vec<DiffLine>)
    ensures
        left_lines(r@) == diff_src_lines(left@),
        right_lines(r@) == diff_src_lines(right@),
        forall|i: int| 0 <= i < r@.len() ==> both_equal(#[trigger] r@[i]),
{
    diff_lines(left, right)
}

/// Drop the last `n` characters (all of them when fewer are left).
fn pop_n(v: &mut Vec<char>, n: usize)
    ensures
        final(v)@ == old(v)@.take(
            if old(v)@.len() >= n {
                old(v)@.len() - n
            } else {
                0
            },
        ),
{
    let keep = if v.len() >= n {
        v.len() - n
    } else {
        0
    };
    while v.len() > keep
        invariant
            keep <= v@.len() <= old(v)@.len(),
            v@ == old(v)@.take(v@.len() as int),
        decreases v@.len(),
    {
        proof {
            assert(v@.take(v@.len() - 1) =~= old(v)@.take(v@.len() - 1));
        }
        let _ = v.pop();
    }
}

/// A plain rendering of a line diff: removed lines painted red behind a
/// `-`, added lines green behind a `+`, shared lines dimmed; each item
/// contributes exactly one newline-terminated output line.
fn uncollapsed_diff(lines: &Vec<DiffLine>) -> (r: Vec<char>)
    ensures
        r@.len() > 0,
        r@[0] == '\n',
        (forall|t: int| 0 <= t < lines@.len() ==> item_nl_free(#[trigger] lines@[t]))
            ==> nl_count(r@) == 1 + lines@.len(),
{
    let ghost items_free = forall|t: int|
        0 <= t < lines@.len() ==> item_nl_free(#[trigger] lines@[t]);
    let mut result: Vec<char> = Vec::new();
    result.push('\n');
    proof {
        lemma_nl_count_single('\n');
        assert(result@ =~= seq!['\n']);
    }
    let mut i: usize = 0;
    while i < lines.len()
        invariant
            0 <= i <= lines@.len(),
            result@.len() > 0,
            result@[0] == '\n',
            items_free == (forall|t: int|
                0 <= t < lines@.len() ==> item_nl_free(#[trigger] lines@[t])),
            items_free ==> nl_count(result@) == 1 + i,
        decreases lines.len() - i,
    {
        let ghost pre = result@;
        let dash: &str = "-";
        let plus: &str = "+";
        proof {
            reveal_strlit("-");
            reveal_strlit("+");
            lemma_nl_count_zero(dash@);
            lemma_nl_count_zero(plus@);
        }
        match &lines[i] {
            DiffLine::Left(l) => {
                let piece = paint_line_red(dash, l.as_str());
                crate::utils::push_str_chars(&mut result, piece.as_str());
                proof {
                    if items_free {
                        assert(item_nl_free(lines@[i as int]));
                        lemma_nl_count_concat(pre, piece@);
                    }
                }
            },
            DiffLine::Right(r2) => {
                let piece = paint_line_green(plus, r2.as_str());
                crate::utils::push_str_chars(&mut result, piece.as_str());
                proof {
                    if items_free {
                        assert(item_nl_free(lines@[i as int]));
                        lemma_nl_count_concat(pre, piece@);
                    }
                }
            },
            DiffLine::Both(l, _) => {
                let piece = paint_line_dimmed(l.as_str());
                crate::utils::push_str_chars(&mut result, piece.as_str());
                proof {
                    if items_free {
                        assert(item_nl_free(lines@[i as int]));
                        lemma_nl_count_concat(pre, piece@);
                    }
                }
            },
        }
        i = i + 1;
    }
    result
}

/// One removed line: the marker and the text, painted red; exactly one
/// newline comes from the line ending itself.
fn paint_line_red(marker: &str, l: &str) -> (r: String)
    ensures
        nl_count(r@) == nl_count(marker@) + nl_count(l@) + 1,
{
    let pm = crate::colors::paint_red(marker);
    let pl = crate::colors::paint_red(l);
    let mut v: Vec<char> = Vec::new();
    crate::utils::push_str_chars(&mut v, pm.as_str());
    v.push(' ');
    crate::utils::push_str_chars(&mut v, pl.as_str());
    v.push('\n');
    proof {
        assert(v@ =~= pm@ + seq![' '] + pl@ + seq!['\n']);
        lemma_nl_count_concat(pm@ + seq![' '] + pl@, seq!['\n']);
        lemma_nl_count_concat(pm@ + seq![' '], pl@);
        lemma_nl_count_concat(pm@, seq![' ']);
        lemma_nl_count_single(' ');
        lemma_nl_count_single('\n');
    }
    crate::utils::chars_to_string(&v)
}

/// One added line: the marker and the text, painted green; exactly one
/// newline comes from the line ending itself.
fn paint_line_green(marker: &str, l: &str) -> (r: String)
    ensures
        nl_count(r@) == nl_count(marker@) + nl_count(l@) + 1,
{
    let pm = crate::colors::paint_green(marker);
    let pl = crate::colors::paint_green(l);
    let mut v: Vec<char> = Vec::new();
    crate::utils::push_str_chars(&mut v, pm.as_str());
    v.push(' ');
    crate::utils::push_str_chars(&mut v, pl.as_str());
    v.push('\n');
    proof {
        assert(v@ =~= pm@ + seq![' '] + pl@ + seq!['\n']);
        lemma_nl_count_concat(pm@ + seq![' '] + pl@, seq!['\n']);
        lemma_nl_count_concat(pm@ + seq![' '], pl@);
        lemma_nl_count_concat(pm@, seq![' ']);
        lemma_nl_count_single(' ');
        lemma_nl_count_single('\n');
    }
    crate::utils::chars_to_string(&v)
}

/// One shared line, dimmed and indented; exactly one newline comes from
/// the line ending itself.
fn paint_line_dimmed(l: &str) -> (r: String)
    ensures
        nl_count(r@) == nl_count(l@) + 1,
{
    let pl = crate::colors::paint_dimmed(l);
    let mut v: Vec<char> = Vec::new();
    v.push(' ');
    v.push(' ');
    crate::utils::push_str_chars(&mut v, pl.as_str());
    v.push('\n');
    proof {
        assert(v@ =~= seq![' ', ' '] + pl@ + seq!['\n']);
        lemma_nl_count_concat(seq![' ', ' '] + pl@, seq!['\n']);
        lemma_nl_count_concat(seq![' ', ' '], pl@);
        lemma_nl_count_single(' ');
        lemma_nl_count_single('\n');
        assert(seq![' ', ' '] =~= seq![' '] + seq![' ']);
        lemma_nl_count_concat(seq![' '], seq![' ']);
    }
    crate::utils::chars_to_string(&v)
}

/// The `...   N lines collapsed` marker line, dimmed as a whole.
fn collapsed_marker(count: usize) -> String {
    let mut v: Vec<char> = Vec::new();
    crate::utils::push_str_chars(&mut v, crate::colors::paint_dimmed("...").as_str());
    v.push(' ');
    v.push(' ');
    v.push(' ');
    crate::utils::push_str_chars(
        &mut v,
        crate::colors::paint_dimmed(crate::utils::usize_to_string(count).as_str()).as_str(),
    );
    v.push(' ');
    crate::utils::push_str_chars(&mut v, crate::colors::paint_dimmed("lines collapsed").as_str());
    v.push('\n');
    let inner = crate::utils::chars_to_string(&v);
    crate::colors::paint_dimmed(inner.as_str())
}

/// A rendering of a long line diff that keeps two shared lines of
/// context around each change and folds longer shared stretches into a
/// `N lines collapsed` marker. The exact padding and folding thresholds
/// are presentation policy, not correctness-bearing.
fn collapsed_diff(lines: &Vec<DiffLine>) -> (r: Vec<char>)
    ensures
        r@.len() > 0,
        r@[0] == '\n',
{
    let mut result: Vec<char> = Vec::new();
    let mut less_significant: Vec<char> = Vec::new();
    result.push('\n');
    let mut collapsed_count: usize = 0;
    let mut last_marker_len: usize = 0;
    let mut padding: bool = true;
    let mut padding_count: usize = 0;
    let mut i: usize = 0;
    while i < lines.len()
        invariant
            0 <= i <= lines@.len(),
            result@.len() > 0,
            result@[0] == '\n',
            padding_count <= 2,
        decreases lines.len() - i,
    {
        match &lines[i] {
            DiffLine::Left(l) => {
                crate::utils::push_chars(&mut result, &less_significant);
                crate::utils::push_str_chars(&mut result, paint_line_red("-", l.as_str()).as_str());
                less_significant = Vec::new();
                collapsed_count = 0;
            },
            DiffLine::Right(r2) => {
                crate::utils::push_str_chars(
                    &mut result,
                    paint_line_green("+", r2.as_str()).as_str(),
                );
                collapsed_count = 0;
                padding = true;
                padding_count = 0;
            },
            DiffLine::Both(l, _) => {
                if padding && padding_count < 2 {
                    crate::utils::push_str_chars(
                        &mut result,
                        paint_line_dimmed(l.as_str()).as_str(),
                    );
                    padding_count = padding_count + 1;
                } else {
                    padding = false;
                    padding_count = 0;
                    let pending = crate::utils::count_newlines(&less_significant);
                    if pending < 2 {
                        crate::utils::push_str_chars(
                            &mut less_significant,
                            paint_line_dimmed(l.as_str()).as_str(),
                        );
                    } else {
                        collapsed_count = if collapsed_count <= usize::MAX - pending {
                            collapsed_count + pending
                        } else {
                            usize::MAX
                        };
                        if collapsed_count > 2 {
                            // fold the marker written for the previous
                            // stretch into this one
                            pop_n(&mut result, last_marker_len);
                            if result.len() == 0 {
                                result.push('\n');
                            }
                        }
                        let marker = collapsed_marker(collapsed_count);
                        let marker_chars = crate::utils::str_chars(marker.as_str());
                        last_marker_len = marker_chars.len();
                        crate::utils::push_chars(&mut result, &marker_chars);
                        less_significant = Vec::new();
                        crate::utils::push_str_chars(
                            &mut less_significant,
                            paint_line_dimmed(l.as_str()).as_str(),
                        );
                    }
                }
            },
        }
        i = i + 1;
    }
    crate::utils::push_chars(&mut result, &less_significant);
    result
}

/// A human-readable line diff of the two texts, or `None` exactly when
/// they are equal. A diff of more than twenty lines is collapsed around
/// its changes unless expanded rendering is asked for. In expanded mode
/// the rendering lists exactly one newline-terminated output line per
/// item of a line diff of the two inputs (the verified item sequence
/// itself is available from `diff_items`); the markers and colors of the
/// listing pass through the terminal-dependent paint step and so cannot
/// be pinned here.
pub fn colored_diff(left: &str, right: &str, expand_mode: bool) -> (r: Option<String>)
    ensures
        r is None <==> left@ == right@,
        r matches Some(d) ==> d@.len() > 0 && d@[0] == '\n',
        expand_mode ==> (r matches Some(d) ==> (exists|items: Seq<DiffLine>|
            {
                &&& left_lines(items) == diff_src_lines(left@)
                &&& right_lines(items) == diff_src_lines(right@)
                &&& (forall|i: int| 0 <= i < items.len() ==> both_equal(#[trigger] items[i]))
                &&& nl_count(d@) == 1 + items.len()
            })),
{
    let l = left.to_owned();
    let rr = right.to_owned();
    if l == rr {
        return None;
    }
    let lines = diff_lines(left, right);
    let rendered = if lines.len() > 20 && !expand_mode {
        collapsed_diff(&lines)
    } else {
        proof {
            lemma_split_nl_free(left@);
            lemma_split_nl_free(right@);
            lemma_items_nl_free(lines@);
        }
        uncollapsed_diff(&lines)
    };
    Some(crate::utils::chars_to_string(&rendered))
}

} // verus!
