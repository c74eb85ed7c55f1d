use crate::errors::SnapshotError;
use crate::source_code::{extract_range, lc_offset, valid_range, LineColumn, Range};
use vstd::prelude::*;

verus! {

#[verifier::external_type_specification]
#[verifier::external_body]
pub struct ExTokenStream(proc_macro2::TokenStream);

#[verifier::external_type_specification]
#[verifier::external_body]
pub struct ExTokenTree(proc_macro2::TokenTree);

/// The mathematical shape of one lexed token: what kind it is, and its
/// span as the lexer reports it (1-based lines, 0-based character
/// columns).
pub struct TokenModel {
    pub kind: TokenKindModel,
    pub start_line: int,
    pub start_col: int,
    pub end_line: int,
    pub end_col: int,
}

pub enum TokenKindModel {
    Ident(Seq<char>),
    Punct(char),
    Literal,
    Group(Seq<TokenModel>),
}

/// What lexing a source text yields: the token trees of the text, or
/// nothing when the text is not lexically valid. A function of the text
/// alone.
pub uninterp spec fn lex_model(content: Seq<char>) -> Option<Seq<TokenModel>>;

/// The tokens a token stream holds, in order.
pub uninterp spec fn stream_model(ts: proc_macro2::TokenStream) -> Seq<TokenModel>;

/// The shape of one token tree.
pub uninterp spec fn token_model(t: proc_macro2::TokenTree) -> TokenModel;

/// The shapes of a list of token trees.
pub open spec fn tokens_model(ts: Seq<proc_macro2::TokenTree>) -> Seq<TokenModel> {
    ts.map_values(|t: proc_macro2::TokenTree| token_model(t))
}

/// Relies on proc_macro2::TokenStream's FromStr impl: lexes source text
/// into a token stream, or fails exactly when the text is not lexically
/// valid; the outcome depends on the text alone.
#[verifier::external_body]
fn parse_token_stream(content: &str) -> (r: Option<proc_macro2::TokenStream>)
    ensures
        r matches Some(ts) ==> lex_model(content@) == Some(stream_model(ts)),
        r is None ==> lex_model(content@) is None,
{
    content.parse::<proc_macro2::TokenStream>().ok()
}

/// Relies on proc_macro2::TokenStream::into_iter: the top-level token
/// trees of the stream, in order.
#[verifier::external_body]
fn stream_to_tokens(ts: proc_macro2::TokenStream) -> (r: Vec<proc_macro2::TokenTree>)
    ensures
        tokens_model(r@) == stream_model(ts),
{
    ts.into_iter().collect()
}

/// Relies on proc_macro2::Ident's Display impl: the identifier's text,
/// for an identifier token; `None` for every other token.
#[verifier::external_body]
fn token_ident_text(t: &proc_macro2::TokenTree) -> (r: Option<String>)
    ensures
        r is Some <==> token_model(*t).kind is Ident,
        r matches Some(s) ==> token_model(*t).kind == TokenKindModel::Ident(s@),
{
    match t {
        proc_macro2::TokenTree::Ident(i) => Some(i.to_string()),
        _ => None,
    }
}

/// Relies on proc_macro2::Punct::as_char: the punctuation character, for
/// a punctuation token; `None` for every other token.
#[verifier::external_body]
fn token_punct_char(t: &proc_macro2::TokenTree) -> (r: Option<char>)
    ensures
        (token_model(*t).kind matches TokenKindModel::Punct(c) ==> r == Some(c)),
        !(token_model(*t).kind is Punct) ==> r is None,
{
    match t {
        proc_macro2::TokenTree::Punct(p) => Some(p.as_char()),
        _ => None,
    }
}

/// Relies on proc_macro2::Group::stream: the tokens between the
/// delimiters of a group token; `None` for every other token.
#[verifier::external_body]
fn token_group_stream(t: &proc_macro2::TokenTree) -> (r: Option<proc_macro2::TokenStream>)
    ensures
        r is Some <==> token_model(*t).kind is Group,
        r matches Some(gs) ==> token_model(*t).kind == TokenKindModel::Group(stream_model(gs)),
{
    match t {
        proc_macro2::TokenTree::Group(g) => Some(g.stream()),
        _ => None,
    }
}

/// Relies on proc_macro2::TokenTree's variants: tells a literal token
/// apart from the other kinds of token.
#[verifier::external_body]
fn token_is_literal(t: &proc_macro2::TokenTree) -> (r: bool)
    ensures
        r == (token_model(*t).kind is Literal),
{
    match t {
        proc_macro2::TokenTree::Literal(_) => true,
        _ => false,
    }
}

/// Relies on proc_macro2::TokenTree::span and Span::start/end (with the
/// span-locations feature): the token's position as
/// (start line, start column, end line, end column), lines 1-indexed and
/// columns 0-indexed in characters.
#[verifier::external_body]
fn token_span(t: &proc_macro2::TokenTree) -> (r: (usize, usize, usize, usize))
    ensures
        r.0 as int == token_model(*t).start_line,
        r.1 as int == token_model(*t).start_col,
        r.2 as int == token_model(*t).end_line,
        r.3 as int == token_model(*t).end_col,
{
    let span = t.span();
    let s = span.start();
    let e = span.end();
    (s.line, s.column, e.line, e.column)
}

// ---------------------------------------------------------------------
// The located call, as a function of the token model
// ---------------------------------------------------------------------

/// Whether a macro call pattern — an identifier with the wanted name
/// starting on the wanted line, a `!`, and a delimited group — stands at
/// index `i`.
pub open spec fn match_at(toks: Seq<TokenModel>, i: int, name: Seq<char>, line: int) -> bool {
    &&& 0 <= i
    &&& i + 2 < toks.len()
    &&& toks[i].kind matches TokenKindModel::Ident(text) && text == name
    &&& toks[i].start_line == line
    &&& toks[i + 1].kind matches TokenKindModel::Punct(c) && c == '!'
    &&& toks[i + 2].kind is Group
}

/// The first match in depth-first, left-to-right order at or after index
/// `i`: the name token and the argument group of the call.
pub open spec fn locate_scan(toks: Seq<TokenModel>, i: int, name: Seq<char>, line: int) -> Option<
    (TokenModel, TokenModel),
>
    decreases toks, toks.len() - i,
{
    if i < 0 || i >= toks.len() {
        None
    } else if match_at(toks, i, name, line) {
        Some((toks[i], toks[i + 2]))
    } else {
        let deeper = match toks[i].kind {
            TokenKindModel::Group(children) => locate_scan(children, 0, name, line),
            _ => None,
        };
        if deeper is Some {
            deeper
        } else {
            locate_scan(toks, i + 1, name, line)
        }
    }
}

/// Whether a token's span survives the shift to 1-based columns.
pub open spec fn ok_span(t: TokenModel) -> bool {
    &&& 0 <= t.start_line <= usize::MAX as int
    &&& 0 <= t.end_line <= usize::MAX as int
    &&& 0 <= t.start_col < usize::MAX as int
    &&& 0 <= t.end_col < usize::MAX as int
}

/// A token's start as a 1-based position.
pub open spec fn model_start(t: TokenModel) -> LineColumn {
    LineColumn { line: t.start_line as usize, column: (t.start_col + 1) as usize }
}

/// A token's end as a 1-based position.
pub open spec fn model_end(t: TokenModel) -> LineColumn {
    LineColumn { line: t.end_line as usize, column: (t.end_col + 1) as usize }
}

/// The source text of the located call: from the name token's start to
/// the group's end, or empty when that span does not lie in the text.
pub open spec fn spec_call_text(
    content: Seq<char>,
    ident: TokenModel,
    group: TokenModel,
) -> Seq<char> {
    let rg = Range { start: model_start(ident), end: model_end(group) };
    if valid_range(content, rg) {
        content.subrange(lc_offset(content, rg.start), lc_offset(content, rg.end))
    } else {
        Seq::empty()
    }
}

/// What locating and resolving yields: the range to rewrite, a malformed
/// call site (with its source text), or no usable call.
pub enum LocatedOutcome {
    Found(Range),
    Malformed(Seq<char>),
    Missing,
}

/// Range resolution over the argument tokens of the located call (the
/// model-level mirror of `resolve_snapshot_range`).
pub open spec fn spec_resolve_args(
    args: Seq<TokenModel>,
    literal_exists: bool,
    call_text: Seq<char>,
) -> LocatedOutcome {
    if args.len() == 0 {
        if literal_exists {
            LocatedOutcome::Malformed(call_text)
        } else {
            LocatedOutcome::Missing
        }
    } else if exists|j: int| 0 <= j < args.len() && !ok_span(#[trigger] args[j]) {
        LocatedOutcome::Missing
    } else {
        let last = args.last();
        if literal_exists {
            if last.kind is Literal {
                LocatedOutcome::Found(Range { start: model_start(last), end: model_end(last) })
            } else {
                LocatedOutcome::Malformed(call_text)
            }
        } else {
            LocatedOutcome::Found(Range { start: model_end(last), end: model_end(last) })
        }
    }
}

/// What `find_snapshot_literal_range` returns, as a function of the
/// lexed token model of the file: resolve the first matching call in
/// depth-first order, or report that none is usable.
pub open spec fn spec_locate(
    content: Seq<char>,
    toks: Seq<TokenModel>,
    name: Seq<char>,
    line: int,
    literal_exists: bool,
) -> LocatedOutcome {
    match locate_scan(toks, 0, name, line) {
        None => LocatedOutcome::Missing,
        Some((ident, group)) => if !ok_span(ident) || !ok_span(group) {
            LocatedOutcome::Missing
        } else {
            match group.kind {
                TokenKindModel::Group(children) => spec_resolve_args(
                    children,
                    literal_exists,
                    spec_call_text(content, ident, group),
                ),
                _ => LocatedOutcome::Missing,
            }
        },
    }
}

// ---------------------------------------------------------------------
// Termination measure and stack bookkeeping for the walk
// ---------------------------------------------------------------------

/// Number of tokens at or after index `i`, groups counted with their
/// contents.
pub open spec fn tokens_size(toks: Seq<TokenModel>, i: int) -> nat
    decreases toks, toks.len() - i,
{
    if i < 0 || i >= toks.len() {
        0
    } else {
        1 + (match toks[i].kind {
            TokenKindModel::Group(children) => tokens_size(children, 0),
            _ => 0,
        }) + tokens_size(toks, i + 1)
    }
}

/// The models of the walk's resume frames.
pub open spec fn frames_models(fs: Seq<(Vec<proc_macro2::TokenTree>, usize)>) -> Seq<
    (Seq<TokenModel>, int),
> {
    fs.map_values(|f: (Vec<proc_macro2::TokenTree>, usize)| (tokens_model(f.0@), f.1 as int))
}

/// The first match the remaining frames will find, top of stack first.
pub open spec fn stack_result(
    fs: Seq<(Seq<TokenModel>, int)>,
    name: Seq<char>,
    line: int,
) -> Option<(TokenModel, TokenModel)>
    decreases fs.len(),
{
    if fs.len() == 0 {
        None
    } else {
        match locate_scan(fs.last().0, fs.last().1, name, line) {
            Some(m) => Some(m),
            None => stack_result(fs.drop_last(), name, line),
        }
    }
}

/// Work left in the remaining frames.
pub open spec fn stack_size(fs: Seq<(Seq<TokenModel>, int)>) -> nat
    decreases fs.len(),
{
    if fs.len() == 0 {
        0
    } else {
        tokens_size(fs.last().0, fs.last().1) + stack_size(fs.drop_last())
    }
}

// ---------------------------------------------------------------------
// The verified locator
// ---------------------------------------------------------------------

/// One argument token of a located macro call, reduced to what range
/// resolution needs: whether it is a literal, and its span with 1-based
/// lines and columns.
#[derive(Clone, Copy, Debug, PartialEq, Eq, Structural)]
pub struct ArgToken {
    pub is_literal: bool,
    pub start: LineColumn,
    pub end: LineColumn,
}

/// The argument token a model token converts to.
pub open spec fn arg_of(m: TokenModel) -> ArgToken {
    ArgToken { is_literal: m.kind is Literal, start: model_start(m), end: model_end(m) }
}

/// Convert a raw token span (1-based lines, 0-based columns) into a pair
/// of 1-based positions; refused when a column cannot be shifted.
fn convert_span(t: &proc_macro2::TokenTree) -> (r: Option<(LineColumn, LineColumn)>)
    ensures
        r is Some <==> ok_span(token_model(*t)),
        r matches Some(p) ==> p == (model_start(token_model(*t)), model_end(token_model(*t))),
{
    let (sl, sc, el, ec) = token_span(t);
    if sc == usize::MAX || ec == usize::MAX {
        return None;
    }
    Some(
        (
            LineColumn { line: sl, column: sc + 1 },
            LineColumn { line: el, column: ec + 1 },
        ),
    )
}

/// Resolve where the snapshot literal lives among the argument tokens of
/// a call. In replace mode the trailing token must be the literal and
/// its exact span is returned; a trailing non-literal is a malformed
/// call site, reported with the call's source text. In create mode the
/// result is the zero-width insertion point right after the last
/// existing token. A call without argument tokens has nothing to replace
/// and no position to insert after.
pub fn resolve_snapshot_range(
    tokens: &Vec<ArgToken>,
    literal_exists: bool,
    call_text: &str,
    macro_name: &str,
    line_num: usize,
) -> (r: Result<Range, SnapshotError>)
    ensures
        tokens@.len() == 0 && literal_exists ==> (r matches Err(e) && (e matches
        SnapshotError::MalformedCallSite(m) && m@ == call_text@)),
        tokens@.len() == 0 && !literal_exists ==> (r matches Err(e) && is_not_found(
            e,
            macro_name@,
            line_num as int,
        )),
        tokens@.len() > 0 && literal_exists && tokens@.last().is_literal ==> (r matches Ok(rg)
            && rg == (Range { start: tokens@.last().start, end: tokens@.last().end })),
        tokens@.len() > 0 && literal_exists && !tokens@.last().is_literal ==> (r matches Err(e)
            && (e matches SnapshotError::MalformedCallSite(m) && m@ == call_text@)),
        tokens@.len() > 0 && !literal_exists ==> (r matches Ok(rg) && rg == (Range {
            start: tokens@.last().end,
            end: tokens@.last().end,
        })),
{
    if tokens.len() == 0 {
        if literal_exists {
            return Err(SnapshotError::MalformedCallSite(call_text.to_owned()));
        }
        return Err(SnapshotError::NotFound { name: macro_name.to_owned(), line: line_num });
    }
    let last = &tokens[tokens.len() - 1];
    if literal_exists {
        if last.is_literal {
            Ok(Range { start: last.start, end: last.end })
        } else {
            Err(SnapshotError::MalformedCallSite(call_text.to_owned()))
        }
    } else {
        Ok(Range { start: last.end, end: last.end })
    }
}

/// Convert every argument token of the located call, or report that
/// some span cannot be shifted.
fn convert_args(raw_args: &Vec<proc_macro2::TokenTree>) -> (r: Option<Vec<ArgToken>>)
    ensures
        r is Some <==> (forall|j: int|
            0 <= j < tokens_model(raw_args@).len() ==> ok_span(
                #[trigger] tokens_model(raw_args@)[j],
            )),
        r matches Some(v) ==> v@ == tokens_model(raw_args@).map_values(|m: TokenModel| arg_of(m)),
{
    let ghost ms = tokens_model(raw_args@);
    let mut args: Vec<ArgToken> = Vec::new();
    let mut j: usize = 0;
    proof {
        assert(args@ =~= ms.take(0).map_values(|m: TokenModel| arg_of(m)));
    }
    while j < raw_args.len()
        invariant
            0 <= j <= raw_args@.len(),
            ms == tokens_model(raw_args@),
            args@ == ms.take(j as int).map_values(|m: TokenModel| arg_of(m)),
            forall|t2: int| 0 <= t2 < j ==> ok_span(#[trigger] ms[t2]),
        decreases raw_args.len() - j,
    {
        proof {
            assert(ms[j as int] == token_model(raw_args@[j as int]));
        }
        match convert_span(&raw_args[j]) {
            Some((s, e)) => {
                let lit = token_is_literal(&raw_args[j]);
                args.push(ArgToken { is_literal: lit, start: s, end: e });
                proof {
                    assert(args@ =~= ms.take(j + 1).map_values(|m: TokenModel| arg_of(m)));
                }
            },
            None => {
                proof {
                    assert(!ok_span(ms[j as int]));
                }
                return None;
            },
        }
        j = j + 1;
    }
    proof {
        assert(ms.take(ms.len() as int) =~= ms);
    }
    Some(args)
}

/// The error that reports no usable call, carrying what was searched
/// for.
pub open spec fn is_not_found(e: SnapshotError, name: Seq<char>, line: int) -> bool {
    e matches SnapshotError::NotFound { name: n, line: l } && n@ == name && l as int == line
}

/// How the locator's result relates to the model-level outcome.
pub open spec fn locate_result_matches(
    r: Result<Range, SnapshotError>,
    out: LocatedOutcome,
    name: Seq<char>,
    line: int,
) -> bool {
    match out {
        LocatedOutcome::Found(rg) => r == Ok::<Range, SnapshotError>(rg),
        LocatedOutcome::Malformed(ct) => r matches Err(e) && (e matches
        SnapshotError::MalformedCallSite(m) && m@ == ct),
        LocatedOutcome::Missing => r matches Err(e) && is_not_found(e, name, line),
    }
}

/// Find the range containing the place where the snapshot literal needs
/// to be written, for the macro call named `macro_name` whose own name
/// token starts on the 1-based line `line_num`.
///
/// If no literal exists yet, the result is the zero-width position right
/// after the last existing argument:
///
/// ```text
/// some_macro!(blah);
///                ^
///        zero-width range where the
///        new snapshot will be written
/// ```
///
/// Otherwise it is the span of the existing trailing literal:
///
/// ```text
/// some_macro!(blah, "hello")
///                   ^     ^
///                     range
/// ```
///
/// The search walks the token trees of the file depth-first, left to
/// right, and takes the first call whose final name segment and line
/// both match: exactly `spec_locate` over the file's lexed token model.
/// A file that does not lex, or a matching call that is nowhere to be
/// found, is reported as `NotFound` (the file on disk has drifted from
/// the executed code).
pub fn find_snapshot_literal_range(
    file_content: &str,
    macro_name: &str,
    line_num: usize,
    literal_exists: bool,
) -> (r: Result<Range, SnapshotError>)
    ensures
        lex_model(file_content@) is None ==> (r matches Err(e) && is_not_found(
            e,
            macro_name@,
            line_num as int,
        )),
        lex_model(file_content@) matches Some(toks) ==> locate_result_matches(
            r,
            spec_locate(file_content@, toks, macro_name@, line_num as int, literal_exists),
            macro_name@,
            line_num as int,
        ),
        !literal_exists ==> (r matches Ok(rg) ==> rg.start == rg.end),
        r matches Err(e) ==> (e is NotFound || e matches SnapshotError::MalformedCallSite(_)),
{
    let ghost content = file_content@;
    let ghost name = macro_name@;
    let ghost line = line_num as int;
    let stream = match parse_token_stream(file_content) {
        Some(ts) => ts,
        None => {
            return Err(SnapshotError::NotFound { name: macro_name.to_owned(), line: line_num });
        },
    };
    let ghost root = stream_model(stream);
    let wanted = macro_name.to_owned();
    let mut frames: Vec<(Vec<proc_macro2::TokenTree>, usize)> = Vec::new();
    frames.push((stream_to_tokens(stream), 0));
    proof {
        let fm = frames_models(frames@);
        assert(fm =~= seq![(root, 0int)]);
        assert(fm.last() == (root, 0int));
        assert(fm.drop_last() =~= Seq::<(Seq<TokenModel>, int)>::empty());
        assert(stack_result(fm.drop_last(), name, line) is None);
        assert(stack_result(fm, name, line) == locate_scan(root, 0, name, line));
    }
    while frames.len() > 0
        invariant
            content == file_content@,
            name == macro_name@,
            line == line_num as int,
            wanted@ == name,
            lex_model(content) == Some(root),
            stack_result(frames_models(frames@), name, line) == locate_scan(root, 0, name, line),
        decreases stack_size(frames_models(frames@)), frames@.len(),
    {
        let ghost old_models = frames_models(frames@);
        let (toks, i) = match frames.pop() {
            Some(f) => f,
            None => {
                proof {
                    assert(false);
                }
                return Err(SnapshotError::NotFound { name: macro_name.to_owned(), line: line_num });
            },
        };
        let ghost m_top = tokens_model(toks@);
        proof {
            assert(old_models.len() == frames@.len() + 1);
            assert(old_models.last() == (m_top, i as int));
            assert(frames_models(frames@) =~= old_models.drop_last());
            assert(stack_result(old_models, name, line) == locate_scan(root, 0, name, line));
            assert(stack_size(old_models) == tokens_size(m_top, i as int) + stack_size(
                frames_models(frames@),
            ));
        }
        if i >= toks.len() {
            proof {
                assert(m_top.len() == toks@.len());
                assert(locate_scan(m_top, i as int, name, line) is None);
                assert(tokens_size(m_top, i as int) == 0);
                assert(stack_result(frames_models(frames@), name, line) == stack_result(
                    old_models,
                    name,
                    line,
                ));
            }
            continue ;
        }
        let t = &toks[i];
        proof {
            assert(m_top[i as int] == token_model(toks@[i as int]));
        }
        // a macro call is an identifier, a `!`, and a delimited group
        let mut matched = false;
        if toks.len() - i > 2 {
            proof {
                assert(m_top[i + 1] == token_model(toks@[i + 1]));
                assert(m_top[i + 2] == token_model(toks@[i + 2]));
            }
            matched = ident_matches(t, &wanted, line_num) && punct_is_bang(&toks[i + 1])
                && is_group(&toks[i + 2]);
        }
        proof {
            assert(matched == match_at(m_top, i as int, name, line));
        }
        if matched {
            let ghost ident_m = m_top[i as int];
            let ghost group_m = m_top[i + 2];
            proof {
                assert(locate_scan(m_top, i as int, name, line) == Some((ident_m, group_m)));
                assert(stack_result(old_models, name, line) == Some((ident_m, group_m)));
                assert(locate_scan(root, 0, name, line) == Some((ident_m, group_m)));
            }
            let call_span = match (convert_span(t), convert_span(&toks[i + 2])) {
                (Some((cs, _)), Some((_, ce))) => Range { start: cs, end: ce },
                _ => {
                    proof {
                        assert(!ok_span(ident_m) || !ok_span(group_m));
                        assert(spec_locate(content, root, name, line, literal_exists)
                            is Missing);
                    }
                    return Err(SnapshotError::NotFound { name: macro_name.to_owned(), line: line_num });
                },
            };
            proof {
                assert(ok_span(ident_m) && ok_span(group_m));
                assert(call_span == (Range { start: model_start(ident_m), end: model_end(group_m) }));
            }
            let args_stream = match token_group_stream(&toks[i + 2]) {
                Some(gs) => gs,
                None => {
                    proof {
                        assert(false);
                    }
                    return Err(SnapshotError::NotFound { name: macro_name.to_owned(), line: line_num });
                },
            };
            let ghost children = group_m.kind->Group_0;
            proof {
                assert(group_m.kind == TokenKindModel::Group(children));
            }
            let call_text = extract_range(file_content, &call_span);
            proof {
                assert(call_text@ == spec_call_text(content, ident_m, group_m));
            }
            let raw_args = stream_to_tokens(args_stream);
            proof {
                assert(tokens_model(raw_args@) == children);
            }
            let args = match convert_args(&raw_args) {
                Some(v) => v,
                None => {
                    proof {
                        assert(exists|j: int|
                            0 <= j < children.len() && !ok_span(#[trigger] children[j]));
                        assert(spec_resolve_args(
                            children,
                            literal_exists,
                            spec_call_text(content, ident_m, group_m),
                        ) is Missing);
                        assert(spec_locate(content, root, name, line, literal_exists)
                            is Missing);
                    }
                    return Err(SnapshotError::NotFound { name: macro_name.to_owned(), line: line_num });
                },
            };
            proof {
                assert(args@ == children.map_values(|m: TokenModel| arg_of(m)));
                assert(args@.len() == children.len());
                if children.len() > 0 {
                    assert(args@.last() == children.map_values(|m: TokenModel| arg_of(m))[children.len()
                        - 1]);
                    assert(args@.last() == arg_of(children.last()));
                }
                assert(forall|j: int|
                    0 <= j < children.len() ==> ok_span(#[trigger] children[j]));
            }
            let r = resolve_snapshot_range(
                &args,
                literal_exists,
                call_text.as_str(),
                macro_name,
                line_num,
            );
            proof {
                let out = spec_resolve_args(
                    children,
                    literal_exists,
                    spec_call_text(content, ident_m, group_m),
                );
                assert(spec_locate(content, root, name, line, literal_exists) == out);
                if children.len() > 0 {
                    assert(arg_of(children.last()).is_literal == (children.last().kind
                        is Literal));
                }
                assert(locate_result_matches(r, out, name, line));
            }
            return r;
        }
        // descend into a group after remembering where to resume
        let descend = token_group_stream(t);
        let ghost rest = frames_models(frames@);
        frames.push((toks, i + 1));
        proof {
            assert(frames_models(frames@) =~= rest.push((m_top, i + 1)));
            assert(frames_models(frames@).last() == (m_top, i + 1));
            assert(frames_models(frames@).drop_last() =~= rest);
        }
        match descend {
            Some(gs) => {
                let ghost children = m_top[i as int].kind->Group_0;
                let ghost mid = frames_models(frames@);
                frames.push((stream_to_tokens(gs), 0));
                proof {
                    assert(m_top[i as int].kind == TokenKindModel::Group(children));
                    assert(frames_models(frames@) =~= mid.push((children, 0int)));
                    assert(frames_models(frames@).last() == (children, 0int));
                    assert(frames_models(frames@).drop_last() =~= mid);
                    // the walk's answer is unchanged: the group's inside
                    // comes first, then the rest of this frame
                    assert(locate_scan(m_top, i as int, name, line) == (if locate_scan(
                        children,
                        0,
                        name,
                        line,
                    ) is Some {
                        locate_scan(children, 0, name, line)
                    } else {
                        locate_scan(m_top, i + 1, name, line)
                    }));
                    assert(stack_result(frames_models(frames@), name, line) == stack_result(
                        old_models,
                        name,
                        line,
                    ));
                    // and the remaining work shrank by the visited token
                    assert(tokens_size(m_top, i as int) == 1 + tokens_size(children, 0)
                        + tokens_size(m_top, i + 1));
                    assert(stack_size(frames_models(frames@)) + 1 == stack_size(old_models));
                }
            },
            None => {
                proof {
                    assert(!(m_top[i as int].kind is Group));
                    assert(locate_scan(m_top, i as int, name, line) == locate_scan(
                        m_top,
                        i + 1,
                        name,
                        line,
                    ));
                    assert(stack_result(frames_models(frames@), name, line) == stack_result(
                        old_models,
                        name,
                        line,
                    ));
                    assert(tokens_size(m_top, i as int) == 1 + tokens_size(m_top, i + 1));
                    assert(stack_size(frames_models(frames@)) + 1 == stack_size(old_models));
                }
            },
        }
    }
    proof {
        assert(frames_models(frames@).len() == 0);
        assert(stack_result(frames_models(frames@), name, line) is None);
        assert(spec_locate(content, root, name, line, literal_exists) is Missing);
    }
    Err(SnapshotError::NotFound { name: macro_name.to_owned(), line: line_num })
}

/// Whether the token is an identifier with the wanted text whose span
/// starts on the wanted line.
fn ident_matches(t: &proc_macro2::TokenTree, wanted: &String, line_num: usize) -> (r: bool)
    ensures
        r == (token_model(*t).kind matches TokenKindModel::Ident(text) && text == wanted@
            && token_model(*t).start_line == line_num as int),
{
    match token_ident_text(t) {
        Some(text) => {
            if text == *wanted {
                let (sl, _, _, _) = token_span(t);
                sl == line_num
            } else {
                false
            }
        },
        None => false,
    }
}

/// Whether the token is the punctuation character `!`.
fn punct_is_bang(t: &proc_macro2::TokenTree) -> (r: bool)
    ensures
        r == (token_model(*t).kind matches TokenKindModel::Punct(c) && c == '!'),
{
    match token_punct_char(t) {
        Some(c) => c == '!',
        None => false,
    }
}

/// Whether the token is a delimited group.
fn is_group(t: &proc_macro2::TokenTree) -> (r: bool)
    ensures
        r == (token_model(*t).kind is Group),
{
    match token_group_stream(t) {
        Some(_) => true,
        None => false,
    }
}

} // verus!
