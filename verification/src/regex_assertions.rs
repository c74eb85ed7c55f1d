use crate::assertion_error::AssertionError;
use vstd::prelude::*;

verus! {

/// Whether the pattern is a valid regular expression (what
/// `regex::Regex::new` accepts).
pub uninterp spec fn valid_regex(pattern: Seq<char>) -> bool;

/// Whether the regular expression matches the text; a function of the
/// two strings alone.
pub uninterp spec fn regex_matches(pattern: Seq<char>, text: Seq<char>) -> bool;

/// Relies on regex::Regex::new and regex::Regex::is_match: the pattern
/// compiles exactly when it is a valid regular expression, and the
/// compiled expression's verdict on the text depends only on the pattern
/// and the text.
#[verifier::external_body]
fn regex_match(pattern: &str, text: &str) -> (r: Option<bool>)
    ensures
        r is Some <==> valid_regex(pattern@),
        r matches Some(b) ==> b == regex_matches(pattern@, text@),
{
    regex::Regex::new(pattern).ok().map(|re| re.is_match(text))
}

/// The failure text of `assert_matches_regex_impl`.
fn matches_regex_failure(s: &str, regex: &str, context: Option<&str>) -> String {
    let mut v: Vec<char> = Vec::new();
    v.push('\n');
    match context {
        Some(c) => {
            crate::utils::push_str_chars(&mut v, crate::utils::add_linebreaks(c).as_str());
        },
        None => {},
    }
    crate::utils::push_str_chars(
        &mut v,
        crate::colors::paint_dimmed("assert_matches_regex!").as_str(),
    );
    v.push('(');
    crate::utils::push_str_chars(&mut v, crate::colors::paint_red("string").as_str());
    v.push(',');
    v.push(' ');
    crate::utils::push_str_chars(&mut v, crate::colors::paint_green("regex").as_str());
    crate::utils::push_str_chars(&mut v, ");\n\nExpected string:\n  ");
    crate::utils::push_str_chars(&mut v, crate::colors::paint_red(s).as_str());
    crate::utils::push_str_chars(&mut v, "\nto match regex:\n  `");
    crate::utils::push_str_chars(&mut v, crate::colors::paint_green(regex).as_str());
    v.push('`');
    crate::utils::chars_to_string(&v)
}

/// Assert that the string matches the regular expression. The pattern
/// must be valid; `try_assert_matches_regex` checks that first.
pub fn assert_matches_regex_impl(s: &str, regex: &str, context: Option<&str>) -> (r: Result<
    (),
    AssertionError,
>)
    requires
        valid_regex(regex@),
    ensures
        r is Ok <==> regex_matches(regex@, s@),
{
    match regex_match(regex, s) {
        Some(true) => Ok(()),
        Some(false) => Err(AssertionError::new(matches_regex_failure(s, regex, context))),
        None => {
            proof {
                assert(false);
            }
            Err(AssertionError::new(matches_regex_failure(s, regex, context)))
        },
    }
}

/// Assert that the string matches the regular expression, checking first
/// that the pattern compiles: `None` reports an invalid pattern.
pub fn try_assert_matches_regex(s: &str, regex: &str, context: Option<&str>) -> (r: Option<
    Result<(), AssertionError>,
>)
    ensures
        r is Some <==> valid_regex(regex@),
        r matches Some(x) ==> ((x is Ok) <==> regex_matches(regex@, s@)),
{
    match regex_match(regex, s) {
        Some(_) => Some(assert_matches_regex_impl(s, regex, context)),
        None => None,
    }
}

/// The failure text of a result whose error does not match the pattern.
fn err_regex_mismatch_failure(err_repr: &str, regex: &str, context: Option<&str>) -> String {
    let mut v: Vec<char> = Vec::new();
    v.push('\n');
    match context {
        Some(c) => {
            crate::utils::push_str_chars(&mut v, crate::utils::add_linebreaks(c).as_str());
        },
        None => {},
    }
    push_err_regex_desc(&mut v);
    crate::utils::push_str_chars(&mut v, "\nExpected `");
    crate::utils::push_str_chars(&mut v, crate::colors::paint_red("Result<T, E>").as_str());
    crate::utils::push_str_chars(&mut v, "` to be an `");
    crate::utils::push_str_chars(
        &mut v,
        crate::colors::paint_red("Err(std::fmt::Debug)").as_str(),
    );
    crate::utils::push_str_chars(&mut v, "` that matches ");
    crate::utils::push_str_chars(&mut v, crate::colors::paint_green(regex).as_str());
    crate::utils::push_str_chars(&mut v, ":\n");
    crate::utils::push_str_chars(&mut v, crate::colors::paint_red(err_repr).as_str());
    crate::utils::push_str_chars(&mut v, "\n\n");
    crate::utils::chars_to_string(&v)
}

/// The failure text of a result that was an `Ok`.
fn err_regex_ok_failure(regex: &str, context: Option<&str>) -> String {
    let mut v: Vec<char> = Vec::new();
    v.push('\n');
    match context {
        Some(c) => {
            crate::utils::push_str_chars(&mut v, crate::utils::add_linebreaks(c).as_str());
        },
        None => {},
    }
    push_err_regex_desc(&mut v);
    crate::utils::push_str_chars(&mut v, "\nExpected `");
    crate::utils::push_str_chars(&mut v, crate::colors::paint_red("Result<T, E>").as_str());
    crate::utils::push_str_chars(&mut v, "` to be an `");
    crate::utils::push_str_chars(
        &mut v,
        crate::colors::paint_red("Err(std::fmt::Debug)").as_str(),
    );
    crate::utils::push_str_chars(&mut v, "` that matches ");
    crate::utils::push_str_chars(&mut v, crate::colors::paint_green(regex).as_str());
    crate::utils::push_str_chars(&mut v, "\nbut it was `");
    crate::utils::push_str_chars(&mut v, crate::colors::paint_green("Ok(T)").as_str());
    crate::utils::push_str_chars(&mut v, "`\n\n");
    crate::utils::chars_to_string(&v)
}

/// The `assert_err_matches_regex!(Result<T, E>, regex);` call rendering
/// shared by the two failure texts above.
fn push_err_regex_desc(v: &mut Vec<char>) {
    crate::utils::push_str_chars(
        v,
        crate::colors::paint_dimmed("assert_err_matches_regex!").as_str(),
    );
    v.push('(');
    crate::utils::push_str_chars(v, crate::colors::paint_red("Result<T, E>").as_str());
    v.push(',');
    v.push(' ');
    crate::utils::push_str_chars(v, crate::colors::paint_green("regex").as_str());
    crate::utils::push_str_chars(v, ");\n");
}

/// Judge the rendered error text of a result against the pattern: `Ok`
/// exactly when the text matches.
pub fn err_repr_matches_regex(err_repr: &str, regex: &str, context: Option<&str>) -> (r: Result<
    (),
    AssertionError,
>)
    requires
        valid_regex(regex@),
    ensures
        r is Ok <==> regex_matches(regex@, err_repr@),
{
    match regex_match(regex, err_repr) {
        Some(true) => Ok(()),
        Some(false) => Err(
            AssertionError::new(err_regex_mismatch_failure(err_repr, regex, context)),
        ),
        None => {
            proof {
                assert(false);
            }
            Err(AssertionError::new(err_regex_mismatch_failure(err_repr, regex, context)))
        },
    }
}

/// Assert that the result is an `Err` whose rendered text matches the
/// regular expression. The pattern must be valid;
/// `try_assert_err_matches_regex` checks that first.
pub fn assert_err_matches_regex_impl<A, T: core::fmt::Debug>(
    result: Result<A, T>,
    regex: &str,
    context: Option<&str>,
) -> (r: Result<(), AssertionError>)
    requires
        valid_regex(regex@),
    ensures
        result is Ok ==> r is Err,
{
    match result {
        Err(err) => {
            let repr = crate::assertions::debug_compact(&err);
            err_repr_matches_regex(repr.as_str(), regex, context)
        },
        Ok(_) => Err(AssertionError::new(err_regex_ok_failure(regex, context))),
    }
}

/// Assert that the result is an `Err` whose rendered text matches the
/// regular expression, checking first that the pattern compiles: `None`
/// reports an invalid pattern.
pub fn try_assert_err_matches_regex<A, T: core::fmt::Debug>(
    result: Result<A, T>,
    regex: &str,
    context: Option<&str>,
) -> (r: Option<Result<(), AssertionError>>)
    ensures
        r is Some <==> valid_regex(regex@),
        r matches Some(x) ==> (result is Ok ==> x is Err),
{
    match regex_match(regex, "") {
        Some(_) => Some(assert_err_matches_regex_impl(result, regex, context)),
        None => None,
    }
}

} // verus!
