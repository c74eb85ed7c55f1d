use crate::config::Config;
use core::cmp::Ordering;
use vstd::prelude::*;
use vstd::std_specs::cmp::{PartialEqSpec, PartialOrdSpec};

verus! {

/// Relies on std's pretty Debug formatting (`{:#?}`) of the value.
#[verifier::external_body]
pub fn debug_repr<V: core::fmt::Debug>(v: &V) -> String {
    format!("{:#?}", v)
}

/// Relies on std's compact Debug formatting (`{:?}`) of the value.
#[verifier::external_body]
pub fn debug_compact<V: core::fmt::Debug>(v: &V) -> String {
    format!("{:?}", v)
}

/// A failed assertion, ready to be rendered.
#[derive(Debug)]
pub struct Assertion {
    /// Context the caller gave, to explain what was being asserted.
    pub description: Option<String>,
    /// The name of the assertion that was invoked, e.g. `assert_equal`.
    pub name: String,
    /// The arguments passed to the assertion, as written at the call
    /// site, e.g. `1 + 1, my_var`.
    pub args_str: String,
    /// Why the assertion failed.
    pub failure_message: String,
}

impl Assertion {
    /// The call as it looks in source, e.g. `assert_equal!(1, 2);`, with
    /// the name highlighted; the argument text appears verbatim.
    pub fn assertion_expression(&self) -> (r: String)
        ensures
            crate::literal::contains_seq(r@, self.args_str@),
    {
        let mut v: Vec<char> = Vec::new();
        let mut name_bang: Vec<char> = Vec::new();
        crate::utils::push_str_chars(&mut name_bang, self.name.as_str());
        name_bang.push('!');
        let painted = crate::colors::paint_yellow(
            crate::utils::chars_to_string(&name_bang).as_str(),
        );
        crate::utils::push_str_chars(&mut v, painted.as_str());
        v.push('(');
        let ghost at = v@.len() as int;
        crate::utils::push_str_chars(&mut v, self.args_str.as_str());
        v.push(')');
        v.push(';');
        proof {
            assert(v@.subrange(at, at + self.args_str@.len()) =~= self.args_str@);
            assert(crate::literal::occurs_at(v@, self.args_str@, at));
        }
        crate::utils::chars_to_string(&v)
    }

    /// The full failure report: the assertion expression, the caller's
    /// description (or a generic one), and the failure message, between
    /// two dimmed separator lines. The failure message appears in the
    /// report verbatim.
    pub fn get_failure_message(&self, config: &Config) -> (r: String)
        ensures
            crate::literal::contains_seq(r@, self.failure_message@),
    {
        let separator = crate::colors::paint_dimmed(
            crate::config::terminal_separator_line(config).as_str(),
        );
        let description = match &self.description {
            Some(d) => crate::utils::add_linebreaks(d.as_str()),
            None => crate::utils::add_linebreaks("Assertion Failure!"),
        };
        let mut v: Vec<char> = Vec::new();
        v.push('\n');
        crate::utils::push_str_chars(&mut v, separator.as_str());
        v.push('\n');
        crate::utils::push_str_chars(&mut v, self.assertion_expression().as_str());
        v.push('\n');
        crate::utils::push_str_chars(&mut v, description.as_str());
        v.push('\n');
        let ghost at = v@.len() as int;
        crate::utils::push_str_chars(&mut v, self.failure_message.as_str());
        v.push('\n');
        crate::utils::push_str_chars(&mut v, separator.as_str());
        v.push('\n');
        proof {
            assert(v@.subrange(at, at + self.failure_message@.len()) =~= self.failure_message@);
            assert(crate::literal::occurs_at(v@, self.failure_message@, at));
        }
        crate::utils::chars_to_string(&v)
    }
}

/// Bundle a failure message, if there is one, into an `Assertion` with
/// the call's name, argument text and optional description. `None` means
/// the assertion passed.
pub fn make_assertion_impl(
    name: &str,
    args_str: String,
    failure_message: Option<String>,
    description: Option<&str>,
) -> (r: Option<Assertion>)
    ensures
        r is Some <==> failure_message is Some,
        r matches Some(a) ==> {
            &&& a.name@ == name@
            &&& a.args_str == args_str
            &&& Some(a.failure_message) == failure_message
            &&& (a.description matches Some(d) <==> description is Some)
            &&& (description matches Some(d) ==> a.description matches Some(d2) && d2@ == d@)
        },
{
    match failure_message {
        Some(failure_message) => {
            let assertion = Assertion {
                description: match description {
                    Some(d) => Some(d.to_owned()),
                    None => None,
                },
                failure_message,
                name: name.to_owned(),
                args_str,
            };
            Some(assertion)
        },
        None => None,
    }
}

/// The `\nExpected `Left` to equal `Right`:\n{diff}` failure text.
fn equal_failure_text(left_repr: &str, right_repr: &str, expand_mode: bool) -> String {
    let diff = crate::string_diff::colored_diff(left_repr, right_repr, expand_mode);
    let diff_string = match diff {
        Some(d) => d,
        None => "no visual difference between values".to_owned(),
    };
    let mut v: Vec<char> = Vec::new();
    v.push('\n');
    crate::utils::push_str_chars(&mut v, "Expected `");
    crate::utils::push_str_chars(&mut v, crate::colors::paint_red("Left").as_str());
    crate::utils::push_str_chars(&mut v, "` to equal `");
    crate::utils::push_str_chars(&mut v, crate::colors::paint_green("Right").as_str());
    crate::utils::push_str_chars(&mut v, "`:\n");
    crate::utils::push_str_chars(&mut v, diff_string.as_str());
    crate::utils::chars_to_string(&v)
}

/// Compare two values for equality. The caller passes the outcome of the
/// comparison itself in `fail` (a cross-type equality bound cannot be
/// specified here); when it failed, the message shows a line diff of the
/// two structural renderings. The renderings are the plain structural
/// ones: a caller who compares unordered containers and wants an
/// order-independent diff sorts them into an ordered container first.
pub fn assert_equal<T1: core::fmt::Debug + PartialEq, T2: core::fmt::Debug + PartialEq>(
    left: T1,
    right: T2,
    fail: bool,
    config: &Config,
) -> (r: Option<String>)
    ensures
        r is Some <==> fail,
{
    if fail {
        let left_repr = debug_repr(&left);
        let right_repr = debug_repr(&right);
        Some(equal_failure_text(left_repr.as_str(), right_repr.as_str(), config.expand_mode))
    } else {
        None
    }
}

/// The `Expected Left value to be ... Right value` failure text shared
/// by the four ordering assertions.
fn ordering_failure_text(relation: &str, reason: &str, left_repr: &str, right_repr: &str) -> String {
    let mut v: Vec<char> = Vec::new();
    crate::utils::push_str_chars(&mut v, "Expected ");
    crate::utils::push_str_chars(&mut v, crate::colors::paint_red("Left").as_str());
    crate::utils::push_str_chars(&mut v, " value to be ");
    crate::utils::push_str_chars(&mut v, relation);
    crate::utils::push_str_chars(&mut v, " ");
    crate::utils::push_str_chars(&mut v, crate::colors::paint_green("Right").as_str());
    crate::utils::push_str_chars(&mut v, " value");
    crate::utils::push_str_chars(&mut v, reason);
    crate::utils::push_str_chars(&mut v, "\n\nLeft value:  ");
    crate::utils::push_str_chars(&mut v, crate::colors::paint_red(left_repr).as_str());
    crate::utils::push_str_chars(&mut v, "\nRight value: ");
    crate::utils::push_str_chars(&mut v, crate::colors::paint_green(right_repr).as_str());
    crate::utils::push_str_chars(&mut v, "\n");
    crate::utils::chars_to_string(&v)
}

/// Assert that `left` is strictly greater than `right`.
pub fn assert_greater_than<T: core::fmt::Debug + PartialOrd>(left: T, right: T) -> (r: Option<
    String,
>)
    ensures
        T::obeys_partial_cmp_spec() ==> ((r is None) <==> (left.partial_cmp_spec(&right) == Some(
            Ordering::Greater,
        ) || left.partial_cmp_spec(&right) == Option::<Ordering>::None)),
{
    let cmp = left.partial_cmp(&right);
    let not_greater_than = match cmp {
        None => false,
        Some(Ordering::Greater) => false,
        _ => true,
    };
    if not_greater_than {
        let left_repr = debug_repr(&left);
        let right_repr = debug_repr(&right);
        Some(ordering_failure_text("greater than", "", left_repr.as_str(), right_repr.as_str()))
    } else {
        None
    }
}

/// Assert that `left` is greater than or equal to `right`.
pub fn assert_greater_than_or_equal<T: core::fmt::Debug + PartialOrd>(left: T, right: T) -> (r:
    Option<String>)
    ensures
        T::obeys_partial_cmp_spec() ==> ((r is None) <==> (left.partial_cmp_spec(&right) == Some(
            Ordering::Greater,
        ) || left.partial_cmp_spec(&right) == Some(Ordering::Equal))),
{
    let cmp = left.partial_cmp(&right);
    match cmp {
        Some(Ordering::Greater) | Some(Ordering::Equal) => None,
        _ => {
            let reason = if cmp.is_none() {
                ",\nbut these values can't be compared"
            } else {
                ""
            };
            let left_repr = debug_repr(&left);
            let right_repr = debug_repr(&right);
            Some(
                ordering_failure_text(
                    "greater than or equal to",
                    reason,
                    left_repr.as_str(),
                    right_repr.as_str(),
                ),
            )
        },
    }
}

/// Assert that `left` is strictly lesser than `right`.
pub fn assert_lesser_than<T: core::fmt::Debug + PartialOrd>(left: T, right: T) -> (r: Option<
    String,
>)
    ensures
        T::obeys_partial_cmp_spec() ==> ((r is None) <==> left.partial_cmp_spec(&right) == Some(
            Ordering::Less,
        )),
{
    let cmp = left.partial_cmp(&right);
    match cmp {
        Some(Ordering::Less) => None,
        _ => {
            let reason = match cmp {
                None => ",\nbut these values can't be compared",
                Some(Ordering::Equal) => ",\nbut they were equal",
                _ => "",
            };
            let left_repr = debug_repr(&left);
            let right_repr = debug_repr(&right);
            Some(
                ordering_failure_text(
                    "lesser than",
                    reason,
                    left_repr.as_str(),
                    right_repr.as_str(),
                ),
            )
        },
    }
}

/// Assert that `left` is lesser than or equal to `right`.
pub fn assert_lesser_than_or_equal<T: core::fmt::Debug + PartialOrd>(left: T, right: T) -> (r:
    Option<String>)
    ensures
        T::obeys_partial_cmp_spec() ==> ((r is None) <==> (left.partial_cmp_spec(&right) == Some(
            Ordering::Less,
        ) || left.partial_cmp_spec(&right) == Some(Ordering::Equal))),
{
    let cmp = left.partial_cmp(&right);
    match cmp {
        Some(Ordering::Less) | Some(Ordering::Equal) => None,
        _ => {
            let reason = if cmp.is_none() {
                ",\nbut these values can't be compared"
            } else {
                ""
            };
            let left_repr = debug_repr(&left);
            let right_repr = debug_repr(&right);
            Some(
                ordering_failure_text(
                    "lesser than or equal to",
                    reason,
                    left_repr.as_str(),
                    right_repr.as_str(),
                ),
            )
        },
    }
}

/// Assert that the result is an `Ok`.
pub fn assert_ok<T: core::fmt::Debug, E: core::fmt::Debug>(value: Result<T, E>) -> (r: Option<
    String,
>)
    ensures
        r is None <==> value is Ok,
{
    if value.is_ok() {
        None
    } else {
        Some(result_failure_text("Ok(T)", debug_compact(&value).as_str()))
    }
}

/// Assert that the result is an `Err`.
pub fn assert_err<T: core::fmt::Debug, E: core::fmt::Debug>(value: Result<T, E>) -> (r: Option<
    String,
>)
    ensures
        r is None <==> value is Err,
{
    if value.is_err() {
        None
    } else {
        Some(result_failure_text("Err(E)", debug_compact(&value).as_str()))
    }
}

/// The `Expected Value to be ...` failure text of the result assertions.
fn result_failure_text(wanted: &str, value_repr: &str) -> String {
    let mut v: Vec<char> = Vec::new();
    crate::utils::push_str_chars(&mut v, "Expected ");
    crate::utils::push_str_chars(&mut v, crate::colors::paint_red("Value").as_str());
    crate::utils::push_str_chars(&mut v, " to be ");
    crate::utils::push_str_chars(&mut v, crate::colors::paint_green(wanted).as_str());
    crate::utils::push_str_chars(&mut v, "\n\nGot: ");
    crate::utils::push_str_chars(&mut v, crate::colors::paint_red(value_repr).as_str());
    crate::utils::push_str_chars(&mut v, "\n        ");
    crate::utils::chars_to_string(&v)
}

/// Assert that the slice holds the value. (The equality the search uses
/// is the element type's own.)
pub fn assert_contains<V: PartialEq + core::fmt::Debug>(left: &[V], right: &V) -> (r: Option<
    String,
>)
    ensures
        V::obeys_eq_spec() ==> ((r is None) <==> exists|i: int|
            0 <= i < left@.len() && (#[trigger] left@[i]).eq_spec(right)),
{
    let mut i: usize = 0;
    let mut found = false;
    while i < left.len()
        invariant
            0 <= i <= left@.len(),
            V::obeys_eq_spec() ==> (found <==> exists|t: int|
                0 <= t < i && (#[trigger] left@[t]).eq_spec(right)),
        decreases left.len() - i,
    {
        if left[i] == *right {
            found = true;
        }
        i = i + 1;
    }
    if found {
        None
    } else {
        let mut v: Vec<char> = Vec::new();
        crate::utils::push_str_chars(&mut v, "Expected ");
        crate::utils::push_str_chars(&mut v, crate::colors::paint_red("Left").as_str());
        crate::utils::push_str_chars(&mut v, " value to contain ");
        crate::utils::push_str_chars(&mut v, crate::colors::paint_green("Right").as_str());
        crate::utils::push_str_chars(&mut v, " value\n\nLeft value: ");
        crate::utils::push_str_chars(
            &mut v,
            crate::colors::paint_red(debug_repr(&left).as_str()).as_str(),
        );
        crate::utils::push_str_chars(&mut v, "\nRight value: ");
        crate::utils::push_str_chars(
            &mut v,
            crate::colors::paint_green(debug_repr(right).as_str()).as_str(),
        );
        crate::utils::push_str_chars(&mut v, "\n    ");
        Some(crate::utils::chars_to_string(&v))
    }
}

} // verus!
