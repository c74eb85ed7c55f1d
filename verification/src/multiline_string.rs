use vstd::prelude::*;

verus! {

/// A string that stands for multiline prose in comparisons. A structural
/// rendering of a plain string escapes its newlines, which defeats a
/// line-by-line difference; wrapping the string in this type marks it as
/// text whose rendering should keep real line breaks.
///
/// A limitation: a verbatim `Debug` rendering (one that writes the text
/// with its newlines intact) needs a hand-written impl over a formatter,
/// which the verifier does not take, so the derived rendering escapes
/// newlines again. Callers who want line-by-line diffs can compare the
/// public field's text with `colored_diff` directly.
#[derive(PartialEq, Eq, Debug)]
pub struct MultilineString(pub String);

impl MultilineString {
    /// Wrap a text. (For a generic `Into<String>` argument nothing can
    /// be stated of the conversion; the stored text is the public
    /// field.)
    pub fn new<S: Into<String>>(s: S) -> MultilineString {
        MultilineString(s.into())
    }
}

} // verus!
