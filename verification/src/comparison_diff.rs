use vstd::prelude::*;

verus! {

/// Lexicographic order on texts by character code (for valid encodings
/// this is the order std gives strings).
pub open spec fn lex_lt(a: Seq<char>, b: Seq<char>) -> bool
    decreases a.len(),
{
    if b.len() == 0 {
        false
    } else if a.len() == 0 {
        true
    } else if (a[0] as u32) < (b[0] as u32) {
        true
    } else if (a[0] as u32) > (b[0] as u32) {
        false
    } else {
        lex_lt(a.skip(1), b.skip(1))
    }
}

/// Whether `a` comes strictly before `b`.
fn str_lt(a: &Vec<char>, b: &Vec<char>) -> (r: bool)
    ensures
        r == lex_lt(a@, b@),
{
    let mut i: usize = 0;
    proof {
        assert(a@.skip(0) =~= a@);
        assert(b@.skip(0) =~= b@);
    }
    while i < a.len() && i < b.len()
        invariant
            0 <= i <= a@.len(),
            0 <= i <= b@.len(),
            lex_lt(a@, b@) == lex_lt(a@.skip(i as int), b@.skip(i as int)),
        decreases a.len() - i,
    {
        if (a[i] as u32) != (b[i] as u32) {
            return (a[i] as u32) < (b[i] as u32);
        }
        proof {
            assert(a@.skip(i as int).skip(1) =~= a@.skip(i + 1));
            assert(b@.skip(i as int).skip(1) =~= b@.skip(i + 1));
            assert(a@.skip(i as int)[0] == a@[i as int]);
            assert(b@.skip(i as int)[0] == b@[i as int]);
        }
        i = i + 1;
    }
    // one text ran out: the shorter comes first
    i < b.len()
}

/// A failure text for an ordering comparison, or `None` exactly when
/// `left` comes strictly after `right`.
pub fn greater_than_diff(left: &str, right: &str) -> (r: Option<String>)
    ensures
        r is None <==> lex_lt(right@, left@),
{
    let lc = crate::utils::str_chars(left);
    let rc = crate::utils::str_chars(right);
    if str_lt(&rc, &lc) {
        return None;
    }
    let mut v: Vec<char> = Vec::new();
    v.push('\n');
    crate::utils::push_str_chars(&mut v, "Expected: ");
    crate::utils::push_str_chars(&mut v, crate::colors::paint_green(">").as_str());
    v.push(' ');
    crate::utils::push_str_chars(&mut v, crate::colors::paint_green(right).as_str());
    v.push('\n');
    crate::utils::push_str_chars(&mut v, "Received:   ");
    crate::utils::push_str_chars(&mut v, crate::colors::paint_red(left).as_str());
    v.push('\n');
    Some(crate::utils::chars_to_string(&v))
}

} // verus!
