use std::collections::BTreeMap;
use vstd::prelude::*;

verus! {

/// Number of newline characters in a text.
pub open spec fn nl_count(s: Seq<char>) -> nat
    decreases s.len(),
{
    if s.len() == 0 {
        0
    } else {
        nl_count(s.drop_last()) + if s.last() == '\n' {
            1nat
        } else {
            0nat
        }
    }
}

/// Newline counting distributes over concatenation.
pub proof fn lemma_nl_count_concat(a: Seq<char>, b: Seq<char>)
    ensures
        nl_count(a + b) == nl_count(a) + nl_count(b),
    decreases b.len(),
{
    if b.len() == 0 {
        assert(a + b =~= a);
    } else {
        lemma_nl_count_concat(a, b.drop_last());
        assert((a + b).drop_last() =~= a + b.drop_last());
        assert((a + b).last() == b.last());
    }
}

/// The newline count of a single character.
pub proof fn lemma_nl_count_single(c: char)
    ensures
        nl_count(seq![c]) == if c == '\n' {
            1int
        } else {
            0int
        },
{
    assert(seq![c].drop_last() =~= Seq::<char>::empty());
    assert(nl_count(Seq::<char>::empty()) == 0);
    assert(seq![c].last() == c);
    assert(seq![c].len() == 1);
}

/// A text without newline characters counts none.
pub proof fn lemma_nl_count_zero(s: Seq<char>)
    requires
        forall|i: int| 0 <= i < s.len() ==> s[i] != '\n',
    ensures
        nl_count(s) == 0,
    decreases s.len(),
{
    if s.len() > 0 {
        lemma_nl_count_zero(s.drop_last());
    }
}

/// Collect the characters of a string slice.
///
/// Relies on str::chars, which yields exactly the characters of the
/// string in order; vstd views a str as that same sequence of chars.
#[verifier::external_body]
pub fn str_chars(s: &str) -> (r: Vec<char>)
    ensures
        r@ == s@,
{
    s.chars().collect()
}

/// Build a String from a vector of characters.
///
/// Relies on String's FromIterator over chars; the resulting string
/// consists of exactly the given characters in order.
#[verifier::external_body]
pub fn chars_to_string(v: &Vec<char>) -> (r: String)
    ensures
        r@ == v@,
{
    v.iter().collect()
}

/// Append every character of `src` to `dst`.
pub fn push_chars(dst: &mut Vec<char>, src: &Vec<char>)
    ensures
        final(dst)@ == old(dst)@ + src@,
{
    let mut i: usize = 0;
    while i < src.len()
        invariant
            i <= src.len(),
            dst@ == old(dst)@ + src@.take(i as int),
        decreases src.len() - i,
    {
        dst.push(src[i]);
        proof {
            assert(src@.take(i + 1 as int) == src@.take(i as int).push(src@[i as int]));
        }
        i = i + 1;
    }
    proof {
        assert(src@.take(src@.len() as int) == src@);
    }
}

/// Append every character of the string slice `src` to `dst`.
pub fn push_str_chars(dst: &mut Vec<char>, src: &str)
    ensures
        final(dst)@ == old(dst)@ + src@,
{
    let v = str_chars(src);
    push_chars(dst, &v);
}

/// Wrap a string in a leading and a trailing newline.
pub fn add_linebreaks(s: &str) -> (r: String)
    ensures
        r@ == seq!['\n'] + s@ + seq!['\n'],
{
    let mut v: Vec<char> = Vec::new();
    v.push('\n');
    push_str_chars(&mut v, s);
    v.push('\n');
    proof {
        assert(v@ == seq!['\n'] + s@ + seq!['\n']);
    }
    chars_to_string(&v)
}

/// The decimal digit character of a value below ten.
pub open spec fn dec_digit(d: nat) -> char {
    if d == 0 {
        '0'
    } else if d == 1 {
        '1'
    } else if d == 2 {
        '2'
    } else if d == 3 {
        '3'
    } else if d == 4 {
        '4'
    } else if d == 5 {
        '5'
    } else if d == 6 {
        '6'
    } else if d == 7 {
        '7'
    } else if d == 8 {
        '8'
    } else {
        '9'
    }
}

/// The decimal rendering of a number, most significant digit first.
pub open spec fn spec_dec(n: nat) -> Seq<char>
    decreases n,
{
    if n < 10 {
        seq![dec_digit(n)]
    } else {
        spec_dec(n / 10) + seq![dec_digit(n % 10)]
    }
}

fn dec_digit_char(d: usize) -> (c: char)
    requires
        d < 10,
    ensures
        c == dec_digit(d as nat),
{
    if d == 0 {
        '0'
    } else if d == 1 {
        '1'
    } else if d == 2 {
        '2'
    } else if d == 3 {
        '3'
    } else if d == 4 {
        '4'
    } else if d == 5 {
        '5'
    } else if d == 6 {
        '6'
    } else if d == 7 {
        '7'
    } else if d == 8 {
        '8'
    } else {
        '9'
    }
}

fn dec_chars(n: usize) -> (r: Vec<char>)
    ensures
        r@ == spec_dec(n as nat),
    decreases n,
{
    if n < 10 {
        let mut v: Vec<char> = Vec::new();
        v.push(dec_digit_char(n));
        proof {
            assert(v@ =~= spec_dec(n as nat));
        }
        v
    } else {
        let mut v = dec_chars(n / 10);
        v.push(dec_digit_char(n % 10));
        proof {
            assert(v@ =~= spec_dec(n as nat));
        }
        v
    }
}

/// Render a number in decimal.
pub fn usize_to_string(n: usize) -> (r: String)
    ensures
        r@ == spec_dec(n as nat),
{
    let v = dec_chars(n);
    chars_to_string(&v)
}

/// Count the newline characters in a text.
pub fn count_newlines(v: &Vec<char>) -> (r: usize)
    ensures
        r == nl_count(v@),
{
    let mut count: usize = 0;
    let mut i: usize = 0;
    while i < v.len()
        invariant
            0 <= i <= v@.len(),
            count == nl_count(v@.take(i as int)),
            count <= i,
        decreases v.len() - i,
    {
        proof {
            assert(v@.take(i + 1 as int).drop_last() =~= v@.take(i as int));
            assert(v@.take(i + 1 as int).last() == v@[i as int]);
        }
        if v[i] == '\n' {
            count = count + 1;
        }
        i = i + 1;
    }
    proof {
        assert(v@.take(v@.len() as int) =~= v@);
    }
    count
}

/// The string of `n` repetitions of one character.
pub fn repeat_char_string(c: char, n: usize) -> (r: String)
    ensures
        r@ == crate::config::repeat_char(c, n as nat),
{
    let mut v: Vec<char> = Vec::new();
    let mut i: usize = 0;
    while i < n
        invariant
            0 <= i <= n,
            v@ == crate::config::repeat_char(c, i as nat),
        decreases n - i,
    {
        v.push(c);
        i = i + 1;
    }
    chars_to_string(&v)
}

/// Sample data for failure-message demonstrations: each length from
/// three to eight mapped to a run of `a`s of that length.
pub fn my_function() -> (r: BTreeMap<usize, String>)
    ensures
        forall|k: usize| r@.dom().contains(k) <==> 3 <= k <= 8,
        forall|k: usize| 3 <= k <= 8 ==> (#[trigger] r@[k])@ == crate::config::repeat_char('a', k as nat),
{
    broadcast use vstd::std_specs::btree::axiom_key_obeys_cmp_spec_meaning;

    let mut m: BTreeMap<usize, String> = BTreeMap::new();
    let mut i: usize = 3;
    while i <= 8
        invariant
            3 <= i <= 9,
            forall|k: usize| m@.dom().contains(k) <==> 3 <= k < i,
            forall|k: usize|
                3 <= k < i ==> (#[trigger] m@[k])@ == crate::config::repeat_char('a', k as nat),
        decreases 9 - i,
    {
        let s = repeat_char_string('a', i);
        m.insert(i, s);
        i = i + 1;
    }
    m
}

} // verus!
