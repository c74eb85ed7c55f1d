use crate::errors::SnapshotError;
use vstd::prelude::*;

verus! {

// ---------------------------------------------------------------------
// Searching text for characters and substrings
// ---------------------------------------------------------------------

/// Whether `needle` occurs in `hay` starting at position `i`.
pub open spec fn occurs_at(hay: Seq<char>, needle: Seq<char>, i: int) -> bool {
    &&& 0 <= i
    &&& i + needle.len() <= hay.len()
    &&& hay.subrange(i, i + needle.len()) == needle
}

/// Whether `needle` occurs anywhere in `hay`.
pub open spec fn contains_seq(hay: Seq<char>, needle: Seq<char>) -> bool {
    exists|i: int| occurs_at(hay, needle, i)
}

/// Whether `hay` holds the character `c`.
pub open spec fn contains_char(hay: Seq<char>, c: char) -> bool {
    exists|i: int| 0 <= i < hay.len() && hay[i] == c
}

pub fn find_char(hay: &Vec<char>, c: char) -> (b: bool)
    ensures
        b == contains_char(hay@, c),
{
    let mut i: usize = 0;
    while i < hay.len()
        invariant
            0 <= i <= hay@.len(),
            forall|j: int| 0 <= j < i ==> hay@[j] != c,
        decreases hay.len() - i,
    {
        if hay[i] == c {
            return true;
        }
        i = i + 1;
    }
    false
}

fn matches_at(hay: &Vec<char>, needle: &Vec<char>, i: usize) -> (b: bool)
    requires
        i + needle@.len() <= hay@.len(),
    ensures
        b == occurs_at(hay@, needle@, i as int),
{
    let n = hay.len();
    let mut j: usize = 0;
    while j < needle.len()
        invariant
            0 <= j <= needle@.len(),
            i + needle@.len() <= hay@.len(),
            n == hay@.len(),
            forall|t: int| 0 <= t < j ==> hay@[i + t] == needle@[t],
        decreases needle.len() - j,
    {
        if hay[i + j] != needle[j] {
            proof {
                assert(!occurs_at(hay@, needle@, i as int)) by {
                    if occurs_at(hay@, needle@, i as int) {
                        let full = hay@.subrange(i as int, i + needle@.len());
                        assert(full[j as int] == needle@[j as int]);
                    }
                }
            }
            return false;
        }
        j = j + 1;
    }
    proof {
        assert(hay@.subrange(i as int, i + needle@.len()) =~= needle@);
    }
    true
}

pub fn find_subseq(hay: &Vec<char>, needle: &Vec<char>) -> (b: bool)
    ensures
        b == contains_seq(hay@, needle@),
{
    if needle.len() == 0 {
        proof {
            assert(hay@.subrange(0, 0) =~= needle@);
            assert(occurs_at(hay@, needle@, 0));
        }
        return true;
    }
    if needle.len() > hay.len() {
        proof {
            assert(forall|i: int| !occurs_at(hay@, needle@, i));
        }
        return false;
    }
    let mut i: usize = 0;
    while i <= hay.len() - needle.len()
        invariant
            needle@.len() >= 1,
            needle@.len() <= hay@.len(),
            0 <= i <= hay@.len() - needle@.len() + 1,
            forall|k: int| 0 <= k < i ==> !occurs_at(hay@, needle@, k),
        decreases hay.len() - i,
    {
        if matches_at(hay, needle, i) {
            return true;
        }
        i = i + 1;
    }
    proof {
        assert(forall|k: int| !occurs_at(hay@, needle@, k));
    }
    false
}

// ---------------------------------------------------------------------
// Unescaping a structural (debug) rendering
// ---------------------------------------------------------------------

/// Replace every non-overlapping occurrence of `\` followed by `c`, left
/// to right, by the single character `r`.
pub open spec fn spec_unescape(s: Seq<char>, c: char, r: char) -> Seq<char>
    decreases s.len(),
{
    if s.len() < 2 {
        s
    } else if s[0] == '\\' && s[1] == c {
        seq![r] + spec_unescape(s.skip(2), c, r)
    } else {
        seq![s[0]] + spec_unescape(s.skip(1), c, r)
    }
}

/// Replace every escape sequence `\c` in the text by `r`.
pub fn unescape(v: &Vec<char>, c: char, r: char) -> (out: Vec<char>)
    ensures
        out@ == spec_unescape(v@, c, r),
{
    let mut out: Vec<char> = Vec::new();
    let mut i: usize = 0;
    proof {
        assert(v@.skip(0) =~= v@);
        assert(out@ + spec_unescape(v@.skip(0), c, r) =~= spec_unescape(v@, c, r));
    }
    while i < v.len()
        invariant
            0 <= i <= v@.len(),
            spec_unescape(v@, c, r) == out@ + spec_unescape(v@.skip(i as int), c, r),
        decreases v.len() - i,
    {
        let ghost pre = out@;
        let ghost tail = v@.skip(i as int);
        if i + 1 < v.len() && v[i] == '\\' && v[i + 1] == c {
            out.push(r);
            proof {
                assert(tail.len() >= 2);
                assert(tail[0] == '\\' && tail[1] == c);
                assert(tail.skip(2) =~= v@.skip(i + 2));
                assert(spec_unescape(tail, c, r) == seq![r] + spec_unescape(v@.skip(i + 2), c, r));
                assert(out@ + spec_unescape(v@.skip(i + 2), c, r) =~= pre + spec_unescape(
                    tail,
                    c,
                    r,
                ));
            }
            i = i + 2;
        } else {
            out.push(v[i]);
            proof {
                assert(tail.skip(1) =~= v@.skip(i + 1));
                assert(tail[0] == v@[i as int]);
                if tail.len() >= 2 {
                    assert(tail[1] == v@[i + 1]);
                    assert(spec_unescape(tail, c, r) == seq![tail[0]] + spec_unescape(
                        v@.skip(i + 1),
                        c,
                        r,
                    ));
                } else {
                    assert(tail.len() == 1);
                    assert(spec_unescape(tail, c, r) == tail);
                    assert(v@.skip(i + 1) =~= Seq::<char>::empty());
                    assert(spec_unescape(v@.skip(i + 1), c, r) == Seq::<char>::empty());
                    assert(tail =~= seq![tail[0]] + spec_unescape(v@.skip(i + 1), c, r));
                }
                assert(out@ + spec_unescape(v@.skip(i + 1), c, r) =~= pre + spec_unescape(
                    tail,
                    c,
                    r,
                ));
            }
            i = i + 1;
        }
    }
    proof {
        assert(v@.skip(v@.len() as int) =~= Seq::<char>::empty());
        assert(out@ + spec_unescape(v@.skip(v@.len() as int), c, r) =~= out@);
    }
    out
}

// ---------------------------------------------------------------------
// The canonical snapshot text of a structural rendering
// ---------------------------------------------------------------------

/// What `encode_debug_repr` produces for a structural (debug) rendering:
/// escaped newlines and quotes are made literal again, an outer pair of
/// double quotes is dropped, and a text that spans several lines is
/// wrapped in a leading and a trailing newline.
pub open spec fn spec_encode_debug(d: Seq<char>) -> Seq<char> {
    let u = spec_unescape(
        spec_unescape(spec_unescape(d, 'n', '\n'), '"', '"'),
        '\'',
        '\'',
    );
    let trimmed = if u.len() >= 2 && u.first() == '"' && u.last() == '"' {
        u.subrange(1, u.len() - 1)
    } else {
        u
    };
    if contains_char(trimmed, '\n') {
        seq!['\n'] + trimmed + seq!['\n']
    } else {
        trimmed
    }
}

/// Turn the structural (debug) rendering of a value into its canonical
/// snapshot text: embedded newlines and quotes are rendered literally so
/// that the snapshot reads as prose, the quotes that a rendered string
/// carries are dropped, and a multiline text gets a leading and a
/// trailing newline so its block is not glued to the call syntax.
pub fn encode_debug_repr(d: &str) -> (r: String)
    ensures
        r@ == spec_encode_debug(d@),
{
    let chars = crate::utils::str_chars(d);
    let u1 = unescape(&chars, 'n', '\n');
    let u2 = unescape(&u1, '"', '"');
    let u3 = unescape(&u2, '\'', '\'');
    let mut trimmed: Vec<char> = Vec::new();
    if u3.len() >= 2 && u3[0] == '"' && u3[u3.len() - 1] == '"' {
        crate::source_code::push_subrange(&mut trimmed, &u3, 1, u3.len() - 1);
    } else {
        crate::utils::push_chars(&mut trimmed, &u3);
    }
    if find_char(&trimmed, '\n') {
        let mut wrapped: Vec<char> = Vec::new();
        wrapped.push('\n');
        crate::utils::push_chars(&mut wrapped, &trimmed);
        wrapped.push('\n');
        proof {
            assert(wrapped@ =~= seq!['\n'] + trimmed@ + seq!['\n']);
        }
        crate::utils::chars_to_string(&wrapped)
    } else {
        crate::utils::chars_to_string(&trimmed)
    }
}

// ---------------------------------------------------------------------
// Quoting snapshot text as a source literal
// ---------------------------------------------------------------------

/// `k` hash marks.
pub open spec fn hashes(k: nat) -> Seq<char>
    decreases k,
{
    if k == 0 {
        Seq::empty()
    } else {
        hashes((k - 1) as nat) + seq!['#']
    }
}

/// The closing delimiter of a raw literal with `k` hash marks.
pub open spec fn end_marker(k: nat) -> Seq<char> {
    seq!['"'] + hashes(k)
}

/// Whether the text can be carried by a plain `"..."` literal without
/// any escaping.
pub open spec fn plain_ok(s: Seq<char>) -> bool {
    !contains_char(s, '"') && !contains_char(s, '\'') && !contains_char(s, '\\')
}

/// Whether a raw literal with `k` hash marks can carry the text: the
/// text must not hold a same-or-stronger closing sequence.
pub open spec fn raw_ok(s: Seq<char>, k: nat) -> bool {
    !contains_seq(s, end_marker(k))
}

/// A plain literal of the text.
pub open spec fn plain_literal(s: Seq<char>) -> Seq<char> {
    seq!['"'] + s + seq!['"']
}

/// A raw literal of the text with `k` hash marks.
pub open spec fn raw_literal(s: Seq<char>, k: nat) -> Seq<char> {
    seq!['r'] + hashes(k) + seq!['"'] + s + seq!['"'] + hashes(k)
}

/// The escalation search gives up past this many hash marks: a defensive
/// cap, not an expected outcome — no plausible snapshot text defeats it.
pub const MAX_HASH_MARKS: usize = 255;

/// The smallest workable number of hash marks at or after `k`, up to the
/// defensive cap.
pub open spec fn first_raw_ok(s: Seq<char>, k: nat) -> Option<nat>
    decreases MAX_HASH_MARKS - k when k <= MAX_HASH_MARKS
{
    if k > MAX_HASH_MARKS {
        None
    } else if raw_ok(s, k) {
        Some(k)
    } else if k == MAX_HASH_MARKS {
        None
    } else {
        first_raw_ok(s, k + 1)
    }
}

proof fn lemma_first_raw_ok(s: Seq<char>, start: nat)
    requires
        start <= MAX_HASH_MARKS,
    ensures
        first_raw_ok(s, start) matches Some(k) ==> {
            &&& start <= k <= MAX_HASH_MARKS
            &&& raw_ok(s, k)
            &&& forall|j: nat| start <= j < k ==> !raw_ok(s, j)
        },
        first_raw_ok(s, start) is None ==> forall|j: nat|
            start <= j <= MAX_HASH_MARKS ==> !raw_ok(s, j),
    decreases MAX_HASH_MARKS - start,
{
    if !raw_ok(s, start) && start < MAX_HASH_MARKS {
        lemma_first_raw_ok(s, start + 1);
    }
}

/// The literal that `make_literal` chooses for a snapshot text: the
/// plain form when nothing needs escaping, else the raw form with the
/// smallest workable number of hash marks; `None` only when the
/// defensive cap on hash marks is exhausted.
pub open spec fn spec_make_literal(s: Seq<char>) -> Option<Seq<char>> {
    if plain_ok(s) {
        Some(plain_literal(s))
    } else {
        match first_raw_ok(s, 0) {
            Some(k) => Some(raw_literal(s, k)),
            None => None,
        }
    }
}

/// Build a raw literal with `k` hash marks.
fn build_raw(v: &Vec<char>, k: usize) -> (r: Vec<char>)
    ensures
        r@ == raw_literal(v@, k as nat),
{
    let mut out: Vec<char> = Vec::new();
    out.push('r');
    push_hashes(&mut out, k);
    out.push('"');
    crate::utils::push_chars(&mut out, v);
    out.push('"');
    push_hashes(&mut out, k);
    proof {
        assert(out@ =~= raw_literal(v@, k as nat));
    }
    out
}

/// Append `k` hash marks.
fn push_hashes(out: &mut Vec<char>, k: usize)
    ensures
        final(out)@ == old(out)@ + hashes(k as nat),
{
    let mut i: usize = 0;
    while i < k
        invariant
            0 <= i <= k,
            out@ == old(out)@ + hashes(i as nat),
        decreases k - i,
    {
        out.push('#');
        i = i + 1;
    }
}

/// The closing delimiter `"` followed by `k` hash marks.
fn build_end_marker(k: usize) -> (r: Vec<char>)
    ensures
        r@ == end_marker(k as nat),
{
    let mut out: Vec<char> = Vec::new();
    out.push('"');
    push_hashes(&mut out, k);
    proof {
        assert(out@ =~= end_marker(k as nat));
    }
    out
}

/// Quote a snapshot text as a syntactically safe source literal. A text
/// without quote or backslash characters becomes a plain `"..."`
/// literal; any other text becomes a raw literal whose hash marks are
/// escalated until the text no longer holds a closing sequence. Fails
/// with `EncodingError` only when the defensive cap of `MAX_HASH_MARKS`
/// hash marks is still defeated.
pub fn make_literal(s: &str) -> (r: Result<String, SnapshotError>)
    ensures
        r matches Ok(lit) <==> spec_make_literal(s@) is Some,
        r matches Ok(lit) ==> Some(lit@) == spec_make_literal(s@),
        r matches Err(e) ==> e == SnapshotError::EncodingError,
{
    let chars = crate::utils::str_chars(s);
    // If the snapshot doesn't contain any quoting-sensitive characters,
    // wrap it in "" and use that as the literal. Otherwise we'd need
    // raw literals to avoid crazy escaping rules.
    if !find_char(&chars, '"') && !find_char(&chars, '\'') && !find_char(&chars, '\\') {
        let mut out: Vec<char> = Vec::new();
        out.push('"');
        crate::utils::push_chars(&mut out, &chars);
        out.push('"');
        proof {
            assert(out@ =~= plain_literal(s@));
        }
        return Ok(crate::utils::chars_to_string(&out));
    }
    // Otherwise try an increasing number of hash marks until the text no
    // longer holds a matching closing sequence.
    let mut k: usize = 0;
    while k <= MAX_HASH_MARKS
        invariant
            0 <= k <= MAX_HASH_MARKS + 1,
            !plain_ok(chars@),
            chars@ == s@,
            first_raw_ok(s@, 0) == if k <= MAX_HASH_MARKS {
                first_raw_ok(s@, k as nat)
            } else {
                Option::<nat>::None
            },
        decreases MAX_HASH_MARKS + 1 - k,
    {
        let end = build_end_marker(k);
        if !find_subseq(&chars, &end) {
            let out = build_raw(&chars, k);
            return Ok(crate::utils::chars_to_string(&out));
        }
        k = k + 1;
    }
    Err(SnapshotError::EncodingError)
}

// ---------------------------------------------------------------------
// Reading a literal back
// ---------------------------------------------------------------------

/// Number of consecutive hash marks at position `i`.
pub open spec fn leading_hashes(l: Seq<char>, i: int) -> int
    decreases l.len() - i when 0 <= i <= l.len()
{
    if i >= l.len() {
        0
    } else if l[i] == '#' {
        1 + leading_hashes(l, i + 1)
    } else {
        0
    }
}

/// The snapshot text carried by a literal in one of the two forms that
/// `make_literal` writes: the characters between the delimiters of a
/// plain `"..."` literal, or of a raw literal whose closing delimiter
/// matches its opening one. `None` for any other shape.
pub open spec fn spec_unquote(l: Seq<char>) -> Option<Seq<char>> {
    if l.len() >= 2 && l.first() == '"' && l.last() == '"' {
        Some(l.subrange(1, l.len() - 1))
    } else if l.len() >= 1 && l.first() == 'r' {
        let k = leading_hashes(l, 1);
        if l.len() >= 2 * k + 3 && l[k + 1] == '"' && l[l.len() - 1 - k] == '"' && l.subrange(
            l.len() - k,
            l.len() as int,
        ) == hashes(k as nat) {
            Some(l.subrange(k + 2, l.len() - 1 - k))
        } else {
            None
        }
    } else {
        None
    }
}

proof fn lemma_hashes_len(k: nat)
    ensures
        hashes(k).len() == k,
        forall|i: int| 0 <= i < k ==> hashes(k)[i] == '#',
    decreases k,
{
    if k > 0 {
        lemma_hashes_len((k - 1) as nat);
    }
}

proof fn lemma_leading_hashes_exact(l: Seq<char>, i: int, k: nat)
    requires
        0 <= i,
        i + k < l.len(),
        forall|j: int| i <= j < i + k ==> l[j] == '#',
        l[i + k] != '#',
    ensures
        leading_hashes(l, i) == k,
    decreases k,
{
    if k > 0 {
        lemma_leading_hashes_exact(l, i + 1, (k - 1) as nat);
    }
}

/// Quoting then unquoting gives the snapshot text back: for any text
/// that `make_literal` can carry, the literal it writes reads back as
/// exactly that text.
pub proof fn lemma_literal_round_trip(t: Seq<char>, l: Seq<char>)
    requires
        spec_make_literal(t) == Some(l),
    ensures
        spec_unquote(l) == Some(t),
{
    if plain_ok(t) {
        lemma_hashes_len(0);
        assert(l == plain_literal(t));
        assert(l.len() == t.len() + 2);
        assert(l.first() == '"' && l.last() == '"');
        assert(l.subrange(1, l.len() - 1) =~= t);
    } else {
        let k = first_raw_ok(t, 0).unwrap();
        assert(l == raw_literal(t, k));
        lemma_raw_unquote(t, k);
    }
}

proof fn lemma_raw_unquote(t: Seq<char>, k: nat)
    ensures
        spec_unquote(raw_literal(t, k)) == Some(t),
{
    let l = raw_literal(t, k);
    lemma_hashes_len(k);
    assert(l.len() == t.len() + 2 * k + 3);
    assert(l.first() == 'r');
    // the literal is not mistaken for a plain one
    assert(!(l.first() == '"'));
    // the hash count after 'r' reads back as k
    assert forall|j: int| 1 <= j < 1 + k implies l[j] == '#' by {
        assert(l[j] == hashes(k)[j - 1]);
    }
    assert(l[1 + k as int] == '"');
    lemma_leading_hashes_exact(l, 1, k);
    assert(l[l.len() - 1 - k] == '"');
    assert(l.subrange(l.len() - k, l.len() as int) =~= hashes(k));
    assert(l.subrange(k + 2 as int, l.len() - 1 - k) =~= t);
}

/// The escalation law: when the snapshot text needs a raw literal, the
/// chosen delimiter strength is one the text cannot defeat — the text
/// never holds the closing sequence of the literal around it — and the
/// weaker strengths were all defeated.
pub proof fn lemma_quoting_escalation(t: Seq<char>, l: Seq<char>)
    requires
        spec_make_literal(t) == Some(l),
        !plain_ok(t),
    ensures
        exists|k: nat|
            {
                &&& #[trigger] raw_ok(t, k)
                &&& l == raw_literal(t, k)
                &&& forall|j: nat| j < k ==> !raw_ok(t, j)
            },
{
    lemma_first_raw_ok(t, 0);
    let k = first_raw_ok(t, 0).unwrap();
    assert(raw_ok(t, k) && l == raw_literal(t, k) && forall|j: nat| j < k ==> !raw_ok(t, j));
}

/// Read a literal of one of the two forms `make_literal` writes back
/// into its snapshot text.
pub fn unquote(l: &str) -> (r: Option<String>)
    ensures
        match r {
            Some(t) => spec_unquote(l@) == Some(t@),
            None => spec_unquote(l@) is None,
        },
{
    let chars = crate::utils::str_chars(l);
    let n = chars.len();
    if n >= 2 && chars[0] == '"' && chars[n - 1] == '"' {
        let mut out: Vec<char> = Vec::new();
        crate::source_code::push_subrange(&mut out, &chars, 1, n - 1);
        return Some(crate::utils::chars_to_string(&out));
    }
    if n >= 1 && chars[0] == 'r' {
        let mut k: usize = 1;
        while k < n && chars[k] == '#'
            invariant
                1 <= k <= n,
                n == chars@.len(),
                leading_hashes(chars@, 1) == leading_hashes(chars@, k as int) + k - 1,
            decreases n - k,
        {
            k = k + 1;
        }
        let hash_count = k - 1;
        proof {
            assert(leading_hashes(chars@, 1) == hash_count);
        }
        // shape: r #^k " ... " #^k  with the closing delimiter intact
        if n >= 3 && hash_count <= (n - 3) / 2 && chars[hash_count + 1] == '"' && chars[n - 1
            - hash_count] == '"' {
            let mut all_hashes = true;
            let mut j: usize = 0;
            while j < hash_count
                invariant
                    0 <= j <= hash_count,
                    n == chars@.len(),
                    n >= 2 * hash_count + 3,
                    all_hashes <==> (forall|t: int|
                        0 <= t < j ==> #[trigger] chars@[n - hash_count + t] == '#'),
                decreases hash_count - j,
            {
                if chars[n - hash_count + j] != '#' {
                    all_hashes = false;
                }
                j = j + 1;
            }
            proof {
                lemma_hashes_len(hash_count as nat);
                if all_hashes {
                    assert forall|t: int| 0 <= t < hash_count implies chars@.subrange(
                        n - hash_count,
                        n as int,
                    )[t] == hashes(hash_count as nat)[t] by {
                        assert(chars@[n - hash_count + t] == '#');
                    }
                    assert(chars@.subrange(n - hash_count, n as int) =~= hashes(
                        hash_count as nat,
                    ));
                } else {
                    let t = choose|t: int|
                        0 <= t < hash_count && #[trigger] chars@[n - hash_count + t] != '#';
                    assert(chars@.subrange(n - hash_count, n as int)[t] != hashes(
                        hash_count as nat,
                    )[t]);
                }
            }
            if all_hashes {
                let mut out: Vec<char> = Vec::new();
                crate::source_code::push_subrange(&mut out, &chars, hash_count + 2, n - 1
                    - hash_count);
                return Some(crate::utils::chars_to_string(&out));
            }
            return None;
        }
        return None;
    }
    None
}

} // verus!
