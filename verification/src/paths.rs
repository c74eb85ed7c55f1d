use vstd::prelude::*;

verus! {

/// Index of the first `/` at or after position `i`, or the length of the
/// text if there is none.
pub open spec fn next_slash(s: Seq<char>, i: int) -> int
    decreases s.len() - i when 0 <= i <= s.len()
{
    if i >= s.len() {
        s.len() as int
    } else if s[i] == '/' {
        i
    } else {
        next_slash(s, i + 1)
    }
}

proof fn lemma_next_slash(s: Seq<char>, i: int)
    requires
        0 <= i <= s.len(),
    ensures
        i <= next_slash(s, i) <= s.len(),
        next_slash(s, i) < s.len() ==> s[next_slash(s, i)] == '/',
        forall|j: int| i <= j < next_slash(s, i) ==> s[j] != '/',
    decreases s.len() - i,
{
    if i < s.len() && s[i] != '/' {
        lemma_next_slash(s, i + 1);
    }
}

/// The path's segments: its maximal runs of non-separator characters, in
/// order. Separators themselves carry no name.
pub open spec fn path_segments(s: Seq<char>) -> Seq<Seq<char>>
    decreases s.len() via path_segments_dec
{
    if s.len() == 0 {
        Seq::empty()
    } else if s[0] == '/' {
        path_segments(s.skip(1))
    } else {
        let n = next_slash(s, 0);
        seq![s.take(n)] + path_segments(s.skip(n))
    }
}

#[via_fn]
proof fn path_segments_dec(s: Seq<char>) {
    if s.len() > 0 && s[0] != '/' {
        lemma_next_slash(s, 0);
        assert(next_slash(s, 0) >= 1);
    }
}

/// The texts of a list of segments.
pub open spec fn segs_view(v: Seq<String>) -> Seq<Seq<char>> {
    v.map_values(|seg: String| seg@)
}

proof fn lemma_segs_view_push(v: Seq<String>, seg: String)
    ensures
        segs_view(v.push(seg)) == segs_view(v).push(seg@),
{
    assert(segs_view(v.push(seg)) =~= segs_view(v).push(seg@));
}

/// Whether the path is absolute.
pub open spec fn path_has_root(s: Seq<char>) -> bool {
    s.len() > 0 && s[0] == '/'
}

/// The text of a path with the given segments, absolute when `root`
/// holds.
pub open spec fn join_segments(root: bool, segs: Seq<Seq<char>>) -> Seq<char>
    decreases segs.len(),
{
    if segs.len() == 0 {
        if root {
            seq!['/']
        } else {
            Seq::empty()
        }
    } else if segs.len() == 1 {
        if root {
            seq!['/'] + segs[0]
        } else {
            segs[0]
        }
    } else {
        join_segments(root, segs.drop_last()) + seq!['/'] + segs.last()
    }
}

/// Split a path into its root flag and segments.
fn split_path(s: &str) -> (r: (bool, Vec<String>))
    ensures
        r.0 == path_has_root(s@),
        segs_view(r.1@) == path_segments(s@),
{
    let chars = crate::utils::str_chars(s);
    let has_root = chars.len() > 0 && chars[0] == '/';
    let mut segs: Vec<String> = Vec::new();
    let mut i: usize = 0;
    proof {
        assert(chars@.skip(0) =~= chars@);
        assert(segs_view(segs@) =~= Seq::<Seq<char>>::empty());
    }
    while i < chars.len()
        invariant
            0 <= i <= chars@.len(),
            chars@ == s@,
            path_segments(s@) == segs_view(segs@) + path_segments(chars@.skip(i as int)),
        decreases chars.len() - i,
    {
        if chars[i] == '/' {
            proof {
                assert(chars@.skip(i as int).skip(1) =~= chars@.skip(i + 1));
                assert(path_segments(chars@.skip(i as int)) == path_segments(chars@.skip(i + 1)));
            }
            i = i + 1;
        } else {
            // collect the run up to the next separator
            let ghost tail = chars@.skip(i as int);
            let mut j: usize = i;
            proof {
                lemma_next_slash(tail, 0);
            }
            while j < chars.len() && chars[j] != '/'
                invariant
                    i <= j <= chars@.len(),
                    chars@ == s@,
                    tail == chars@.skip(i as int),
                    next_slash(tail, 0) == next_slash(tail, j - i),
                decreases chars.len() - j,
            {
                proof {
                    lemma_next_slash(tail, j - i);
                    assert(tail[j - i] == chars@[j as int]);
                }
                j = j + 1;
            }
            proof {
                lemma_next_slash(tail, j - i);
                if j < chars@.len() {
                    assert(tail[j - i] == chars@[j as int]);
                }
                assert(next_slash(tail, 0) == j - i);
            }
            let mut seg: Vec<char> = Vec::new();
            crate::source_code::push_subrange(&mut seg, &chars, i, j);
            proof {
                assert(seg@ =~= tail.take(j - i));
            }
            let ghost pre = segs@;
            segs.push(crate::utils::chars_to_string(&seg));
            proof {
                assert(tail.skip(j - i) =~= chars@.skip(j as int));
                assert(path_segments(tail) == seq![tail.take(j - i)] + path_segments(
                    chars@.skip(j as int),
                ));
                lemma_segs_view_push(pre, segs@.last());
                assert(segs_view(segs@) =~= segs_view(pre) + seq![tail.take(j - i)]);
            }
            i = j;
        }
    }
    proof {
        assert(chars@.skip(chars@.len() as int) =~= Seq::<char>::empty());
        assert(path_segments(chars@.skip(chars@.len() as int)) =~= Seq::<Seq<char>>::empty());
        assert(segs_view(segs@) + Seq::<Seq<char>>::empty() =~= segs_view(segs@));
    }
    (has_root, segs)
}

/// Join a root flag and segments back into path text.
fn join_path(root: bool, segs: &Vec<String>) -> (r: String)
    ensures
        r@ == join_segments(root, segs_view(segs@)),
{
    let ghost gsegs = segs_view(segs@);
    let mut v: Vec<char> = Vec::new();
    if segs.len() == 0 {
        if root {
            v.push('/');
        }
        proof {
            assert(v@ =~= join_segments(root, gsegs));
        }
        return crate::utils::chars_to_string(&v);
    }
    let mut k: usize = 0;
    while k < segs.len()
        invariant
            0 <= k <= segs@.len(),
            segs@.len() > 0,
            gsegs == segs_view(segs@),
            k > 0 ==> v@ == join_segments(root, gsegs.take(k as int)),
            k == 0 ==> v@ == Seq::<char>::empty(),
        decreases segs.len() - k,
    {
        if k > 0 || root {
            v.push('/');
        }
        crate::utils::push_str_chars(&mut v, segs[k].as_str());
        proof {
            assert(gsegs.take(k + 1 as int).drop_last() =~= gsegs.take(k as int));
            assert(gsegs.take(k + 1 as int).last() == gsegs[k as int]);
            if k == 0 {
                assert(v@ =~= join_segments(root, gsegs.take(1)));
            } else {
                assert(v@ =~= join_segments(root, gsegs.take(k + 1 as int)));
            }
        }
        k = k + 1;
    }
    proof {
        assert(gsegs.take(gsegs.len() as int) =~= gsegs);
    }
    crate::utils::chars_to_string(&v)
}

/// Whether a right-hand path can be joined: it must be relative, and
/// every segment must be a plain name (no `.` or `..` components).
pub open spec fn right_path_ok(s: Seq<char>) -> bool {
    &&& !path_has_root(s)
    &&& forall|i: int|
        0 <= i < path_segments(s).len() ==> (#[trigger] path_segments(s)[i]) != "."@
            && path_segments(s)[i] != ".."@
}

/// Scan the split right path for components that cannot be joined.
fn right_segments_ok(has_root: bool, segs: &Vec<String>, ghost_path: Ghost<Seq<char>>) -> (r: bool)
    requires
        has_root == path_has_root(ghost_path@),
        segs_view(segs@) == path_segments(ghost_path@),
    ensures
        r == right_path_ok(ghost_path@),
{
    if has_root {
        return false;
    }
    let dot: String = ".".to_owned();
    let dotdot: String = "..".to_owned();
    let mut i: usize = 0;
    while i < segs.len()
        invariant
            0 <= i <= segs@.len(),
            segs_view(segs@) == path_segments(ghost_path@),
            dot@ == "."@,
            dotdot@ == ".."@,
            forall|t: int|
                0 <= t < i ==> (#[trigger] path_segments(ghost_path@)[t]) != "."@ && path_segments(
                    ghost_path@,
                )[t] != ".."@,
        decreases segs.len() - i,
    {
        if segs[i] == dot || segs[i] == dotdot {
            proof {
                assert(path_segments(ghost_path@)[i as int] == segs@[i as int]@);
            }
            return false;
        }
        i = i + 1;
    }
    true
}

/// The smallest overlap length `k >= from` such that the last `k`
/// segments of `left` are the first `k` segments of `right`; `None` when
/// no length works.
pub open spec fn overlap_from(left: Seq<Seq<char>>, right: Seq<Seq<char>>, from: int) -> Option<
    int,
>
    decreases right.len() - from when 1 <= from
{
    if from > left.len() || from > right.len() {
        None
    } else if left.skip(left.len() - from) == right.take(from) {
        Some(from)
    } else if from == left.len() || from == right.len() {
        None
    } else {
        overlap_from(left, right, from + 1)
    }
}

/// The overlap between the end of `left` and the start of `right`.
pub open spec fn path_overlap(left: Seq<Seq<char>>, right: Seq<Seq<char>>) -> Option<int> {
    overlap_from(left, right, 1)
}

/// What joining with the overlap dropped gives: all of `left` up to the
/// overlap, then all of `right`.
pub open spec fn spec_join_overlap(left: Seq<Seq<char>>, right: Seq<Seq<char>>) -> Seq<Seq<char>> {
    match path_overlap(left, right) {
        Some(k) => left.take(left.len() - k) + right,
        None => left + right,
    }
}

/// Compare two segments.
fn seg_eq(a: &String, b: &String) -> (r: bool)
    ensures
        r == (a@ == b@),
{
    *a == *b
}

/// Whether the last `k` segments of `left` equal the first `k` segments
/// of `right`.
fn suffix_matches(left: &Vec<String>, right: &Vec<String>, k: usize) -> (r: bool)
    requires
        1 <= k <= left@.len(),
        k <= right@.len(),
    ensures
        r == (segs_view(left@).skip(left@.len() - k) == segs_view(right@).take(k as int)),
{
    let ghost gl = segs_view(left@);
    let ghost gr = segs_view(right@);
    let base = left.len() - k;
    let n_left = left.len();
    let mut t: usize = 0;
    while t < k
        invariant
            0 <= t <= k,
            1 <= k <= left@.len(),
            k <= right@.len(),
            n_left == left@.len(),
            base == left@.len() - k,
            gl == segs_view(left@),
            gr == segs_view(right@),
            forall|x: int| 0 <= x < t ==> gl[base + x] == gr[x],
        decreases k - t,
    {
        if !seg_eq(&left[base + t], &right[t]) {
            proof {
                assert(gl.skip(gl.len() - k)[t as int] == gl[base + t]);
                assert(gr.take(k as int)[t as int] == gr[t as int]);
            }
            return false;
        }
        t = t + 1;
    }
    proof {
        assert(gl.skip(gl.len() - k) =~= gr.take(k as int));
    }
    true
}

/// Join two paths while removing the overlapping run of segments where
/// `left` ends with what `right` begins with (the shortest such run
/// counts), so that a project root and a workspace-relative source path
/// meet in the absolute path of the file:
///
/// ```text
/// /home/my_project  +  my_project/nested/lib.rs
///       -> /home/my_project/nested/lib.rs
/// ```
///
/// An absolute right-hand path, or one holding `.` or `..` components,
/// cannot be joined and is refused. Segments are compared by name; the
/// result keeps the left path's root.
pub fn join_and_remove_overlap(left: &str, right: &str) -> (r: Result<String, String>)
    ensures
        r is Err <==> !right_path_ok(right@),
        r matches Ok(out) ==> out@ == join_segments(
            path_has_root(left@),
            spec_join_overlap(path_segments(left@), path_segments(right@)),
        ),
{
    let (root_l, lsegs) = split_path(left);
    let (root_r, rsegs) = split_path(right);
    if !right_segments_ok(root_r, &rsegs, Ghost(right@)) {
        return Err("Invalid path component. Expected to only have normals".to_owned());
    }
    let ghost gl = segs_view(lsegs@);
    let ghost gr = segs_view(rsegs@);
    let mut idx: usize = 0;
    while idx < rsegs.len() && idx < lsegs.len()
        invariant
            gl == segs_view(lsegs@),
            gr == segs_view(rsegs@),
            gl == path_segments(left@),
            gr == path_segments(right@),
            root_l == path_has_root(left@),
            right_path_ok(right@),
            idx <= gr.len(),
            idx <= gl.len(),
            overlap_from(gl, gr, 1) == overlap_from(gl, gr, idx + 1),
        decreases rsegs.len() - idx,
    {
        let k = idx + 1;
        if suffix_matches(&lsegs, &rsegs, k) {
            proof {
                assert(overlap_from(gl, gr, k as int) == Some(k as int));
            }
            // drop the overlapped suffix of the left path, keep right whole
            let mut merged: Vec<String> = Vec::new();
            let mut t: usize = 0;
            let keep = lsegs.len() - k;
            while t < keep
                invariant
                    0 <= t <= keep,
                    keep == lsegs@.len() - k,
                    k <= lsegs@.len(),
                    gl == segs_view(lsegs@),
                    segs_view(merged@) == gl.take(keep as int).take(t as int),
                decreases keep - t,
            {
                let ghost pre = merged@;
                merged.push(lsegs[t].clone());
                proof {
                    lemma_segs_view_push(pre, merged@.last());
                    assert(segs_view(merged@) =~= gl.take(keep as int).take(t + 1 as int));
                }
                t = t + 1;
            }
            let mut t2: usize = 0;
            while t2 < rsegs.len()
                invariant
                    0 <= t2 <= rsegs@.len(),
                    keep == lsegs@.len() - k,
                    k <= lsegs@.len(),
                    gl == segs_view(lsegs@),
                    gr == segs_view(rsegs@),
                    segs_view(merged@) == gl.take(keep as int) + gr.take(t2 as int),
                decreases rsegs.len() - t2,
            {
                let ghost pre = merged@;
                merged.push(rsegs[t2].clone());
                proof {
                    lemma_segs_view_push(pre, merged@.last());
                    assert(segs_view(merged@) =~= gl.take(keep as int) + gr.take(t2 + 1 as int));
                }
                t2 = t2 + 1;
            }
            proof {
                assert(gl.take(keep as int) + gr.take(gr.len() as int) =~= gl.take(gl.len() - k)
                    + gr);
            }
            return Ok(join_path(root_l, &merged));
        }
        idx = idx + 1;
    }
    proof {
        assert(overlap_from(gl, gr, idx + 1) is None);
    }
    // no overlap: plain concatenation
    let mut merged: Vec<String> = Vec::new();
    let mut t: usize = 0;
    while t < lsegs.len()
        invariant
            0 <= t <= lsegs@.len(),
            gl == segs_view(lsegs@),
            segs_view(merged@) == gl.take(t as int),
        decreases lsegs.len() - t,
    {
        let ghost pre = merged@;
        merged.push(lsegs[t].clone());
        proof {
            lemma_segs_view_push(pre, merged@.last());
            assert(segs_view(merged@) =~= gl.take(t + 1 as int));
        }
        t = t + 1;
    }
    let mut t2: usize = 0;
    while t2 < rsegs.len()
        invariant
            0 <= t2 <= rsegs@.len(),
            gl == segs_view(lsegs@),
            gr == segs_view(rsegs@),
            segs_view(merged@) == gl + gr.take(t2 as int),
        decreases rsegs.len() - t2,
    {
        let ghost pre = merged@;
        merged.push(rsegs[t2].clone());
        proof {
            lemma_segs_view_push(pre, merged@.last());
            assert(segs_view(merged@) =~= gl + gr.take(t2 + 1 as int));
        }
        t2 = t2 + 1;
    }
    proof {
        assert(gl + gr.take(gr.len() as int) =~= gl + gr);
        assert(gl.take(gl.len() as int) =~= gl);
    }
    Ok(join_path(root_l, &merged))
}

/// The left path with the overlapping run of segments dropped: what
/// `join_and_remove_overlap` builds, before the right path is appended.
/// The same right-hand paths are refused.
pub fn remove_overlap(left: &str, right: &str) -> (r: Result<String, String>)
    ensures
        r is Err <==> !right_path_ok(right@),
        r matches Ok(out) ==> out@ == join_segments(
            path_has_root(left@),
            match path_overlap(path_segments(left@), path_segments(right@)) {
                Some(k) => path_segments(left@).take(path_segments(left@).len() - k),
                None => path_segments(left@),
            },
        ),
{
    let (root_l, lsegs) = split_path(left);
    let (root_r, rsegs) = split_path(right);
    if !right_segments_ok(root_r, &rsegs, Ghost(right@)) {
        return Err("Invalid path component. Expected to only have normals".to_owned());
    }
    let ghost gl = segs_view(lsegs@);
    let ghost gr = segs_view(rsegs@);
    let mut idx: usize = 0;
    while idx < rsegs.len() && idx < lsegs.len()
        invariant
            gl == segs_view(lsegs@),
            gr == segs_view(rsegs@),
            gl == path_segments(left@),
            gr == path_segments(right@),
            root_l == path_has_root(left@),
            right_path_ok(right@),
            idx <= gr.len(),
            idx <= gl.len(),
            overlap_from(gl, gr, 1) == overlap_from(gl, gr, idx + 1),
        decreases rsegs.len() - idx,
    {
        let k = idx + 1;
        if suffix_matches(&lsegs, &rsegs, k) {
            proof {
                assert(overlap_from(gl, gr, k as int) == Some(k as int));
            }
            let mut kept: Vec<String> = Vec::new();
            let mut t: usize = 0;
            let keep = lsegs.len() - k;
            while t < keep
                invariant
                    0 <= t <= keep,
                    keep == lsegs@.len() - k,
                    k <= lsegs@.len(),
                    gl == segs_view(lsegs@),
                    segs_view(kept@) == gl.take(keep as int).take(t as int),
                decreases keep - t,
            {
                let ghost pre = kept@;
                kept.push(lsegs[t].clone());
                proof {
                    lemma_segs_view_push(pre, kept@.last());
                    assert(segs_view(kept@) =~= gl.take(keep as int).take(t + 1 as int));
                }
                t = t + 1;
            }
            proof {
                assert(gl.take(keep as int).take(keep as int) =~= gl.take(gl.len() - k));
            }
            return Ok(join_path(root_l, &kept));
        }
        idx = idx + 1;
    }
    proof {
        assert(overlap_from(gl, gr, idx + 1) is None);
        assert(gl.take(gl.len() as int) =~= gl);
    }
    let mut kept: Vec<String> = Vec::new();
    let mut t: usize = 0;
    while t < lsegs.len()
        invariant
            0 <= t <= lsegs@.len(),
            gl == segs_view(lsegs@),
            segs_view(kept@) == gl.take(t as int),
        decreases lsegs.len() - t,
    {
        let ghost pre = kept@;
        kept.push(lsegs[t].clone());
        proof {
            lemma_segs_view_push(pre, kept@.last());
            assert(segs_view(kept@) =~= gl.take(t + 1 as int));
        }
        t = t + 1;
    }
    proof {
        assert(gl.take(gl.len() as int) =~= gl);
    }
    Ok(join_path(root_l, &kept))
}

} // verus!
