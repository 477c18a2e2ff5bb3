//! Byte-string helpers: prefixes, slices, concatenation, searching.
use vstd::prelude::*;

verus! {

/// The path separator `/`.
pub const SEP: u8 = 47;

/// The byte `.`.
pub const DOT: u8 = 46;

/// The string terminator of C.
pub const NUL: u8 = 0;

/// The line feed byte.
pub const NEWLINE: u8 = 10;

/// The bytes held by an optional vector.
pub open spec fn opt_bytes(o: Option<Vec<u8>>) -> Option<Seq<u8>> {
    match o {
        Some(v) => Some(v@),
        None => None,
    }
}

/// `s` begins with `p`.
pub open spec fn has_prefix(s: Seq<u8>, p: Seq<u8>) -> bool {
    p.len() <= s.len() && s.subrange(0, p.len() as int) == p
}

/// `s` begins with `p` followed by the byte `b` exactly when it begins with
/// `p` and holds `b` right after it.
pub proof fn lemma_prefix_push(s: Seq<u8>, p: Seq<u8>, b: u8)
    ensures
        has_prefix(s, p.push(b)) <==> (has_prefix(s, p) && s.len() > p.len() && s[p.len() as int]
            == b),
{
    if has_prefix(s, p.push(b)) {
        assert(s.subrange(0, p.len() as int) =~= s.subrange(0, p.len() + 1 as int).subrange(
            0,
            p.len() as int,
        ));
        assert(p.push(b).subrange(0, p.len() as int) =~= p);
        assert(s.subrange(0, p.len() + 1 as int)[p.len() as int] == b);
    }
    if has_prefix(s, p) && s.len() > p.len() && s[p.len() as int] == b {
        assert(s.subrange(0, p.len() + 1 as int) =~= p.push(b));
    }
}

/// `a + b` begins with `a + c` exactly when `b` begins with `c`.
pub proof fn lemma_prefix_concat(a: Seq<u8>, b: Seq<u8>, c: Seq<u8>)
    ensures
        has_prefix(a + b, a + c) <==> has_prefix(b, c),
{
    if has_prefix(a + b, a + c) {
        assert(b.subrange(0, c.len() as int) =~= (a + b).subrange(0, (a + c).len() as int).subrange(
            a.len() as int,
            (a + c).len() as int,
        ));
        assert((a + c).subrange(a.len() as int, (a + c).len() as int) =~= c);
    }
    if has_prefix(b, c) {
        assert((a + b).subrange(0, (a + c).len() as int) =~= a + b.subrange(0, c.len() as int));
    }
}

/// `s` with every run of separators reduced to one separator.
pub open spec fn collapse_seps(s: Seq<u8>) -> Seq<u8>
    decreases s.len(),
{
    if s.len() == 0 {
        s
    } else {
        let c = collapse_seps(s.drop_last());
        if s.last() == SEP && c.len() > 0 && c.last() == SEP {
            c
        } else {
            c.push(s.last())
        }
    }
}

/// No separator in `s` is followed by another.
pub open spec fn no_double_sep(s: Seq<u8>) -> bool {
    forall|i: int| 0 <= i < s.len() - 1 && #[trigger] s[i] == SEP ==> s[i + 1] != SEP
}

/// Collapsing leaves no two separators in a row, keeps the first byte, and
/// only ever shortens.
pub proof fn lemma_collapse_seps(s: Seq<u8>)
    ensures
        no_double_sep(collapse_seps(s)),
        collapse_seps(s).len() <= s.len(),
        s.len() > 0 ==> collapse_seps(s).len() > 0 && collapse_seps(s)[0] == s[0],
    decreases s.len(),
{
    if s.len() > 0 {
        let c = collapse_seps(s.drop_last());
        lemma_collapse_seps(s.drop_last());
        if !(s.last() == SEP && c.len() > 0 && c.last() == SEP) {
            let d = c.push(s.last());
            assert forall|i: int| 0 <= i < d.len() - 1 && #[trigger] d[i] == SEP implies d[i + 1]
                != SEP by {
                if i < c.len() - 1 {
                    assert(d[i] == c[i] && d[i + 1] == c[i + 1]);
                }
            }
            if s.len() > 1 {
                assert(s.drop_last()[0] == s[0]);
            }
        }
    }
}

/// A byte string with no two separators in a row is its own collapse.
pub proof fn lemma_collapse_seps_id(s: Seq<u8>)
    requires
        no_double_sep(s),
    ensures
        collapse_seps(s) == s,
    decreases s.len(),
{
    if s.len() > 0 {
        let t = s.drop_last();
        assert forall|i: int| 0 <= i < t.len() - 1 && #[trigger] t[i] == SEP implies t[i + 1]
            != SEP by {
            assert(s[i] == SEP);
        }
        lemma_collapse_seps_id(t);
        if s.last() == SEP && t.len() > 0 && t.last() == SEP {
            assert(s[s.len() - 2] == SEP);
        }
        assert(t.push(s.last()) =~= s);
    }
}

/// `s` with every run of separators reduced to one separator.
pub fn collapse_separators(s: &[u8]) -> (r: Vec<u8>)
    ensures
        r@ == collapse_seps(s@),
{
    let mut out: Vec<u8> = Vec::new();
    let mut i: usize = 0;
    assert(s@.take(0) =~= Seq::<u8>::empty());
    while i < s.len()
        invariant
            i <= s.len(),
            out@ == collapse_seps(s@.take(i as int)),
        decreases s.len() - i,
    {
        assert(s@.take(i + 1).drop_last() =~= s@.take(i as int));
        assert(s@.take(i + 1).last() == s@[i as int]);
        let skip = s[i] == SEP && out.len() > 0 && out[out.len() - 1] == SEP;
        if !skip {
            out.push(s[i]);
        }
        i = i + 1;
    }
    assert(s@.take(s.len() as int) =~= s@);
    out
}

/// Whether `s` begins with `p`.
pub fn starts_with(s: &[u8], p: &[u8]) -> (r: bool)
    ensures
        r == has_prefix(s@, p@),
{
    if p.len() > s.len() {
        return false;
    }
    let mut i: usize = 0;
    while i < p.len()
        invariant
            p.len() <= s.len(),
            i <= p.len(),
            forall|j: int| 0 <= j < i ==> s@[j] == p@[j],
        decreases p.len() - i,
    {
        if s[i] != p[i] {
            assert(s@.subrange(0, p.len() as int)[i as int] != p@[i as int]);
            return false;
        }
        i = i + 1;
    }
    assert(s@.subrange(0, p.len() as int) =~= p@);
    true
}

/// Whether `a` and `b` hold the same bytes.
pub fn same_bytes(a: &[u8], b: &[u8]) -> (r: bool)
    ensures
        r == (a@ == b@),
{
    if a.len() != b.len() {
        return false;
    }
    let r = starts_with(a, b);
    assert(a@ =~= a@.subrange(0, b@.len() as int));
    r
}

/// A fresh vector with the bytes of `s`.
pub fn copy_bytes(s: &[u8]) -> (r: Vec<u8>)
    ensures
        r@ == s@,
{
    vstd::slice::slice_to_vec(s)
}

/// The bytes of `s` from index `i` up to (not including) `j`.
pub fn sub_bytes(s: &[u8], i: usize, j: usize) -> (r: Vec<u8>)
    requires
        i <= j <= s@.len(),
    ensures
        r@ == s@.subrange(i as int, j as int),
{
    vstd::slice::slice_to_vec(vstd::slice::slice_subrange(s, i, j))
}

/// The bytes of `a` followed by those of `b`.
pub fn concat_bytes(a: &[u8], b: &[u8]) -> (r: Vec<u8>)
    ensures
        r@ == a@ + b@,
{
    let mut r = copy_bytes(a);
    let mut rest = copy_bytes(b);
    r.append(&mut rest);
    r
}

/// Append a copy of `b` to the list of byte strings `out`.
pub fn push_copy(out: &mut Vec<Vec<u8>>, b: &[u8])
    ensures
        final(out).deep_view() == old(out).deep_view().push(b@),
{
    let ghost before = out.deep_view();
    let c = copy_bytes(b);
    out.push(c);
    assert(out.deep_view()[before.len() as int] == b@);
    assert(forall|k: int| 0 <= k < before.len() ==> out.deep_view()[k] == before[k]);
    assert(out.deep_view() =~= before.push(b@));
}

/// Whether the byte `b` occurs in `s`.
pub fn contains_byte(s: &[u8], b: u8) -> (r: bool)
    ensures
        r == s@.contains(b),
{
    let mut i: usize = 0;
    while i < s.len()
        invariant
            i <= s.len(),
            forall|j: int| 0 <= j < i ==> s@[j] != b,
        decreases s.len() - i,
    {
        if s[i] == b {
            assert(s@[i as int] == b);
            return true;
        }
        i = i + 1;
    }
    false
}

/// The index of the first `x` in `s`, or `s.len()` if there is none.
pub open spec fn index_of(s: Seq<u8>, x: u8) -> int
    decreases s.len(),
{
    if s.len() == 0 {
        0
    } else if s[0] == x {
        0
    } else {
        1 + index_of(s.drop_first(), x)
    }
}

/// `index_of` lies within `s`, and nothing before it is `x`.
pub proof fn lemma_index_of(s: Seq<u8>, x: u8)
    ensures
        0 <= index_of(s, x) <= s.len(),
        index_of(s, x) < s.len() ==> s[index_of(s, x)] == x,
        forall|j: int| 0 <= j < index_of(s, x) ==> s[j] != x,
    decreases s.len(),
{
    if s.len() > 0 && s[0] != x {
        lemma_index_of(s.drop_first(), x);
        assert forall|j: int| 0 <= j < index_of(s, x) implies s[j] != x by {
            if j > 0 {
                assert(s[j] == s.drop_first()[j - 1]);
            }
        }
    }
}

/// Where `x` first occurs in `s`, or `s.len()` if it does not.
pub fn find_byte(s: &[u8], x: u8) -> (r: usize)
    ensures
        r == index_of(s@, x),
{
    let mut i: usize = 0;
    while i < s.len()
        invariant
            i <= s.len(),
            forall|j: int| 0 <= j < i ==> s@[j] != x,
        decreases s.len() - i,
    {
        if s[i] == x {
            proof {
                lemma_index_of(s@, x);
                if index_of(s@, x) < i {
                    assert(s@[index_of(s@, x)] == x);
                }
                if index_of(s@, x) > i {
                    assert(s@[i as int] != x);
                }
            }
            return i;
        }
        i = i + 1;
    }
    proof {
        lemma_index_of(s@, x);
        if index_of(s@, x) < s@.len() {
            assert(s@[index_of(s@, x)] == x);
        }
    }
    s.len()
}

// ---------------------------------------------------------------------------
// Comparing paths by their components
// ---------------------------------------------------------------------------

/// The components `parts` with the segment `cur` closed: an empty segment
/// (from a repeated or trailing separator) and a `.` segment add nothing.
pub open spec fn close_part(parts: Seq<Seq<u8>>, cur: Seq<u8>) -> Seq<Seq<u8>> {
    if cur.len() == 0 || cur == seq![DOT] {
        parts
    } else {
        parts.push(cur)
    }
}

/// Reading `p` from the left: the components closed so far, and the
/// segment being read.
pub open spec fn scan_parts(p: Seq<u8>) -> (Seq<Seq<u8>>, Seq<u8>)
    decreases p.len(),
{
    if p.len() == 0 {
        (seq![], seq![])
    } else {
        let (parts, cur) = scan_parts(p.drop_last());
        if p.last() == SEP {
            (close_part(parts, cur), seq![])
        } else {
            (parts, cur.push(p.last()))
        }
    }
}

/// The named components of `p`, in order: its segments between separators,
/// without empty and `.` segments.
pub open spec fn path_parts(p: Seq<u8>) -> Seq<Seq<u8>> {
    close_part(scan_parts(p).0, scan_parts(p).1)
}

/// `p` starts at the root.
pub open spec fn has_root(p: Seq<u8>) -> bool {
    p.len() > 0 && p[0] == SEP
}

/// `p` is relative and starts with the component `.`.
pub open spec fn leading_cur_dir(p: Seq<u8>) -> bool {
    p.len() > 0 && p[0] == DOT && (p.len() == 1 || p[1] == SEP)
}

/// `a` and `b` are the same path component by component, as
/// `std::path::Path` compares paths: whether each starts at the root,
/// whether each starts with `.`, and their named components.
pub open spec fn spec_same_path(a: Seq<u8>, b: Seq<u8>) -> bool {
    &&& has_root(a) == has_root(b)
    &&& leading_cur_dir(a) == leading_cur_dir(b)
    &&& path_parts(a) == path_parts(b)
}

/// Close the segment `cur` into `parts`.
fn close_into(parts: &mut Vec<Vec<u8>>, cur: Vec<u8>)
    ensures
        final(parts).deep_view() == close_part(old(parts).deep_view(), cur@),
{
    if cur.len() == 0 || (cur.len() == 1 && cur[0] == DOT) {
        proof {
            if cur.len() == 1 {
                assert(cur@ =~= seq![DOT]);
            }
        }
    } else {
        let ghost before = parts.deep_view();
        let ghost before_v = parts@;
        let ghost cv = cur@;
        parts.push(cur);
        assert(parts@ == before_v.push(cur));
        assert(parts.deep_view()[before.len() as int] == cv);
        assert(forall|k: int| 0 <= k < before.len() ==> parts.deep_view()[k] == before[k]);
        assert(cv != seq![DOT]);
        assert(parts.deep_view() =~= before.push(cv));
    }
}

/// The named components of `p`.
pub fn components(p: &[u8]) -> (r: Vec<Vec<u8>>)
    ensures
        r.deep_view() == path_parts(p@),
{
    let mut parts: Vec<Vec<u8>> = Vec::new();
    let mut cur: Vec<u8> = Vec::new();
    let mut i: usize = 0;
    assert(p@.take(0) =~= Seq::<u8>::empty());
    assert(parts.deep_view() =~= Seq::<Seq<u8>>::empty());
    while i < p.len()
        invariant
            i <= p.len(),
            (parts.deep_view(), cur@) == scan_parts(p@.take(i as int)),
        decreases p.len() - i,
    {
        assert(p@.take(i + 1).drop_last() =~= p@.take(i as int));
        assert(p@.take(i + 1).last() == p@[i as int]);
        if p[i] == SEP {
            let done = cur;
            close_into(&mut parts, done);
            cur = Vec::new();
            assert(cur@ =~= Seq::<u8>::empty());
        } else {
            cur.push(p[i]);
        }
        i = i + 1;
    }
    assert(p@.take(p.len() as int) =~= p@);
    close_into(&mut parts, cur);
    parts
}

/// Whether `a` and `b` are the same sequence of byte strings.
fn same_parts(a: &Vec<Vec<u8>>, b: &Vec<Vec<u8>>) -> (r: bool)
    ensures
        r == (a.deep_view() == b.deep_view()),
{
    if a.len() != b.len() {
        assert(a.deep_view().len() != b.deep_view().len());
        return false;
    }
    let mut i: usize = 0;
    while i < a.len()
        invariant
            i <= a.len(),
            a.len() == b.len(),
            forall|k: int| 0 <= k < i ==> a.deep_view()[k] == b.deep_view()[k],
        decreases a.len() - i,
    {
        assert(a.deep_view()[i as int] == a@[i as int]@);
        assert(b.deep_view()[i as int] == b@[i as int]@);
        if !same_bytes(&a[i], &b[i]) {
            assert(a.deep_view()[i as int] != b.deep_view()[i as int]);
            return false;
        }
        i = i + 1;
    }
    assert(a.deep_view() =~= b.deep_view());
    true
}

/// Whether `a` and `b` are the same path component by component: a
/// repeated separator, a trailing one and a `.` after the first component
/// make no difference.
pub fn same_path(a: &[u8], b: &[u8]) -> (r: bool)
    ensures
        r == spec_same_path(a@, b@),
{
    let root_a = a.len() > 0 && a[0] == SEP;
    let root_b = b.len() > 0 && b[0] == SEP;
    let cur_a = a.len() > 0 && a[0] == DOT && (a.len() == 1 || a[1] == SEP);
    let cur_b = b.len() > 0 && b[0] == DOT && (b.len() == 1 || b[1] == SEP);
    if root_a != root_b || cur_a != cur_b {
        return false;
    }
    let pa = components(a);
    let pb = components(b);
    same_parts(&pa, &pb)
}

} // verus!
