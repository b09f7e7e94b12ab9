//! Byte-string primitives shared by the parser and the path helpers:
//! searching, region comparison, copying and path joining.

use vstd::prelude::*;
use vstd::slice::{slice_subrange, slice_to_vec};

verus! {

/// Path separator `/`.
pub const SLASH: u8 = 47;

/// Index of the first occurrence of `b` in `s` at or after `from`;
/// `s.len()` when there is none.
pub open spec fn find_idx(s: Seq<u8>, from: int, b: u8) -> int
    decreases s.len() - from when 0 <= from <= s.len()
{
    if from >= s.len() {
        s.len() as int
    } else if s[from] == b {
        from
    } else {
        find_idx(s, from + 1, b)
    }
}

pub proof fn lemma_find_idx(s: Seq<u8>, from: int, b: u8)
    requires
        0 <= from <= s.len(),
    ensures
        from <= find_idx(s, from, b) <= s.len(),
        find_idx(s, from, b) < s.len() ==> s[find_idx(s, from, b)] == b,
        forall|k: int| from <= k < find_idx(s, from, b) ==> s[k] != b,
    decreases s.len() - from,
{
    if from < s.len() && s[from] != b {
        lemma_find_idx(s, from + 1, b);
    }
}

/// First occurrence of `b` at or after `from`, or `s.len()` when absent.
pub fn find_byte(s: &[u8], from: usize, b: u8) -> (r: usize)
    requires
        from <= s@.len(),
    ensures
        r == find_idx(s@, from as int, b),
{
    let len = s.len();
    let mut i = from;
    while i < len
        invariant
            from <= i <= len,
            len == s@.len(),
            find_idx(s@, from as int, b) == find_idx(s@, i as int, b),
        decreases len - i,
    {
        if s[i] == b {
            return i;
        }
        i = i + 1;
    }
    i
}

/// Index just past the last occurrence of `b` in `s`; `0` when there is none.
/// (So `s[r - 1] == b` whenever `r > 0`, and no occurrence lies at or after `r`.)
pub open spec fn rfind_end(s: Seq<u8>, b: u8) -> int
    decreases s.len(),
{
    if s.len() == 0 {
        0
    } else if s.last() == b {
        s.len() as int
    } else {
        rfind_end(s.drop_last(), b)
    }
}

pub proof fn lemma_rfind_end(s: Seq<u8>, b: u8)
    ensures
        0 <= rfind_end(s, b) <= s.len(),
        rfind_end(s, b) > 0 ==> s[rfind_end(s, b) - 1] == b,
        forall|k: int| rfind_end(s, b) <= k < s.len() ==> s[k] != b,
    decreases s.len(),
{
    if s.len() > 0 && s.last() != b {
        lemma_rfind_end(s.drop_last(), b);
        assert forall|k: int| rfind_end(s, b) <= k < s.len() implies s[k] != b by {
            if k < s.len() - 1 {
                assert(s.drop_last()[k] == s[k]);
            }
        }
    }
}

/// Last occurrence of `b` within `s.subrange(0, end)`, reported as the index
/// just past it; `0` when absent.
pub fn rfind_byte_before(s: &[u8], end: usize, b: u8) -> (r: usize)
    requires
        end <= s@.len(),
    ensures
        r == rfind_end(s@.subrange(0, end as int), b),
{
    let mut i = end;
    while i > 0
        invariant
            0 <= i <= end <= s@.len(),
            rfind_end(s@.subrange(0, end as int), b) == rfind_end(s@.subrange(0, i as int), b),
        decreases i,
    {
        if s[i - 1] == b {
            proof {
                assert(s@.subrange(0, i as int).last() == b);
            }
            return i;
        }
        proof {
            assert(s@.subrange(0, i as int).drop_last() =~= s@.subrange(0, i as int - 1));
        }
        i = i - 1;
    }
    proof {
        assert(s@.subrange(0, 0) =~= Seq::<u8>::empty());
    }
    0
}

/// Whether `s.subrange(lo, hi)` equals the whole of `pat`.
pub fn region_eq(s: &[u8], lo: usize, hi: usize, pat: &[u8]) -> (r: bool)
    requires
        lo <= hi <= s@.len(),
    ensures
        r == (s@.subrange(lo as int, hi as int) == pat@),
{
    if hi - lo != pat.len() {
        proof {
            assert(s@.subrange(lo as int, hi as int).len() == hi - lo);
        }
        return false;
    }
    let n = pat.len();
    let mut i: usize = 0;
    while i < n
        invariant
            0 <= i <= n,
            n == pat@.len(),
            lo <= hi <= s@.len(),
            hi - lo == n,
            forall|k: int| 0 <= k < i ==> s@[lo + k] == pat@[k],
        decreases n - i,
    {
        if s[lo + i] != pat[i] {
            proof {
                assert(s@.subrange(lo as int, hi as int)[i as int] == s@[lo + i]);
            }
            return false;
        }
        i = i + 1;
    }
    proof {
        assert(s@.subrange(lo as int, hi as int) =~= pat@);
    }
    true
}

/// A fresh vector holding `s.subrange(lo, hi)`.
pub fn copy_range(s: &[u8], lo: usize, hi: usize) -> (r: Vec<u8>)
    requires
        lo <= hi <= s@.len(),
    ensures
        r@ == s@.subrange(lo as int, hi as int),
{
    slice_to_vec(slice_subrange(s, lo, hi))
}

/// Joining a relative path onto a base directory, the way `PathBuf::push`
/// does for relative additions: an empty base yields the addition alone, and
/// exactly one separator stands between the two otherwise.
pub open spec fn join_seq(base: Seq<u8>, rel: Seq<u8>) -> Seq<u8> {
    if base.len() == 0 {
        rel
    } else if base.last() == SLASH {
        base + rel
    } else {
        base + seq![SLASH] + rel
    }
}

/// Append the whole of `more` to `out`.
pub fn push_bytes(out: &mut Vec<u8>, more: &[u8])
    ensures
        final(out)@ == old(out)@ + more@,
{
    let ghost base = out@;
    let n = more.len();
    let mut i: usize = 0;
    while i < n
        invariant
            0 <= i <= n,
            n == more@.len(),
            out@ == base + more@.subrange(0, i as int),
        decreases n - i,
    {
        out.push(more[i]);
        proof {
            assert(base + more@.subrange(0, i as int) + seq![more@[i as int]]
                =~= base + more@.subrange(0, i + 1));
        }
        i = i + 1;
    }
    proof {
        assert(more@.subrange(0, n as int) =~= more@);
    }
}

/// Append `rel` to the path held in `out`, inserting a separator as needed.
pub fn push_joined(out: &mut Vec<u8>, rel: &[u8])
    ensures
        final(out)@ == join_seq(old(out)@, rel@),
{
    if out.len() > 0 && out[out.len() - 1] != SLASH {
        out.push(SLASH);
        proof {
            assert(old(out)@ + seq![SLASH] =~= out@);
        }
    }
    push_bytes(out, rel);
    proof {
        if old(out)@.len() > 0 && old(out)@.last() != SLASH {
            assert(out@ =~= old(out)@ + seq![SLASH] + rel@);
        }
    }
}

/// The join of `base` and `rel` as a fresh vector.
pub fn join_path(base: &[u8], rel: &[u8]) -> (r: Vec<u8>)
    ensures
        r@ == join_seq(base@, rel@),
{
    let mut out = slice_to_vec(base);
    push_joined(&mut out, rel);
    out
}

} // verus!
