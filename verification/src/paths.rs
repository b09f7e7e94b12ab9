//! Shape inference on byte-string paths: the final segment of a folder path,
//! and the `.bak` sibling used when a library file is backed up.

use vstd::prelude::*;
use vstd::string::StringSliceAdditionalSpecFns;
use crate::bytes::{SLASH, rfind_end, rfind_byte_before, push_bytes, copy_range, lemma_rfind_end};
use vstd::slice::slice_to_vec;

verus! {

/// `.` in paths.
pub const DOT: u8 = 46;

/// The path without its trailing separators.
pub open spec fn strip_trailing(p: Seq<u8>) -> Seq<u8>
    decreases p.len(),
{
    if p.len() > 0 && p.last() == SLASH {
        strip_trailing(p.drop_last())
    } else {
        p
    }
}

/// The final segment of a folder path: what follows the last separator once
/// trailing separators are ignored.  Empty only for an empty or all-`/` path.
pub open spec fn last_segment(p: Seq<u8>) -> Seq<u8> {
    let q = strip_trailing(p);
    q.subrange(rfind_end(q, SLASH), q.len() as int)
}

/// Bounds `(lo, hi)` of the final segment of `p`, so that
/// `p@.subrange(lo, hi) == last_segment(p@)`.
pub fn last_segment_bounds(p: &[u8]) -> (r: (usize, usize))
    ensures
        r.0 <= r.1 <= p@.len(),
        p@.subrange(r.0 as int, r.1 as int) == last_segment(p@),
{
    let len = p.len();
    let mut hi = len;
    proof {
        assert(p@.subrange(0, len as int) =~= p@);
    }
    while hi > 0 && p[hi - 1] == SLASH
        invariant
            0 <= hi <= len,
            len == p@.len(),
            strip_trailing(p@) == strip_trailing(p@.subrange(0, hi as int)),
        decreases hi,
    {
        proof {
            assert(p@.subrange(0, hi as int).last() == SLASH);
            assert(p@.subrange(0, hi as int).drop_last() =~= p@.subrange(0, hi as int - 1));
        }
        hi = hi - 1;
    }
    proof {
        if hi > 0 {
            assert(p@.subrange(0, hi as int).last() == p@[hi as int - 1]);
        }
        assert(strip_trailing(p@) == p@.subrange(0, hi as int));
    }
    let lo = rfind_byte_before(p, hi, SLASH);
    proof {
        let q = strip_trailing(p@);
        lemma_rfind_end(q, SLASH);
        assert(q.subrange(rfind_end(q, SLASH), q.len() as int)
            =~= p@.subrange(lo as int, hi as int));
    }
    (lo, hi)
}

/// The path that `set_extension("bak")` produces: within the final path
/// component everything after the last `.` becomes `bak`; a component with
/// no such extension gets `.bak` appended.
pub open spec fn bak_of(p: Seq<u8>) -> Seq<u8> {
    let sl = rfind_end(p, SLASH);
    let d = rfind_end(p, DOT);
    if d > sl + 1 {
        p.subrange(0, d) + "bak".spec_bytes()
    } else {
        p + ".bak".spec_bytes()
    }
}

/// The `.bak` sibling of `p`.
pub fn bak_path(p: &[u8]) -> (r: Vec<u8>)
    ensures
        r@ == bak_of(p@),
{
    let len = p.len();
    proof {
        assert(p@.subrange(0, len as int) =~= p@);
    }
    let sl = rfind_byte_before(p, len, SLASH);
    let d = rfind_byte_before(p, len, DOT);
    proof {
        lemma_rfind_end(p@, DOT);
        lemma_rfind_end(p@, SLASH);
    }
    if d >= 1 && d - 1 > sl {
        let mut out = copy_range(p, 0, d);
        push_bytes(&mut out, "bak".as_bytes());
        out
    } else {
        let mut out = slice_to_vec(p);
        push_bytes(&mut out, ".bak".as_bytes());
        out
    }
}

} // verus!
