//! The definition-file parser.
//!
//! A definition file is line-oriented text.  A line of the shape
//! `<key> = <value>` (single spaces around `=`) binds `key`; the value may
//! be wrapped in double quotes, which are stripped.  Only the keys `name`
//! and `steam_id` matter; every other line is ignored.  Later bindings win.
//! `steam_id` must read as an unsigned 32-bit integer or the file is
//! rejected with the byte span of the offending value; a file that never
//! binds both keys is rejected without a span.

use vstd::prelude::*;
use vstd::string::StringSliceAdditionalSpecFns;
use crate::bytes::{find_idx, find_byte, lemma_find_idx, region_eq, copy_range};
use crate::error::{ParseIssue, Span};

verus! {

/// Line feed.
pub const LF: u8 = 10;
/// Carriage return.
pub const CR: u8 = 13;
/// Double quote, stripped from both ends of a value.
pub const QUOTE: u8 = 34;
/// Leading plus sign, accepted by unsigned decimal parsing.
pub const PLUS: u8 = 43;
/// Space, half of the ` = ` separator.
pub const SP: u8 = 32;
/// Equals sign, middle of the ` = ` separator.
pub const EQS: u8 = 61;

/// One unlockable content pack: its numeric identifier and display name.
#[derive(Debug)]
pub struct DlcEntry {
    /// The pack's Steam identifier; always positive.
    pub id: u32,
    /// The pack's display name; never empty.
    pub name: Vec<u8>,
}

/// Whether the three-byte separator ` = ` stands at `k`.
pub open spec fn sep_at(s: Seq<u8>, k: int) -> bool {
    s[k] == SP && s[k + 1] == EQS && s[k + 2] == SP
}

/// First position in `[from, end - 2)` where ` = ` stands; `end` when none.
pub open spec fn find_sep(s: Seq<u8>, from: int, end: int) -> int
    decreases end - from,
{
    if from + 3 > end {
        end
    } else if sep_at(s, from) {
        from
    } else {
        find_sep(s, from + 1, end)
    }
}

pub proof fn lemma_find_sep(s: Seq<u8>, from: int, end: int)
    requires
        from <= end,
    ensures
        from <= find_sep(s, from, end) <= end,
        find_sep(s, from, end) + 3 <= end ==> sep_at(s, find_sep(s, from, end)),
        forall|k: int| from <= k < find_sep(s, from, end) && k + 3 <= end ==> !sep_at(s, k),
    decreases end - from,
{
    if from + 3 <= end && !sep_at(s, from) {
        lemma_find_sep(s, from + 1, end);
    }
}

/// First position of ` = ` in `s.subrange(from, end)`, reported absolutely;
/// `end` when there is none.
pub fn find_sep_exec(s: &[u8], from: usize, end: usize) -> (r: usize)
    requires
        from <= end <= s@.len(),
    ensures
        r == find_sep(s@, from as int, end as int),
{
    let mut i = from;
    while end - i >= 3
        invariant
            from <= i <= end <= s@.len(),
            find_sep(s@, from as int, end as int) == find_sep(s@, i as int, end as int),
        decreases end - i,
    {
        if s[i] == SP && s[i + 1] == EQS && s[i + 2] == SP {
            return i;
        }
        i = i + 1;
    }
    end
}

/// `s` with every leading and trailing double quote removed.
pub open spec fn trim_quotes(s: Seq<u8>) -> Seq<u8>
    decreases s.len(),
{
    if s.len() > 0 && s.first() == QUOTE {
        trim_quotes(s.drop_first())
    } else if s.len() > 0 && s.last() == QUOTE {
        trim_quotes(s.drop_last())
    } else {
        s
    }
}

/// Indices that cut a quote-trimmed region out of its enclosing text
/// denote exactly `trim_quotes` of that region.
pub proof fn lemma_trim_indices(s: Seq<u8>, lo: int, hi: int)
    requires
        0 <= lo <= hi <= s.len(),
        forall|k: int| 0 <= k < lo ==> s[k] == QUOTE,
        forall|k: int| hi <= k < s.len() ==> s[k] == QUOTE,
        lo < hi ==> s[lo] != QUOTE && s[hi - 1] != QUOTE,
    ensures
        trim_quotes(s) == s.subrange(lo, hi),
    decreases s.len(),
{
    if s.len() == 0 {
        assert(s.subrange(lo, hi) =~= s);
    } else if s.first() == QUOTE {
        let s1 = s.drop_first();
        if lo == hi {
            assert forall|k: int| 0 <= k < s1.len() implies s1[k] == QUOTE by {
                assert(s1[k] == s[k + 1]);
            }
            lemma_trim_indices(s1, 0, 0);
            assert(s.subrange(lo, hi) =~= s1.subrange(0, 0));
        } else {
            assert(lo >= 1) by {
                assert(s[lo] != QUOTE && s.first() == QUOTE);
            }
            assert forall|k: int| 0 <= k < lo - 1 implies s1[k] == QUOTE by {
                assert(s1[k] == s[k + 1]);
            }
            assert forall|k: int| hi - 1 <= k < s1.len() implies s1[k] == QUOTE by {
                assert(s1[k] == s[k + 1]);
            }
            assert(s1[lo - 1] == s[lo]);
            assert(s1[hi - 2] == s[hi - 1]);
            lemma_trim_indices(s1, lo - 1, hi - 1);
            assert(s1.subrange(lo - 1, hi - 1) =~= s.subrange(lo, hi));
        }
    } else if s.last() == QUOTE {
        assert(lo < hi) by {
            if lo == hi {
                if lo == 0 {
                    assert(s[0] == QUOTE);
                } else {
                    assert(s[0] == QUOTE);
                }
            }
        }
        assert(hi < s.len()) by {
            if hi == s.len() {
                assert(s[hi - 1] == s.last());
            }
        }
        let s1 = s.drop_last();
        assert forall|k: int| hi <= k < s1.len() implies s1[k] == QUOTE by {
            assert(s1[k] == s[k]);
        }
        lemma_trim_indices(s1, lo, hi);
        assert(s1.subrange(lo, hi) =~= s.subrange(lo, hi));
    } else {
        assert(lo < hi) by {
            if lo == hi {
                if lo == 0 {
                    assert(s[0] == QUOTE);
                } else {
                    assert(s[0] == QUOTE);
                }
            }
        }
        assert(lo == 0) by {
            if lo > 0 {
                assert(s[0] == QUOTE);
            }
        }
        assert(hi == s.len()) by {
            if hi < s.len() {
                assert(s[s.len() - 1] == QUOTE);
            }
        }
        assert(s.subrange(0, s.len() as int) =~= s);
    }
}

/// Bounds of the quote-trimmed middle of `t.subrange(lo0, hi0)`.
pub fn trim_bounds(t: &[u8], lo0: usize, hi0: usize) -> (r: (usize, usize))
    requires
        lo0 <= hi0 <= t@.len(),
    ensures
        lo0 <= r.0 <= r.1 <= hi0,
        t@.subrange(r.0 as int, r.1 as int) == trim_quotes(t@.subrange(lo0 as int, hi0 as int)),
{
    let mut lo = lo0;
    while lo < hi0 && t[lo] == QUOTE
        invariant
            lo0 <= lo <= hi0 <= t@.len(),
            forall|k: int| lo0 <= k < lo ==> t@[k] == QUOTE,
        decreases hi0 - lo,
    {
        lo = lo + 1;
    }
    let mut hi = hi0;
    while hi > lo && t[hi - 1] == QUOTE
        invariant
            lo <= hi <= hi0 <= t@.len(),
            forall|k: int| hi <= k < hi0 ==> t@[k] == QUOTE,
        decreases hi,
    {
        hi = hi - 1;
    }
    proof {
        let s = t@.subrange(lo0 as int, hi0 as int);
        let l = lo - lo0;
        let h = hi - lo0;
        assert forall|k: int| 0 <= k < l implies s[k] == QUOTE by {
            assert(s[k] == t@[lo0 + k]);
        }
        assert forall|k: int| h <= k < s.len() implies s[k] == QUOTE by {
            assert(s[k] == t@[lo0 + k]);
        }
        if l < h {
            assert(s[l] == t@[lo as int]);
            assert(s[h - 1] == t@[hi - 1]);
        }
        lemma_trim_indices(s, l, h);
        assert(s.subrange(l, h) =~= t@.subrange(lo as int, hi as int));
    }
    (lo, hi)
}

/// Whether `b` is an ASCII decimal digit.
pub open spec fn is_digit(b: u8) -> bool {
    48 <= b <= 57
}

/// Whether every byte of `s` is an ASCII decimal digit.
pub open spec fn all_digits(s: Seq<u8>) -> bool {
    forall|i: int| 0 <= i < s.len() ==> is_digit(#[trigger] s[i])
}

/// The number that the digit string `s` denotes (meaningful when
/// `all_digits(s)` holds).
pub open spec fn digits_val(s: Seq<u8>) -> nat
    decreases s.len(),
{
    if s.len() == 0 {
        0
    } else {
        (digits_val(s.drop_last()) * 10 + (s.last() - 48)) as nat
    }
}

/// The value of `s` read as Rust reads an unsigned 32-bit decimal: an
/// optional leading `+`, then at least one digit, with the value in range.
pub open spec fn u32_of_dec(s: Seq<u8>) -> Option<u32> {
    let d = if s.len() > 0 && s.first() == PLUS {
        s.drop_first()
    } else {
        s
    };
    if d.len() == 0 || !all_digits(d) || digits_val(d) > u32::MAX {
        None
    } else {
        Some(digits_val(d) as u32)
    }
}

/// Parse `t.subrange(lo, hi)` as an unsigned 32-bit decimal.
pub fn parse_u32_region(t: &[u8], lo: usize, hi: usize) -> (r: Option<u32>)
    requires
        lo <= hi <= t@.len(),
    ensures
        r == u32_of_dec(t@.subrange(lo as int, hi as int)),
{
    let ghost s = t@.subrange(lo as int, hi as int);
    let mut i = lo;
    if hi - lo >= 1 && t[lo] == PLUS {
        i = lo + 1;
        proof {
            assert(s.first() == PLUS);
            assert(s.drop_first() =~= t@.subrange(i as int, hi as int));
        }
    }
    let ghost d = t@.subrange(i as int, hi as int);
    proof {
        if !(s.len() > 0 && s.first() == PLUS) {
            assert(d =~= s);
        }
    }
    if i == hi {
        return None;
    }
    let mut acc: u64 = 0;
    let mut k = i;
    while k < hi
        invariant
            lo <= i <= k <= hi <= t@.len(),
            i < hi,
            s == t@.subrange(lo as int, hi as int),
            d == t@.subrange(i as int, hi as int),
            d == (if s.len() > 0 && s.first() == PLUS { s.drop_first() } else { s }),
            all_digits(t@.subrange(i as int, k as int)),
            acc == if digits_val(t@.subrange(i as int, k as int)) >= 0x1_0000_0000
                { 0x1_0000_0000u64 } else { digits_val(t@.subrange(i as int, k as int)) as u64 },
        decreases hi - k,
    {
        let c = t[k];
        if c < 48 || c > 57 {
            proof {
                assert(d[k - i] == t@[k as int]);
                assert(!all_digits(d));
            }
            return None;
        }
        let ghost pre = t@.subrange(i as int, k as int);
        let ghost pre1 = t@.subrange(i as int, k + 1);
        proof {
            assert(pre1.drop_last() =~= pre);
            assert(pre1.last() == t@[k as int]);
            assert forall|j: int| 0 <= j < pre1.len() implies is_digit(pre1[j]) by {
                if j < pre.len() {
                    assert(pre1[j] == pre[j]);
                }
            }
        }
        let dgt = (c - 48) as u64;
        let step = acc * 10 + dgt;
        proof {
            let dv = digits_val(pre) as int;
            let dv1 = digits_val(pre1) as int;
            assert(dv1 == dv * 10 + (c - 48));
            if dv >= 0x1_0000_0000 {
                assert(dv * 10 >= dv) by (nonlinear_arith)
                    requires dv >= 0;
            }
        }
        acc = if step >= 0x1_0000_0000 {
            0x1_0000_0000u64
        } else {
            step
        };
        k = k + 1;
    }
    proof {
        assert(t@.subrange(i as int, hi as int) == d);
    }
    if acc >= 0x1_0000_0000 {
        proof {
            assert(digits_val(d) >= 0x1_0000_0000);
        }
        None
    } else {
        Some(acc as u32)
    }
}

/// What one line `[ls, le)` of the text does to the running `(id, name)`
/// state: a `name` binding replaces the name, a well-formed `steam_id`
/// binding replaces the id, a malformed `steam_id` value stops the parse
/// with its span, and anything else changes nothing.
pub open spec fn line_step(t: Seq<u8>, ls: int, le: int, id: u32, name: Seq<u8>)
    -> Result<(u32, Seq<u8>), (int, int)>
{
    let p = find_sep(t, ls, le);
    if p + 3 <= le {
        let key = t.subrange(ls, p);
        let vs = p + 3;
        let q = find_sep(t, vs, le);
        let ve = if q + 3 <= le { q } else { le };
        let val = trim_quotes(t.subrange(vs, ve));
        if key == "name".spec_bytes() {
            Ok((id, val))
        } else if key == "steam_id".spec_bytes() {
            match u32_of_dec(val) {
                Some(n) => Ok((n, name)),
                None => Err((vs, ve - vs)),
            }
        } else {
            Ok((id, name))
        }
    } else {
        Ok((id, name))
    }
}

/// The parser is permissive: a line with no ` = ` separator, or one whose
/// key is neither `name` nor `steam_id`, never changes the running state
/// and never fails the parse — extraneous content cannot affect the
/// extracted entry.
pub proof fn lemma_other_lines_ignored(t: Seq<u8>, ls: int, le: int, id: u32, name: Seq<u8>)
    requires
        ({
            let p = find_sep(t, ls, le);
            p + 3 > le || (t.subrange(ls, p) != "name".spec_bytes()
                && t.subrange(ls, p) != "steam_id".spec_bytes())
        }),
    ensures
        line_step(t, ls, le, id, name) == Ok::<(u32, Seq<u8>), (int, int)>((id, name)),
{
}

/// Exec mirror of `line_step`; consumes and returns the running name.
fn line_step_exec(t: &[u8], ls: usize, le: usize, id: u32, name: Vec<u8>)
    -> (r: Result<(u32, Vec<u8>), (usize, usize)>)
    requires
        ls <= le <= t@.len(),
    ensures
        match (r, line_step(t@, ls as int, le as int, id, name@)) {
            (Ok((id2, nm2)), Ok(s)) => id2 == s.0 && nm2@ == s.1,
            (Err((a, b)), Err(sp)) => sp == (a as int, b as int),
            _ => false,
        },
{
    let p = find_sep_exec(t, ls, le);
    proof {
        lemma_find_sep(t@, ls as int, le as int);
    }
    if le - p >= 3 {
        let key_is_name = region_eq(t, ls, p, "name".as_bytes());
        let key_is_sid = region_eq(t, ls, p, "steam_id".as_bytes());
        let vs = p + 3;
        let q = find_sep_exec(t, vs, le);
        proof {
            lemma_find_sep(t@, vs as int, le as int);
        }
        let ve = if le - q >= 3 { q } else { le };
        let (tlo, thi) = trim_bounds(t, vs, ve);
        if key_is_name {
            let nm = copy_range(t, tlo, thi);
            Ok((id, nm))
        } else if key_is_sid {
            match parse_u32_region(t, tlo, thi) {
                Some(n) => Ok((n, name)),
                None => Err((vs, ve - vs)),
            }
        } else {
            Ok((id, name))
        }
    } else {
        Ok((id, name))
    }
}

/// The whole-text fold: lines are cut at `\n` (a preceding `\r` belongs to
/// the terminator), each is applied through `line_step`, and the state that
/// survives the last line is the result.
pub open spec fn scan_from(t: Seq<u8>, i: int, id: u32, name: Seq<u8>)
    -> Result<(u32, Seq<u8>), (int, int)>
    decreases t.len() - i when 0 <= i <= t.len()
{
    if i >= t.len() {
        Ok((id, name))
    } else {
        let j = find_idx(t, i, LF);
        let le = if j < t.len() && j > i && t[j - 1] == CR {
            j - 1
        } else {
            j
        };
        // find_idx stays within [i, t.len()]; the clamp below only serves
        // the termination measure.
        let ni = if j >= t.len() {
            t.len() as int
        } else if j < i {
            i + 1
        } else {
            j + 1
        };
        match line_step(t, i, le, id, name) {
            Ok(st) => scan_from(t, ni, st.0, st.1),
            Err(sp) => Err(sp),
        }
    }
}

/// The parse of a whole definition file: the surviving `(id, name)` state
/// if both were bound (id positive, name non-empty), a spanned rejection
/// for a malformed `steam_id` value, a span-less one otherwise.
pub open spec fn parse_spec(t: Seq<u8>) -> Result<(u32, Seq<u8>), Option<(int, int)>> {
    match scan_from(t, 0, 0u32, Seq::empty()) {
        Ok(st) => if st.0 == 0 || st.1.len() == 0 {
            Err(None)
        } else {
            Ok(st)
        },
        Err(sp) => Err(Some(sp)),
    }
}

/// Extract the `(id, name)` record from one definition file's text.
///
/// Exactly the files whose fold binds a positive `steam_id` and a
/// non-empty `name` succeed; a malformed `steam_id` value is reported with
/// the byte span of the value token, and a file missing either key is
/// reported without a span.
pub fn parse_dlc(t: &[u8]) -> (r: Result<DlcEntry, ParseIssue>)
    ensures
        match (r, parse_spec(t@)) {
            (Ok(e), Ok(st)) => e.id == st.0 && e.name@ == st.1 && e.id != 0 && e.name@.len() > 0,
            (Err(ParseIssue::MissingField), Err(sp)) => sp is None,
            (Err(ParseIssue::InvalidId(span)), Err(sp)) =>
                sp == Some((span.start as int, span.len as int)),
            _ => false,
        },
{
    let len = t.len();
    let mut i: usize = 0;
    let mut id: u32 = 0;
    let mut name: Vec<u8> = Vec::new();
    while i < len
        invariant
            0 <= i <= len,
            len == t@.len(),
            scan_from(t@, 0, 0u32, Seq::empty()) == scan_from(t@, i as int, id, name@),
        decreases len - i,
    {
        let j = find_byte(t, i, LF);
        proof {
            lemma_find_idx(t@, i as int, LF);
        }
        let le = if j < len && j > i && t[j - 1] == CR {
            j - 1
        } else {
            j
        };
        match line_step_exec(t, i, le, id, name) {
            Ok(st) => {
                id = st.0;
                name = st.1;
            },
            Err(sp) => {
                return Err(ParseIssue::InvalidId(Span { start: sp.0, len: sp.1 }));
            },
        }
        i = if j >= len {
            len
        } else {
            j + 1
        };
    }
    if id == 0 || name.len() == 0 {
        Err(ParseIssue::MissingField)
    } else {
        Ok(DlcEntry { id, name })
    }
}

} // verus!
