//! The aggregate output format: one `<id>=<name>` line per entry, joined by
//! newlines, with the single trailing newline the final write appends.

use vstd::prelude::*;
use crate::bytes::push_bytes;
use crate::parse::{DlcEntry, LF, EQS};

verus! {

/// The decimal digit string of `n`, most significant digit first.
pub open spec fn dec_str(n: nat) -> Seq<u8>
    decreases n,
{
    if n < 10 {
        seq![(48 + n) as u8]
    } else {
        dec_str(n / 10).push((48 + n % 10) as u8)
    }
}

/// Append the decimal form of `n` to `out`.
pub fn push_dec(out: &mut Vec<u8>, n: u32)
    ensures
        final(out)@ == old(out)@ + dec_str(n as nat),
    decreases n,
{
    if n < 10 {
        let d = 48 + n as u8;
        out.push(d);
        proof {
            assert(old(out)@.push(d) =~= old(out)@ + dec_str(n as nat));
        }
    } else {
        push_dec(out, n / 10);
        let d = 48 + (n % 10) as u8;
        out.push(d);
        proof {
            assert(old(out)@ + dec_str((n / 10) as nat) + seq![d]
                =~= old(out)@ + dec_str(n as nat));
        }
    }
}

/// One output line: the entry's id in decimal, `=`, its name.
pub open spec fn line_of(id: u32, name: Seq<u8>) -> Seq<u8> {
    dec_str(id as nat) + seq![EQS] + name
}

/// The lines of all entries joined by `\n` (no terminator).
pub open spec fn joined(entries: Seq<(u32, Seq<u8>)>) -> Seq<u8>
    decreases entries.len(),
{
    if entries.len() == 0 {
        Seq::empty()
    } else if entries.len() == 1 {
        line_of(entries[0].0, entries[0].1)
    } else {
        joined(entries.drop_last()) + seq![LF] + line_of(entries.last().0, entries.last().1)
    }
}

/// The complete output file: the joined lines and the final newline.
pub open spec fn rendered(entries: Seq<(u32, Seq<u8>)>) -> Seq<u8> {
    joined(entries) + seq![LF]
}

/// The `(id, name)` views of a sequence of entries.
pub open spec fn entry_views(es: Seq<DlcEntry>) -> Seq<(u32, Seq<u8>)> {
    Seq::new(es.len(), |i: int| (es[i].id, es[i].name@))
}

/// Serialize the entries into the bytes of the output file.
pub fn render(entries: &Vec<DlcEntry>) -> (r: Vec<u8>)
    ensures
        r@ == rendered(entry_views(entries@)),
{
    let ghost ev = entry_views(entries@);
    let n = entries.len();
    let mut out: Vec<u8> = Vec::new();
    let mut i: usize = 0;
    proof {
        assert(out@ =~= joined(ev.take(0)));
    }
    while i < n
        invariant
            0 <= i <= n,
            n == entries@.len(),
            ev == entry_views(entries@),
            out@ == joined(ev.take(i as int)),
        decreases n - i,
    {
        let ghost pre = out@;
        if i > 0 {
            out.push(LF);
        }
        push_dec(&mut out, entries[i].id);
        out.push(EQS);
        push_bytes(&mut out, entries[i].name.as_slice());
        proof {
            assert(ev.take(i + 1).drop_last() =~= ev.take(i as int));
            assert(ev.take(i + 1).last() == (entries@[i as int].id, entries@[i as int].name@));
            if i == 0 {
                assert(out@ =~= line_of(ev.take(1)[0].0, ev.take(1)[0].1));
            } else {
                assert(out@ =~= joined(ev.take(i as int)) + seq![LF]
                    + line_of(ev.take(i + 1).last().0, ev.take(i + 1).last().1));
            }
        }
        i = i + 1;
    }
    out.push(LF);
    proof {
        assert(ev.take(n as int) =~= ev);
        assert(joined(ev) + seq![LF] =~= out@);
    }
    out
}

} // verus!
