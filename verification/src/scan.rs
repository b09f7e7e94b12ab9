//! The metadata scanner: which definition file each subdirectory of the DLC
//! folder should hold, which subdirectories are tolerated-and-skipped, and
//! the deterministic ordering of the surviving candidates.

use vstd::prelude::*;
use vstd::multiset::Multiset;
use vstd::relations::sorted_by;
use vstd::seq_lib::lemma_sorted_unique;
use vstd::string::StringSliceAdditionalSpecFns;
use crate::bytes::{find_idx, find_byte, lemma_find_idx, join_seq, join_path, push_joined,
    push_bytes, copy_range};
use crate::order::{lex_leq, lex_leq_rel, lex_leq_exec, lemma_lex_connected, lemma_lex_trans,
    lemma_lex_total_ordering};

verus! {

/// `_`, the separator between a subdirectory's numeric stem and its label.
pub const UNDERSCORE: u8 = 95;

/// The definition file a subdirectory called `name` should hold: take the
/// stem before the first `_` and look for `<dir>/<name>/<stem>.dlc`.
/// A name with no `_` yields nothing: such a folder is skipped.
pub open spec fn candidate_spec(dir: Seq<u8>, name: Seq<u8>) -> Option<Seq<u8>> {
    let u = find_idx(name, 0, UNDERSCORE);
    if u < name.len() {
        Some(join_seq(join_seq(dir, name), name.subrange(0, u) + ".dlc".spec_bytes()))
    } else {
        None
    }
}

/// Candidate definition file path for one subdirectory of the DLC folder.
pub fn candidate_of(dir: &[u8], name: &[u8]) -> (r: Option<Vec<u8>>)
    ensures
        match r {
            Some(v) => candidate_spec(dir@, name@) == Some(v@),
            None => candidate_spec(dir@, name@) is None,
        },
{
    let u = find_byte(name, 0, UNDERSCORE);
    proof {
        lemma_find_idx(name@, 0, UNDERSCORE);
    }
    if u < name.len() {
        let mut sub = join_path(dir, name);
        let mut file = copy_range(name, 0, u);
        push_bytes(&mut file, ".dlc".as_bytes());
        push_joined(&mut sub, file.as_slice());
        Some(sub)
    } else {
        None
    }
}

/// The views of a sequence of byte vectors.
pub open spec fn views_of(s: Seq<Vec<u8>>) -> Seq<Seq<u8>> {
    Seq::new(s.len(), |i: int| s[i]@)
}

/// The candidate files kept by a scan over `names` (in enumeration order):
/// those whose subdirectory has a stem and whose file exists.
pub open spec fn scan_files(dir: Seq<u8>, names: Seq<Seq<u8>>, exists: Seq<bool>) -> Seq<Seq<u8>>
    decreases names.len() when names.len() == exists.len()
{
    if names.len() == 0 {
        Seq::empty()
    } else {
        let rest = scan_files(dir, names.drop_last(), exists.drop_last());
        match candidate_spec(dir, names.last()) {
            Some(p) => if exists.last() {
                rest.push(p)
            } else {
                rest
            },
            None => rest,
        }
    }
}

/// How many subdirectories named a candidate file that does not exist.
pub open spec fn scan_missing(dir: Seq<u8>, names: Seq<Seq<u8>>, exists: Seq<bool>) -> int
    decreases names.len() when names.len() == exists.len()
{
    if names.len() == 0 {
        0
    } else {
        let rest = scan_missing(dir, names.drop_last(), exists.drop_last());
        match candidate_spec(dir, names.last()) {
            Some(p) => if exists.last() {
                rest
            } else {
                rest + 1
            },
            None => rest,
        }
    }
}

/// How many subdirectory names had no `_` separator at all.
pub open spec fn scan_invalid(dir: Seq<u8>, names: Seq<Seq<u8>>) -> int
    decreases names.len(),
{
    if names.len() == 0 {
        0
    } else {
        let rest = scan_invalid(dir, names.drop_last());
        match candidate_spec(dir, names.last()) {
            Some(p) => rest,
            None => rest + 1,
        }
    }
}

/// Every subdirectory is either kept or counted under exactly one warning.
pub proof fn lemma_scan_counts(dir: Seq<u8>, names: Seq<Seq<u8>>, exists: Seq<bool>)
    requires
        names.len() == exists.len(),
    ensures
        0 <= scan_missing(dir, names, exists),
        0 <= scan_invalid(dir, names),
        scan_files(dir, names, exists).len() + scan_missing(dir, names, exists)
            + scan_invalid(dir, names) == names.len(),
    decreases names.len(),
{
    if names.len() > 0 {
        lemma_scan_counts(dir, names.drop_last(), exists.drop_last());
    }
}

/// What one scan of the DLC folder keeps and what it tolerates.
pub struct ScanOutcome {
    /// The surviving candidate files, in the order their folders were given.
    pub files: Vec<Vec<u8>>,
    /// Subdirectories whose candidate file was absent (warned, skipped).
    pub missing: usize,
    /// Subdirectories whose name had no `_` (warned, skipped).
    pub invalid: usize,
}

/// Walk the given subdirectory `names` of `dir` (with `exists[i]` telling
/// whether the candidate file of `names[i]` is present on disk) and keep
/// exactly the candidates that exist, counting each tolerated skip.
pub fn plan_scan(dir: &[u8], names: &Vec<Vec<u8>>, exists: &Vec<bool>) -> (r: ScanOutcome)
    requires
        names@.len() == exists@.len(),
    ensures
        views_of(r.files@) == scan_files(dir@, views_of(names@), exists@),
        r.missing == scan_missing(dir@, views_of(names@), exists@),
        r.invalid == scan_invalid(dir@, views_of(names@)),
{
    let ghost nv = views_of(names@);
    let n = names.len();
    let mut files: Vec<Vec<u8>> = Vec::new();
    let mut missing: usize = 0;
    let mut invalid: usize = 0;
    let mut i: usize = 0;
    while i < n
        invariant
            0 <= i <= n,
            n == names@.len(),
            names@.len() == exists@.len(),
            nv == views_of(names@),
            views_of(files@) == scan_files(dir@, nv.take(i as int), exists@.take(i as int)),
            missing == scan_missing(dir@, nv.take(i as int), exists@.take(i as int)),
            invalid == scan_invalid(dir@, nv.take(i as int)),
        decreases n - i,
    {
        proof {
            assert(nv.take(i + 1).drop_last() =~= nv.take(i as int));
            assert(exists@.take(i + 1).drop_last() =~= exists@.take(i as int));
            assert(nv.take(i + 1).last() == names@[i as int]@);
            lemma_scan_counts(dir@, nv.take(i as int), exists@.take(i as int));
        }
        match candidate_of(dir, names[i].as_slice()) {
            Some(p) => {
                if exists[i] {
                    let ghost pre = views_of(files@);
                    files.push(p);
                    proof {
                        assert(views_of(files@) =~= pre.push(p@));
                    }
                } else {
                    missing = missing + 1;
                }
            },
            None => {
                invalid = invalid + 1;
            },
        }
        i = i + 1;
    }
    proof {
        assert(nv.take(n as int) =~= nv);
        assert(exists@.take(n as int) =~= exists@);
    }
    ScanOutcome { files, missing, invalid }
}

/// Insert `x` into a sorted vector, keeping it sorted.
fn insert_sorted(out: &mut Vec<Vec<u8>>, x: Vec<u8>)
    requires
        sorted_by(views_of(old(out)@), lex_leq_rel()),
    ensures
        sorted_by(views_of(final(out)@), lex_leq_rel()),
        views_of(final(out)@).to_multiset() == views_of(old(out)@).to_multiset().insert(x@),
{
    broadcast use vstd::seq_lib::group_to_multiset_ensures;

    let ghost dv = views_of(out@);
    let n = out.len();
    let mut j: usize = 0;
    while j < n && !lex_leq_exec(x.as_slice(), out[j].as_slice())
        invariant
            0 <= j <= n,
            n == out@.len(),
            dv == views_of(out@),
            forall|k: int| 0 <= k < j ==> !lex_leq(x@, dv[k]),
        decreases n - j,
    {
        j = j + 1;
    }
    let ghost xj = j as int;
    // where the scan stopped: either past the end, or at the first entry
    // that x may stand before
    proof {
        assert(xj == dv.len() || lex_leq(x@, dv[xj]));
    }
    out.insert(j, x);
    proof {
        broadcast use vstd::seq_lib::group_to_multiset_ensures;
        broadcast use vstd::multiset::group_multiset_axioms;

        let dv2 = views_of(out@);
        assert(dv2 =~= dv.insert(xj, x@));
        // multiset: removing the inserted element gives back the old sequence
        assert(dv2[xj] == x@);
        assert(dv2.remove(xj) =~= dv);
        assert(dv2.remove(xj).to_multiset() =~= dv2.to_multiset().remove(x@));
        assert(dv2.contains(x@));
        assert(dv2.to_multiset().count(x@) > 0);
        assert(dv.to_multiset() =~= dv2.to_multiset().remove(x@));
        assert(dv2.to_multiset() =~= dv.to_multiset().insert(x@)) by {
            assert forall|y: Seq<u8>| dv2.to_multiset().count(y)
                == dv.to_multiset().insert(x@).count(y) by {
                assert(dv.to_multiset().count(y) == dv2.to_multiset().remove(x@).count(y));
            }
        }
        // sortedness: everything left of the slot is at or below x,
        // everything at or right of it is at or above x
        assert forall|a: int, b: int| 0 <= a < b < dv2.len()
            implies lex_leq_rel()(dv2[a], dv2[b]) by {
            if b < xj {
                assert(dv2[a] == dv[a] && dv2[b] == dv[b]);
                assert(lex_leq_rel()(dv[a], dv[b]));
            } else if a > xj {
                assert(dv2[a] == dv[a - 1] && dv2[b] == dv[b - 1]);
                assert(lex_leq_rel()(dv[a - 1], dv[b - 1]));
            } else if a < xj && b == xj {
                assert(dv2[a] == dv[a]);
                assert(!lex_leq(x@, dv[a]));
                lemma_lex_connected(x@, dv[a]);
                assert(lex_leq(dv[a], x@));
            } else if a == xj && b > xj {
                assert(dv2[b] == dv[b - 1]);
                assert(xj <= b - 1 < dv.len());
                assert(lex_leq(x@, dv[xj]));
                if b - 1 > xj {
                    assert(lex_leq_rel()(dv[xj], dv[b - 1]));
                    lemma_lex_trans(x@, dv[xj], dv[b - 1]);
                }
            } else {
                assert(a < xj && b > xj);
                assert(dv2[a] == dv[a] && dv2[b] == dv[b - 1]);
                assert(a < b - 1 < dv.len());
                assert(lex_leq_rel()(dv[a], dv[b - 1]));
            }
        }
    }
}

/// Sort candidate paths lexicographically by their full byte string, the
/// order the aggregate output is generated in.
pub fn sort_paths(input: Vec<Vec<u8>>) -> (r: Vec<Vec<u8>>)
    ensures
        sorted_by(views_of(r@), lex_leq_rel()),
        views_of(r@).to_multiset() == views_of(input@).to_multiset(),
{
    broadcast use vstd::seq_lib::group_to_multiset_ensures;

    let mut v = input;
    let mut out: Vec<Vec<u8>> = Vec::new();
    proof {
        assert(views_of(out@) =~= Seq::<Seq<u8>>::empty());
        assert(views_of(out@).to_multiset().add(views_of(v@).to_multiset())
            =~= views_of(input@).to_multiset());
    }
    while v.len() > 0
        invariant
            sorted_by(views_of(out@), lex_leq_rel()),
            views_of(out@).to_multiset().add(views_of(v@).to_multiset())
                == views_of(input@).to_multiset(),
        decreases v@.len(),
    {
        let ghost vv = views_of(v@);
        let last = v.len() - 1;
        let x = v.remove(last);
        proof {
            broadcast use vstd::seq_lib::group_to_multiset_ensures;
            broadcast use vstd::multiset::group_multiset_axioms;

            assert(vv[last as int] == x@);
            assert(views_of(v@) =~= vv.remove(last as int));
            assert(vv.contains(x@));
            assert(vv.to_multiset().count(x@) > 0);
            assert(vv.remove(last as int).to_multiset() =~= vv.to_multiset().remove(x@));
        }
        let ghost om = views_of(out@).to_multiset();
        insert_sorted(&mut out, x);
        proof {
            broadcast use vstd::multiset::group_multiset_axioms;

            assert(views_of(out@).to_multiset() =~= om.insert(x@));
            assert(om.insert(x@).add(vv.to_multiset().remove(x@)) =~= om.add(vv.to_multiset()))
                by {
                assert forall|y: Seq<u8>| om.insert(x@).add(vv.to_multiset().remove(x@)).count(y)
                    == om.add(vv.to_multiset()).count(y) by {
                    assert(vv.to_multiset().count(x@) > 0);
                }
            }
        }
    }
    proof {
        assert(views_of(v@) =~= Seq::<Seq<u8>>::empty());
        assert(views_of(v@).to_multiset() =~= Multiset::<Seq<u8>>::empty());
        assert(views_of(out@).to_multiset().add(Multiset::<Seq<u8>>::empty())
            =~= views_of(out@).to_multiset());
    }
    out
}

/// Sorting pins the outcome: two scans that found the same candidate
/// files, in whatever enumeration order the directory walk produced them,
/// sort to the very same sequence of paths.
pub proof fn lemma_sort_deterministic(s1: Seq<Seq<u8>>, s2: Seq<Seq<u8>>)
    requires
        sorted_by(s1, lex_leq_rel()),
        sorted_by(s2, lex_leq_rel()),
        s1.to_multiset() == s2.to_multiset(),
    ensures
        s1 == s2,
{
    lemma_lex_total_ordering();
    lemma_sorted_unique(s1, s2, lex_leq_rel());
}

} // verus!
