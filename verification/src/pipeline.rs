//! The pipeline core: resolving the metadata folder and output path,
//! parsing every definition file in order with a fail-fast on the first
//! malformed one, and producing the complete output bytes in one piece, so
//! no partial output can ever be written.

use vstd::prelude::*;
use vstd::relations::sorted_by;
use vstd::string::StringSliceAdditionalSpecFns;
use vstd::slice::slice_to_vec;
use crate::bytes::{join_seq, join_path};
use crate::error::{GenerateError, ParseDiagnostic, ParseIssue};
use crate::game::{game_of, out_rel, check_game, out_rel_bytes};
use crate::order::lex_leq_rel;
use crate::parse::{parse_spec, parse_dlc, DlcEntry};
use crate::render::{rendered, entry_views, render};
use crate::scan::lemma_sort_deterministic;

verus! {

/// One definition file handed to the aggregator: where it came from and
/// what it held.
pub struct DlcFile {
    /// The file's path, kept for diagnostics.
    pub path: Vec<u8>,
    /// The file's full text.
    pub text: Vec<u8>,
}

/// The `(path, text)` views of a sequence of files.
pub open spec fn file_views(fs: Seq<DlcFile>) -> Seq<(Seq<u8>, Seq<u8>)> {
    Seq::new(fs.len(), |i: int| (fs[i].path@, fs[i].text@))
}

/// The parsed entries of the files in order, or the index of the first
/// file that fails together with its parse span.
pub open spec fn entries_spec(fs: Seq<(Seq<u8>, Seq<u8>)>)
    -> Result<Seq<(u32, Seq<u8>)>, (int, Option<(int, int)>)>
    decreases fs.len(),
{
    if fs.len() == 0 {
        Ok(Seq::empty())
    } else {
        match entries_spec(fs.drop_last()) {
            Ok(es) => match parse_spec(fs.last().1) {
                Ok(st) => Ok(es.push(st)),
                Err(sp) => Err((fs.len() - 1, sp)),
            },
            Err(e) => Err(e),
        }
    }
}

/// A run that parses every file keeps exactly one entry per file: a scan
/// over N existing candidates puts N entries in the output.
pub proof fn lemma_entries_len(fs: Seq<(Seq<u8>, Seq<u8>)>)
    requires
        entries_spec(fs) is Ok,
    ensures
        entries_spec(fs)->Ok_0.len() == fs.len(),
    decreases fs.len(),
{
    if fs.len() > 0 {
        lemma_entries_len(fs.drop_last());
    }
}

/// The bytes the whole run writes for the given files, or its first
/// parse failure.
pub open spec fn output_spec(fs: Seq<(Seq<u8>, Seq<u8>)>)
    -> Result<Seq<u8>, (int, Option<(int, int)>)> {
    match entries_spec(fs) {
        Ok(es) => Ok(rendered(es)),
        Err(e) => Err(e),
    }
}

/// Parse every definition file, in the order given, and build the complete
/// output bytes; the first malformed file aborts the run with a diagnostic
/// carrying that file's path, text and (for a bad `steam_id` value) the
/// exact byte span.  No bytes are returned unless every file parsed.
pub fn generate_output(files: &Vec<DlcFile>) -> (r: Result<Vec<u8>, GenerateError>)
    ensures
        match (r, output_spec(file_views(files@))) {
            (Ok(out), Ok(s)) => out@ == s,
            (Err(GenerateError::ParseDlcFailed(d)), Err((idx, sp))) => {
                &&& 0 <= idx < files@.len()
                &&& d.path@ == files@[idx].path@
                &&& d.text@ == files@[idx].text@
                &&& match (d.issue, sp) {
                    (ParseIssue::MissingField, None) => true,
                    (ParseIssue::InvalidId(span), Some(s2)) =>
                        s2 == (span.start as int, span.len as int),
                    _ => false,
                }
            },
            _ => false,
        },
{
    let ghost fv = file_views(files@);
    let n = files.len();
    let mut entries: Vec<DlcEntry> = Vec::new();
    let mut i: usize = 0;
    proof {
        assert(fv.take(0) =~= Seq::<(Seq<u8>, Seq<u8>)>::empty());
        assert(entry_views(entries@) =~= Seq::<(u32, Seq<u8>)>::empty());
    }
    while i < n
        invariant
            0 <= i <= n,
            n == files@.len(),
            fv == file_views(files@),
            entries_spec(fv.take(i as int)) == Ok::<_, (int, Option<(int, int)>)>(
                entry_views(entries@)),
        decreases n - i,
    {
        proof {
            assert(fv.take(i + 1).drop_last() =~= fv.take(i as int));
            assert(fv.take(i + 1).last() == (files@[i as int].path@, files@[i as int].text@));
        }
        match parse_dlc(files[i].text.as_slice()) {
            Ok(e) => {
                let ghost pre = entry_views(entries@);
                entries.push(e);
                proof {
                    assert(entry_views(entries@) =~= pre.push((e.id, e.name@)));
                }
            },
            Err(issue) => {
                let path = slice_to_vec(files[i].path.as_slice());
                let text = slice_to_vec(files[i].text.as_slice());
                proof {
                    assert(fv.take(n as int) =~= fv);
                    lemma_entries_err(fv, i as int);
                }
                return Err(GenerateError::ParseDlcFailed(ParseDiagnostic {
                    path,
                    text,
                    issue,
                }));
            },
        }
        i = i + 1;
    }
    proof {
        assert(fv.take(n as int) =~= fv);
    }
    let out = render(&entries);
    Ok(out)
}

/// A prefix that parses cleanly followed by a failing file pins the
/// whole fold's failure to that file.
proof fn lemma_entries_err(fs: Seq<(Seq<u8>, Seq<u8>)>, i: int)
    requires
        0 <= i < fs.len(),
        entries_spec(fs.take(i)) is Ok,
        parse_spec(fs[i].1) is Err,
    ensures
        forall|j: int| i < j <= fs.len() ==> #[trigger] entries_spec(fs.take(j))
            == Err::<Seq<(u32, Seq<u8>)>, _>((i, parse_spec(fs[i].1)->Err_0)),
    decreases fs.len(),
{
    assert(fs.take(i + 1).drop_last() =~= fs.take(i));
    assert(fs.take(i + 1).last() == fs[i]);
    assert(entries_spec(fs.take(i + 1)) == Err::<Seq<(u32, Seq<u8>)>, _>((
        i, parse_spec(fs[i].1)->Err_0)));
    assert forall|j: int| i < j <= fs.len() implies #[trigger] entries_spec(fs.take(j))
        == Err::<Seq<(u32, Seq<u8>)>, _>((i, parse_spec(fs[i].1)->Err_0)) by {
        lemma_entries_err_step(fs, i, j);
    }
}

/// Helper induction for `lemma_entries_err`.
proof fn lemma_entries_err_step(fs: Seq<(Seq<u8>, Seq<u8>)>, i: int, j: int)
    requires
        0 <= i < j <= fs.len(),
        entries_spec(fs.take(i)) is Ok,
        parse_spec(fs[i].1) is Err,
    ensures
        entries_spec(fs.take(j)) == Err::<Seq<(u32, Seq<u8>)>, _>((
            i, parse_spec(fs[i].1)->Err_0)),
    decreases j,
{
    if j == i + 1 {
        assert(fs.take(j).drop_last() =~= fs.take(i));
        assert(fs.take(j).last() == fs[i]);
    } else {
        lemma_entries_err_step(fs, i, j - 1);
        assert(fs.take(j).drop_last() =~= fs.take(j - 1));
    }
}

/// Where the output file belongs: an explicit choice is taken verbatim;
/// otherwise the recognized game decides; otherwise there is no answer.
pub open spec fn output_path_spec(target: Seq<u8>, explicit: Option<Seq<u8>>)
    -> Option<Seq<u8>> {
    match explicit {
        Some(p) => Some(p),
        None => match game_of(target) {
            Some(g) => Some(join_seq(target, out_rel(g))),
            None => None,
        },
    }
}

/// Resolve the output file path from the target folder and an optional
/// explicit output, failing with `InvalidOutput` exactly when neither an
/// explicit path nor a recognized game provides one.
pub fn resolve_output(target: &[u8], explicit: Option<Vec<u8>>)
    -> (r: Result<Vec<u8>, GenerateError>)
    ensures
        match (r, explicit) {
            (Ok(p), Some(e)) => p@ == e@,
            (Ok(p), None) => game_of(target@) is Some
                && p@ == join_seq(target@, out_rel(game_of(target@)->Some_0)),
            (Err(err), None) => game_of(target@) is None && err is InvalidOutput,
            (Err(_), Some(_)) => false,
        },
{
    match explicit {
        Some(p) => Ok(p),
        None => match check_game(target) {
            Some(g) => {
                let rel = out_rel_bytes(g);
                Ok(join_path(target, rel.as_slice()))
            },
            None => Err(GenerateError::InvalidOutput),
        },
    }
}

/// The two places the DLC metadata may live under the target folder, in
/// the order they are tried: `<target>/dlc`, then `<target>/game/dlc`.
pub fn dlc_dir_candidates(target: &[u8]) -> (r: (Vec<u8>, Vec<u8>))
    ensures
        r.0@ == join_seq(target@, "dlc".spec_bytes()),
        r.1@ == join_seq(target@, "game/dlc".spec_bytes()),
{
    let first = join_path(target, "dlc".as_bytes());
    let second = join_path(target, "game/dlc".as_bytes());
    (first, second)
}

/// Determinism of the whole run: two scans of the same unchanged directory
/// tree — the same candidate files kept, in whatever enumeration order,
/// with the same text read for every path — sort to the same file list and
/// generate byte-identical output.
pub proof fn lemma_run_deterministic(
    kept1: Seq<Seq<u8>>,
    kept2: Seq<Seq<u8>>,
    sorted1: Seq<Seq<u8>>,
    sorted2: Seq<Seq<u8>>,
    texts: spec_fn(Seq<u8>) -> Seq<u8>,
)
    requires
        kept1.to_multiset() == kept2.to_multiset(),
        sorted_by(sorted1, lex_leq_rel()),
        sorted1.to_multiset() == kept1.to_multiset(),
        sorted_by(sorted2, lex_leq_rel()),
        sorted2.to_multiset() == kept2.to_multiset(),
    ensures
        sorted1 == sorted2,
        output_spec(sorted1.map_values(|p: Seq<u8>| (p, texts(p))))
            == output_spec(sorted2.map_values(|p: Seq<u8>| (p, texts(p)))),
{
    lemma_sort_deterministic(sorted1, sorted2);
}

} // verus!
