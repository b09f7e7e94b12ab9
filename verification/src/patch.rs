//! Planning the library patch: which file the recognized game replaces,
//! where its backup belongs, and which URL serves the replacement.  The
//! download and the file moves themselves are the caller's to perform.

use vstd::prelude::*;
use vstd::string::StringSliceAdditionalSpecFns;
use vstd::slice::slice_to_vec;
use crate::bytes::{join_seq, join_path, push_bytes};
use crate::error::PatchError;
use crate::game::{game_of, lib_rel, check_game, lib_rel_bytes};
use crate::paths::{bak_of, bak_path};

verus! {

/// The URL the replacement library is fetched from; the proxy variant
/// prefixes the mirror used from China Mainland.
pub open spec fn patch_url_spec(proxy: bool) -> Seq<u8> {
    if proxy {
        "https://ghproxy.com/".spec_bytes()
            + "https://github.com/inflation/goldberg_emulator/releases/download/latest/libsteam_api.dylib".spec_bytes()
    } else {
        "https://github.com/inflation/goldberg_emulator/releases/download/latest/libsteam_api.dylib".spec_bytes()
    }
}

/// The download URL, with or without the proxy prefix.
pub fn patch_url(proxy: bool) -> (r: Vec<u8>)
    ensures
        r@ == patch_url_spec(proxy),
{
    if proxy {
        let mut out = slice_to_vec("https://ghproxy.com/".as_bytes());
        push_bytes(
            &mut out,
            "https://github.com/inflation/goldberg_emulator/releases/download/latest/libsteam_api.dylib".as_bytes(),
        );
        out
    } else {
        slice_to_vec(
            "https://github.com/inflation/goldberg_emulator/releases/download/latest/libsteam_api.dylib".as_bytes(),
        )
    }
}

/// Everything the patch flow needs to decide before it touches the disk
/// or the network.
#[derive(Debug)]
pub struct PatchPlan {
    /// Where the replacement bytes are fetched from.
    pub url: Vec<u8>,
    /// The library file to replace.
    pub lib_file: Vec<u8>,
    /// The `.bak` sibling the original is moved to, unless one exists.
    pub backup_file: Vec<u8>,
}

/// Plan the patch for a target folder: recognize the game, locate its
/// Steam API library and the backup path, and pick the download URL.
/// Fails exactly when the folder matches no recognized game.
pub fn patch_plan(target: &[u8], proxy: bool) -> (r: Result<PatchPlan, PatchError>)
    ensures
        match r {
            Ok(p) => {
                &&& game_of(target@) is Some
                &&& p.url@ == patch_url_spec(proxy)
                &&& p.lib_file@ == join_seq(target@, lib_rel(game_of(target@)->Some_0))
                &&& p.backup_file@ == bak_of(join_seq(target@, lib_rel(game_of(target@)->Some_0)))
            },
            Err(e) => game_of(target@) is None && e == PatchError::GameNotRecognized,
        },
{
    match check_game(target) {
        Some(g) => {
            let rel = lib_rel_bytes(g);
            let lib_file = join_path(target, rel.as_slice());
            let backup_file = bak_path(lib_file.as_slice());
            Ok(PatchPlan { url: patch_url(proxy), lib_file, backup_file })
        },
        None => Err(PatchError::GameNotRecognized),
    }
}

} // verus!
