//! The closed set of recognized games, how a target folder is matched to
//! one, and the per-game relative paths the tool derives from it.

use vstd::prelude::*;
use vstd::string::StringSliceAdditionalSpecFns;
use crate::bytes::region_eq;
use crate::paths::{last_segment, last_segment_bounds};
use vstd::slice::slice_to_vec;

verus! {

/// Recognized game list
#[derive(Clone, Copy, Debug, PartialEq, Eq, Structural)]
pub enum Game {
    /// Europa Universalis IV
    Eu4,
    /// Hearts of Iron IV
    Hoi4,
    /// Stellaris
    Stellaris,
    /// Crusader Kings III
    Ck3,
    /// Victoria 3
    Vic3,
}

/// The game whose name is the final segment of the folder path, if any.
pub open spec fn game_of(p: Seq<u8>) -> Option<Game> {
    let seg = last_segment(p);
    if seg == "Europa Universalis IV".spec_bytes() {
        Some(Game::Eu4)
    } else if seg == "Hearts of Iron IV".spec_bytes() {
        Some(Game::Hoi4)
    } else if seg == "Stellaris".spec_bytes() {
        Some(Game::Stellaris)
    } else if seg == "Crusader Kings III".spec_bytes() {
        Some(Game::Ck3)
    } else if seg == "Victoria 3".spec_bytes() {
        Some(Game::Vic3)
    } else {
        None
    }
}

/// Check if the game is supported: the folder's final path segment must
/// spell one of the recognized game names.
pub fn check_game(path: &[u8]) -> (r: Option<Game>)
    ensures
        r == game_of(path@),
{
    let (lo, hi) = last_segment_bounds(path);
    if region_eq(path, lo, hi, "Europa Universalis IV".as_bytes()) {
        Some(Game::Eu4)
    } else if region_eq(path, lo, hi, "Hearts of Iron IV".as_bytes()) {
        Some(Game::Hoi4)
    } else if region_eq(path, lo, hi, "Stellaris".as_bytes()) {
        Some(Game::Stellaris)
    } else if region_eq(path, lo, hi, "Crusader Kings III".as_bytes()) {
        Some(Game::Ck3)
    } else if region_eq(path, lo, hi, "Victoria 3".as_bytes()) {
        Some(Game::Vic3)
    } else {
        None
    }
}

/// Relative path, from the game's root folder, of the generated DLC list.
pub open spec fn out_rel(g: Game) -> Seq<u8> {
    match g {
        Game::Eu4 => "eu4.app/Contents/Frameworks/steam_settings/DLC.txt".spec_bytes(),
        Game::Ck3 | Game::Hoi4 | Game::Stellaris => "steam_settings/DLC.txt".spec_bytes(),
        Game::Vic3 => "binaries/steam_settings/DLC.txt".spec_bytes(),
    }
}

/// The game-specific output location, relative to the game's root folder.
pub fn out_rel_bytes(g: Game) -> (r: Vec<u8>)
    ensures
        r@ == out_rel(g),
{
    match g {
        Game::Eu4 => slice_to_vec("eu4.app/Contents/Frameworks/steam_settings/DLC.txt".as_bytes()),
        Game::Ck3 | Game::Hoi4 | Game::Stellaris => slice_to_vec("steam_settings/DLC.txt".as_bytes()),
        Game::Vic3 => slice_to_vec("binaries/steam_settings/DLC.txt".as_bytes()),
    }
}

/// Relative path of the Steam API library that the patch flow replaces.
pub open spec fn lib_rel(g: Game) -> Seq<u8> {
    match g {
        Game::Eu4 => "eu4.app/Contents/Frameworks/libsteam_api.dylib".spec_bytes(),
        Game::Hoi4 | Game::Stellaris | Game::Ck3 | Game::Vic3 => "libsteam_api.dylib".spec_bytes(),
    }
}

/// The game-specific library location, relative to the game's root folder.
pub fn lib_rel_bytes(g: Game) -> (r: Vec<u8>)
    ensures
        r@ == lib_rel(g),
{
    match g {
        Game::Eu4 => slice_to_vec("eu4.app/Contents/Frameworks/libsteam_api.dylib".as_bytes()),
        Game::Hoi4 | Game::Stellaris | Game::Ck3 | Game::Vic3 => {
            slice_to_vec("libsteam_api.dylib".as_bytes())
        },
    }
}

} // verus!
