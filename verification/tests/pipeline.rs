//! Behaviour of path resolution, scanning, ordering and output generation.

use paradox_patch::error::{GenerateError, ParseIssue, PatchError, Span};
use paradox_patch::game::{check_game, Game};
use paradox_patch::patch::patch_plan;
use paradox_patch::paths::bak_path;
use paradox_patch::pipeline::{dlc_dir_candidates, generate_output, resolve_output, DlcFile};
use paradox_patch::scan::{candidate_of, plan_scan, sort_paths};

fn v(s: &[u8]) -> Vec<u8> {
    s.to_vec()
}

#[test]
fn recognizes_each_game_by_final_segment() {
    assert_eq!(check_game(b"/games/Europa Universalis IV"), Some(Game::Eu4));
    assert_eq!(check_game(b"/games/Hearts of Iron IV"), Some(Game::Hoi4));
    assert_eq!(check_game(b"/games/Stellaris"), Some(Game::Stellaris));
    assert_eq!(check_game(b"/games/Crusader Kings III"), Some(Game::Ck3));
    assert_eq!(check_game(b"/games/Victoria 3"), Some(Game::Vic3));
    assert_eq!(check_game(b"Stellaris"), Some(Game::Stellaris));
    assert_eq!(check_game(b"/games/Stellaris/"), Some(Game::Stellaris));
    assert_eq!(check_game(b"/games/Some Other Game"), None);
    assert_eq!(check_game(b""), None);
    // the name must be the whole segment, not a suffix of it
    assert_eq!(check_game(b"/games/My Stellaris"), None);
}

#[test]
fn output_resolves_for_stellaris() {
    let out = resolve_output(b"/g/Stellaris", None).unwrap();
    assert_eq!(out, v(b"/g/Stellaris/steam_settings/DLC.txt"));
}

#[test]
fn output_resolves_for_eu4_bundle() {
    let out = resolve_output(b"/g/Europa Universalis IV", None).unwrap();
    assert_eq!(
        out,
        v(b"/g/Europa Universalis IV/eu4.app/Contents/Frameworks/steam_settings/DLC.txt")
    );
}

#[test]
fn output_resolves_for_victoria_3() {
    let out = resolve_output(b"/g/Victoria 3", None).unwrap();
    assert_eq!(out, v(b"/g/Victoria 3/binaries/steam_settings/DLC.txt"));
}

#[test]
fn explicit_output_is_taken_verbatim() {
    let out = resolve_output(b"/not/a/game", Some(v(b"elsewhere/list.txt"))).unwrap();
    assert_eq!(out, v(b"elsewhere/list.txt"));
}

#[test]
fn unknown_game_without_output_fails() {
    match resolve_output(b"/not/a/game", None) {
        Err(GenerateError::InvalidOutput) => {},
        other => panic!("expected InvalidOutput, got {:?}", other),
    }
}

#[test]
fn dlc_folder_candidates_in_order() {
    let (a, b) = dlc_dir_candidates(b"/g/Stellaris");
    assert_eq!(a, v(b"/g/Stellaris/dlc"));
    assert_eq!(b, v(b"/g/Stellaris/game/dlc"));
    let (a, b) = dlc_dir_candidates(b"");
    assert_eq!(a, v(b"dlc"));
    assert_eq!(b, v(b"game/dlc"));
}

#[test]
fn candidate_uses_stem_before_first_underscore() {
    let c = candidate_of(b"/d/dlc", b"1234_ExpansionName").unwrap();
    assert_eq!(c, v(b"/d/dlc/1234_ExpansionName/1234.dlc"));
}

#[test]
fn candidate_with_several_underscores() {
    let c = candidate_of(b"/d/dlc", b"56_two_words").unwrap();
    assert_eq!(c, v(b"/d/dlc/56_two_words/56.dlc"));
}

#[test]
fn folder_without_underscore_is_invalid() {
    assert!(candidate_of(b"/d/dlc", b"plain").is_none());
}

#[test]
fn scan_counts_kept_and_tolerated_folders() {
    let names = vec![
        v(b"10_a"),    // exists
        v(b"20_b"),    // missing file
        v(b"plain"),   // no underscore
        v(b"30_c"),    // exists
    ];
    let exists = vec![true, false, false, true];
    let outcome = plan_scan(b"/d/dlc", &names, &exists);
    assert_eq!(outcome.files.len(), 2);
    assert_eq!(outcome.files[0], v(b"/d/dlc/10_a/10.dlc"));
    assert_eq!(outcome.files[1], v(b"/d/dlc/30_c/30.dlc"));
    assert_eq!(outcome.missing, 1);
    assert_eq!(outcome.invalid, 1);
}

#[test]
fn paths_sort_bytewise() {
    let sorted = sort_paths(vec![v(b"b/2.dlc"), v(b"a/10.dlc"), v(b"a/1.dlc")]);
    assert_eq!(sorted, vec![v(b"a/1.dlc"), v(b"a/10.dlc"), v(b"b/2.dlc")]);
}

#[test]
fn sorting_is_independent_of_enumeration_order() {
    let one = sort_paths(vec![v(b"x"), v(b"a"), v(b"m"), v(b"a")]);
    let two = sort_paths(vec![v(b"a"), v(b"m"), v(b"a"), v(b"x")]);
    assert_eq!(one, two);
}

#[test]
fn single_entry_output_line() {
    let files = vec![DlcFile {
        path: v(b"/d/dlc/1234_ExpansionName/1234.dlc"),
        text: v(b"name = \"Grand Expansion\"\nsteam_id = \"1234\"\n"),
    }];
    let out = generate_output(&files).unwrap();
    assert_eq!(out, v(b"1234=Grand Expansion\n"));
}

#[test]
fn entries_join_in_file_order() {
    let files = vec![
        DlcFile { path: v(b"a"), text: v(b"name = \"A\"\nsteam_id = \"2\"\n") },
        DlcFile { path: v(b"b"), text: v(b"name = \"B\"\nsteam_id = \"1\"\n") },
    ];
    let out = generate_output(&files).unwrap();
    assert_eq!(out, v(b"2=A\n1=B\n"));
}

#[test]
fn largest_id_renders_in_full() {
    let files = vec![DlcFile {
        path: v(b"x"),
        text: v(b"name = \"X\"\nsteam_id = \"4294967295\"\n"),
    }];
    let out = generate_output(&files).unwrap();
    assert_eq!(out, v(b"4294967295=X\n"));
}

#[test]
fn name_bytes_pass_through_unchanged() {
    let files = vec![DlcFile {
        path: v(b"x"),
        text: v("name = \"K\u{f6}nigreich\"\nsteam_id = \"7\"\n".as_bytes()),
    }];
    let out = generate_output(&files).unwrap();
    assert_eq!(out, v("7=K\u{f6}nigreich\n".as_bytes()));
}

#[test]
fn no_entries_still_ends_with_newline() {
    let out = generate_output(&Vec::new()).unwrap();
    assert_eq!(out, v(b"\n"));
}

#[test]
fn first_bad_file_aborts_with_its_diagnostic() {
    let files = vec![
        DlcFile { path: v(b"a"), text: v(b"name = \"A\"\nsteam_id = \"2\"\n") },
        DlcFile { path: v(b"bad"), text: v(b"steam_id = oops\nname = \"B\"\n") },
        DlcFile { path: v(b"c"), text: v(b"name = \"C\"\nsteam_id = \"3\"\n") },
    ];
    match generate_output(&files) {
        Err(GenerateError::ParseDlcFailed(d)) => {
            assert_eq!(d.path, v(b"bad"));
            assert_eq!(d.text, v(b"steam_id = oops\nname = \"B\"\n"));
            assert_eq!(d.issue, ParseIssue::InvalidId(Span { start: 11, len: 4 }));
        },
        other => panic!("expected a parse diagnostic, got {:?}", other),
    }
}

#[test]
fn missing_key_file_reports_without_span() {
    let files = vec![DlcFile { path: v(b"only"), text: v(b"name = \"A\"\n") }];
    match generate_output(&files) {
        Err(GenerateError::ParseDlcFailed(d)) => {
            assert_eq!(d.issue, ParseIssue::MissingField);
        },
        other => panic!("expected a parse diagnostic, got {:?}", other),
    }
}

#[test]
fn repeated_runs_are_byte_identical() {
    let names = vec![v(b"2_b"), v(b"1_a")];
    let exists = vec![true, true];
    let texts = [
        (v(b"/d/1_a/1.dlc"), v(b"name = \"A\"\nsteam_id = \"1\"\n")),
        (v(b"/d/2_b/2.dlc"), v(b"name = \"B\"\nsteam_id = \"2\"\n")),
    ];
    let run = |names: &Vec<Vec<u8>>, exists: &Vec<bool>| -> Vec<u8> {
        let outcome = plan_scan(b"/d", names, exists);
        let sorted = sort_paths(outcome.files);
        let files: Vec<DlcFile> = sorted
            .into_iter()
            .map(|p| {
                let text = texts.iter().find(|(q, _)| *q == p).unwrap().1.clone();
                DlcFile { path: p, text }
            })
            .collect();
        generate_output(&files).unwrap()
    };
    let first = run(&names, &exists);
    let second = run(&names, &exists);
    assert_eq!(first, second);
    // a different enumeration order of the same folders gives the same bytes
    let swapped_names = vec![v(b"1_a"), v(b"2_b")];
    let third = run(&swapped_names, &exists);
    assert_eq!(first, third);
    assert_eq!(first, v(b"1=A\n2=B\n"));
}

#[test]
fn backup_path_replaces_extension() {
    assert_eq!(bak_path(b"/g/libsteam_api.dylib"), v(b"/g/libsteam_api.bak"));
    assert_eq!(bak_path(b"noext"), v(b"noext.bak"));
    assert_eq!(bak_path(b"/dotted.dir/noext"), v(b"/dotted.dir/noext.bak"));
}

#[test]
fn patch_plan_for_recognized_game() {
    let plan = patch_plan(b"/g/Stellaris", false).unwrap();
    assert_eq!(plan.lib_file, v(b"/g/Stellaris/libsteam_api.dylib"));
    assert_eq!(plan.backup_file, v(b"/g/Stellaris/libsteam_api.bak"));
    assert_eq!(
        plan.url,
        v(b"https://github.com/inflation/goldberg_emulator/releases/download/latest/libsteam_api.dylib")
    );
}

#[test]
fn patch_plan_for_eu4_uses_bundle_path() {
    let plan = patch_plan(b"/g/Europa Universalis IV", false).unwrap();
    assert_eq!(
        plan.lib_file,
        v(b"/g/Europa Universalis IV/eu4.app/Contents/Frameworks/libsteam_api.dylib")
    );
    assert_eq!(
        plan.backup_file,
        v(b"/g/Europa Universalis IV/eu4.app/Contents/Frameworks/libsteam_api.bak")
    );
}

#[test]
fn patch_plan_proxy_prefixes_url() {
    let plan = patch_plan(b"/g/Stellaris", true).unwrap();
    assert_eq!(
        plan.url,
        v(b"https://ghproxy.com/https://github.com/inflation/goldberg_emulator/releases/download/latest/libsteam_api.dylib")
    );
}

#[test]
fn patch_plan_rejects_unknown_game() {
    match patch_plan(b"/g/Tetris", false) {
        Err(PatchError::GameNotRecognized) => {},
        other => panic!("expected GameNotRecognized, got {:?}", other),
    }
}

#[test]
fn generate_error_messages_name_the_failure() {
    assert_eq!(GenerateError::InvalidOutput.message(), "Invalid output DLC.txt file");
    assert_eq!(
        GenerateError::DlcFolderNotExists(v(b"/x/dlc")).message(),
        "Failed to find absolute path of the DLC folder"
    );
    assert_eq!(PatchError::GameNotRecognized.message(), "Invalid game");
}
