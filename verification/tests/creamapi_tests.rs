use std::collections::HashMap;

use autocreamapi::creamapi::{
    apply, config_text, find_steam_api_dir, get_dirs_to_check, get_dll_status, remove,
    ApplyAction, ApplyEvent, ApplyRun, ApplyStage, Arch, DlcEntry, RemoveAction, RemoveEvent,
    RemoveRun,
};
use autocreamapi::steam::DllProbe;

fn dlc(app_id: u32, name: &str) -> DlcEntry {
    DlcEntry { app_id, name: name.to_string() }
}

fn probe(x86: bool, x64: bool, applied: bool) -> DllProbe {
    DllProbe { has_x86: x86, has_x64: x64, applied }
}

#[test]
fn config_text_lists_the_dlcs() {
    let text = config_text(570, &[dlc(1001, "Soundtrack"), dlc(1002, "Art Book")], false, true);
    assert_eq!(
        text,
        "[steam]\nappid = 570\nunlockall = false\norgapi = steam_api_o.dll\norgapi64 = steam_api64_o.dll\nextraprotection = true\n\n[steam_misc]\nforceoffline = false\n\n[dlc]\n1001 = Soundtrack\n1002 = Art Book\n"
    );
}

#[test]
fn config_text_without_dlcs_unlocks_all() {
    let text = config_text(0, &[], true, false);
    assert_eq!(
        text,
        "[steam]\nappid = 0\nunlockall = true\norgapi = steam_api_o.dll\norgapi64 = steam_api64_o.dll\nextraprotection = false\n\n[steam_misc]\nforceoffline = true\n"
    );
}

fn new_run(x86: bool, x64: bool) -> ApplyRun {
    ApplyRun::new("C:\\Games\\X".to_string(), x86, x64, 570, vec![dlc(1, "One")], false, false)
}

fn finish_of(a: ApplyAction) -> (bool, String) {
    match a {
        ApplyAction::Finish(r) => (r.success, r.message),
        other => panic!("expected Finish, got {:?}", other),
    }
}

fn found(exists: bool, shown: &str) -> ApplyEvent {
    ApplyEvent::FileChecked { exists, shown_path: shown.to_string() }
}

fn ok() -> ApplyEvent {
    ApplyEvent::Performed(Ok(()))
}

fn err(e: &str) -> ApplyEvent {
    ApplyEvent::Performed(Err(e.to_string()))
}

/// Runs the steps of one DLL up to the write, with its original not yet set aside.
fn install_dll(run: &mut ApplyRun, api: &str, orig: &str, backup: &str) {
    match apply(run, found(true, "/res/x.dll")) {
        ApplyAction::ReadCreamDll { file_name } => assert_eq!(file_name, api),
        other => panic!("{:?}", other),
    }
    match apply(run, ok()) {
        ApplyAction::CheckGameFile { file_name } => assert_eq!(file_name, api),
        other => panic!("{:?}", other),
    }
    match apply(run, found(true, "/game")) {
        ApplyAction::CheckGameFile { file_name } => assert_eq!(file_name, orig),
        other => panic!("{:?}", other),
    }
    match apply(run, found(false, "/game")) {
        ApplyAction::CopyGameFile { from, to } => {
            assert_eq!(from, api);
            assert_eq!(to, backup);
        }
        other => panic!("{:?}", other),
    }
    match apply(run, ok()) {
        ApplyAction::RenameGameFile { from, to } => {
            assert_eq!(from, api);
            assert_eq!(to, orig);
        }
        other => panic!("{:?}", other),
    }
    match apply(run, ok()) {
        ApplyAction::WriteCreamDll { file_name } => assert_eq!(file_name, api),
        other => panic!("{:?}", other),
    }
}

#[test]
fn apply_runs_every_step_in_order() {
    let mut run = new_run(true, true);
    assert!(matches!(run.pending_action(), ApplyAction::CheckGameDir));
    match apply(&mut run, ApplyEvent::GameDirChecked(true)) {
        ApplyAction::CheckCreamDll { file_name } => assert_eq!(file_name, "steam_api.dll"),
        other => panic!("{:?}", other),
    }
    install_dll(&mut run, "steam_api.dll", "steam_api_o.dll", "steam_api.dll.backup");
    match apply(&mut run, ok()) {
        ApplyAction::CheckCreamDll { file_name } => assert_eq!(file_name, "steam_api64.dll"),
        other => panic!("{:?}", other),
    }
    install_dll(&mut run, "steam_api64.dll", "steam_api64_o.dll", "steam_api64.dll.backup");
    assert!(matches!(apply(&mut run, ok()), ApplyAction::CreateConfig));
    match apply(&mut run, ok()) {
        ApplyAction::WriteConfig { contents } => {
            assert_eq!(contents, config_text(570, &[dlc(1, "One")], false, false))
        }
        other => panic!("{:?}", other),
    }
    let (success, msg) = finish_of(apply(&mut run, ok()));
    assert!(success);
    assert_eq!(msg, "CreamAPI applied successfully with 1 DLCs");
    assert_eq!(run.stage, ApplyStage::Done);
}

#[test]
fn apply_keeps_an_original_set_aside_earlier() {
    let mut run = new_run(true, false);
    apply(&mut run, ApplyEvent::GameDirChecked(true));
    apply(&mut run, found(true, "/res/steam_api.dll"));
    apply(&mut run, ok());
    apply(&mut run, found(true, "/game"));
    assert_eq!(run.stage, ApplyStage::CheckOrigDll(Arch::X86));
    match apply(&mut run, found(true, "/game")) {
        ApplyAction::CopyGameFile { from, to } => {
            assert_eq!(from, "steam_api_o.dll");
            assert_eq!(to, "steam_api.dll.backup");
        }
        other => panic!("{:?}", other),
    }
    match apply(&mut run, ok()) {
        ApplyAction::WriteCreamDll { file_name } => assert_eq!(file_name, "steam_api.dll"),
        other => panic!("{:?}", other),
    }
    assert!(matches!(apply(&mut run, ok()), ApplyAction::CreateConfig));
}

#[test]
fn apply_reports_a_failed_backup_of_the_set_aside_original() {
    let mut run = new_run(true, false);
    apply(&mut run, ApplyEvent::GameDirChecked(true));
    apply(&mut run, found(true, "/res/steam_api.dll"));
    apply(&mut run, ok());
    apply(&mut run, found(true, "/game"));
    apply(&mut run, found(true, "/game"));
    let (success, msg) = finish_of(apply(&mut run, err("denied")));
    assert!(!success);
    assert_eq!(msg, "Failed to apply x86 DLL: Failed to create backup: denied");
}

#[test]
fn apply_reports_missing_game_dir() {
    let mut run = new_run(true, false);
    let (success, msg) = finish_of(apply(&mut run, ApplyEvent::GameDirChecked(false)));
    assert!(!success);
    assert_eq!(msg, "Game directory not found: C:\\Games\\X");
}

#[test]
fn apply_reports_missing_or_unreadable_cream_dll() {
    let mut run = new_run(false, true);
    match apply(&mut run, ApplyEvent::GameDirChecked(true)) {
        ApplyAction::CheckCreamDll { file_name } => assert_eq!(file_name, "steam_api64.dll"),
        other => panic!("{:?}", other),
    }
    let (success, msg) = finish_of(apply(&mut run, found(false, "/res/steam_api64.dll")));
    assert!(!success);
    assert_eq!(msg, "CreamAPI DLL not found: steam_api64.dll\nExpected at: /res/steam_api64.dll");

    let mut run = new_run(true, false);
    apply(&mut run, ApplyEvent::GameDirChecked(true));
    apply(&mut run, found(true, "/res/steam_api.dll"));
    let (_, msg) = finish_of(apply(&mut run, err("permission denied")));
    assert_eq!(msg, "Failed to read steam_api.dll: permission denied");
}

#[test]
fn apply_prefixes_dll_failures() {
    let mut run = new_run(true, true);
    apply(&mut run, ApplyEvent::GameDirChecked(true));
    apply(&mut run, found(true, "/res/steam_api.dll"));
    apply(&mut run, ok());
    let (success, msg) = finish_of(apply(&mut run, found(false, "/game/bin")));
    assert!(!success);
    assert_eq!(msg, "Failed to apply x86 DLL: steam_api.dll not found in /game/bin");

    let mut run = new_run(false, true);
    apply(&mut run, ApplyEvent::GameDirChecked(true));
    apply(&mut run, found(true, "/res/steam_api64.dll"));
    apply(&mut run, ok());
    apply(&mut run, found(true, "/game"));
    apply(&mut run, found(false, "/game"));
    let (_, msg) = finish_of(apply(&mut run, err("denied")));
    assert_eq!(msg, "Failed to apply x64 DLL: Failed to create backup: denied");

    let mut run = new_run(true, false);
    apply(&mut run, ApplyEvent::GameDirChecked(true));
    apply(&mut run, found(true, "/res/steam_api.dll"));
    apply(&mut run, ok());
    apply(&mut run, found(true, "/game"));
    apply(&mut run, found(false, "/game"));
    apply(&mut run, ok());
    let (_, msg) = finish_of(apply(&mut run, err("busy")));
    assert_eq!(msg, "Failed to apply x86 DLL: Failed to rename original: busy");

    let mut run = new_run(true, false);
    apply(&mut run, ApplyEvent::GameDirChecked(true));
    apply(&mut run, found(true, "/res/steam_api.dll"));
    apply(&mut run, ok());
    apply(&mut run, found(true, "/game"));
    apply(&mut run, found(true, "/game"));
    apply(&mut run, ok());
    let (_, msg) = finish_of(apply(&mut run, err("disk full")));
    assert_eq!(msg, "Failed to apply x86 DLL: Failed to write CreamAPI DLL: disk full");
}

#[test]
fn apply_without_dlls_only_writes_config() {
    let mut run = new_run(false, false);
    assert!(matches!(apply(&mut run, ApplyEvent::GameDirChecked(true)), ApplyAction::CreateConfig));
    let (success, msg) = finish_of(apply(&mut run, err("read-only")));
    assert!(!success);
    assert_eq!(msg, "Failed to write config: Failed to create config: read-only");

    let mut run = new_run(false, false);
    apply(&mut run, ApplyEvent::GameDirChecked(true));
    apply(&mut run, ok());
    let (_, msg) = finish_of(apply(&mut run, err("disk full")));
    assert_eq!(msg, "Failed to write config: Failed to write config: disk full");
}

#[test]
fn apply_ignores_unexpected_events_and_stays_done() {
    let mut run = new_run(true, false);
    assert!(matches!(apply(&mut run, ok()), ApplyAction::CheckGameDir));
    assert_eq!(run.stage, ApplyStage::CheckGameDir);
    finish_of(apply(&mut run, ApplyEvent::GameDirChecked(false)));
    let (success, msg) = finish_of(apply(&mut run, ApplyEvent::GameDirChecked(true)));
    assert!(!success);
    assert_eq!(msg, "Game directory not found: C:\\Games\\X");
}

#[test]
fn find_steam_api_dir_prefers_the_install_dir() {
    let subs = vec![probe(true, false, false)];
    assert_eq!(find_steam_api_dir(true, false, probe(true, false, false), &subs), None);
    assert_eq!(find_steam_api_dir(false, true, probe(true, false, false), &subs), None);
    let subs = vec![probe(false, true, false), probe(true, false, false), probe(true, true, false)];
    assert_eq!(find_steam_api_dir(true, false, probe(false, false, false), &subs), Some(1));
    assert_eq!(find_steam_api_dir(false, true, probe(false, false, false), &subs), Some(0));
    assert_eq!(find_steam_api_dir(false, false, probe(true, true, false), &subs), None);
}

#[test]
fn dirs_to_check_are_those_with_originals() {
    let subs = vec![probe(true, false, true), probe(true, false, false), probe(false, false, true)];
    assert_eq!(get_dirs_to_check(&subs), vec![0, 2]);
    assert!(get_dirs_to_check(&[]).is_empty());
}

fn check(run: &mut RemoveRun, exists: bool) -> RemoveAction {
    remove(run, RemoveEvent::FileChecked(exists))
}

fn done(run: &mut RemoveRun, r: Result<(), &str>) -> RemoveAction {
    remove(run, RemoveEvent::Performed(r.map_err(|e| e.to_string())))
}

fn file_of(a: &RemoveAction) -> (usize, String) {
    match a {
        RemoveAction::CheckFile { dir, file_name } => (*dir, format!("check {}", file_name)),
        RemoveAction::RemoveFile { dir, file_name } => (*dir, format!("remove {}", file_name)),
        RemoveAction::RenameFile { dir, from, to } => (*dir, format!("rename {} {}", from, to)),
        RemoveAction::Finish(r) => (usize::MAX, format!("finish {} {}", r.success, r.message)),
    }
}

#[test]
fn remove_restores_originals_then_cleans_up() {
    let mut run = RemoveRun::new(2);
    let mut seen = vec![file_of(&run.pending_action())];
    seen.push(file_of(&check(&mut run, true)));
    seen.push(file_of(&done(&mut run, Err("gone already"))));
    seen.push(file_of(&done(&mut run, Ok(()))));
    seen.push(file_of(&check(&mut run, false)));
    seen.push(file_of(&check(&mut run, true)));
    seen.push(file_of(&done(&mut run, Ok(()))));
    seen.push(file_of(&check(&mut run, true)));
    seen.push(file_of(&done(&mut run, Err("busy"))));
    seen.push(file_of(&check(&mut run, false)));
    seen.push(file_of(&check(&mut run, false)));
    seen.push(file_of(&check(&mut run, false)));
    seen.push(file_of(&check(&mut run, false)));
    seen.push(file_of(&check(&mut run, false)));
    seen.push(file_of(&check(&mut run, false)));
    let expected: Vec<(usize, String)> = vec![
        (0, "check steam_api_o.dll"),
        (0, "remove steam_api.dll"),
        (0, "rename steam_api_o.dll steam_api.dll"),
        (0, "check steam_api64_o.dll"),
        (0, "check cream_api.ini"),
        (0, "remove cream_api.ini"),
        (0, "check steam_api.dll.backup"),
        (0, "remove steam_api.dll.backup"),
        (0, "check steam_api64.dll.backup"),
        (1, "check steam_api_o.dll"),
        (1, "check steam_api64_o.dll"),
        (1, "check cream_api.ini"),
        (1, "check steam_api.dll.backup"),
        (1, "check steam_api64.dll.backup"),
        (usize::MAX, "finish true CreamAPI removed, original DLLs restored"),
    ]
    .into_iter()
    .map(|(d, s)| (d, s.to_string()))
    .collect();
    assert_eq!(seen, expected);
}

#[test]
fn remove_with_failed_renames_reports_nothing_found() {
    let mut run = RemoveRun::new(1);
    check(&mut run, true);
    let same = check(&mut run, true);
    assert_eq!(file_of(&same), (0, "remove steam_api.dll".to_string()));
    done(&mut run, Ok(()));
    let next = done(&mut run, Err("denied"));
    assert_eq!(file_of(&next), (0, "check steam_api64_o.dll".to_string()));
    check(&mut run, false);
    check(&mut run, false);
    check(&mut run, false);
    let fin = check(&mut run, false);
    assert_eq!(
        file_of(&fin),
        (usize::MAX, "finish false No CreamAPI installation found to remove".to_string())
    );
    assert!(!run.restored);
}

#[test]
fn remove_of_no_directories_finds_nothing() {
    let run = RemoveRun::new(0);
    assert_eq!(
        file_of(&run.pending_action()),
        (usize::MAX, "finish false No CreamAPI installation found to remove".to_string())
    );
}

#[test]
fn dll_status_reports_what_it_is_given() {
    let s = get_dll_status("/res".to_string(), true, false);
    assert_eq!(s.dll_dir, "/res");
    assert!(s.has_x86 && !s.has_x64);
}

type Files = HashMap<String, Vec<u8>>;

/// Runs an install against `files`, a target directory where every
/// operation on an existing file succeeds.
fn install_into(files: &mut Files, x86: bool, x64: bool, cream: &[u8]) -> (bool, String) {
    let mut run = new_run(x86, x64);
    let mut action = run.pending_action();
    loop {
        let event = match action {
            ApplyAction::CheckGameDir => ApplyEvent::GameDirChecked(true),
            ApplyAction::CheckCreamDll { .. } => found(true, "/res"),
            ApplyAction::ReadCreamDll { .. } => ok(),
            ApplyAction::CheckGameFile { file_name } => found(files.contains_key(&file_name), "/game"),
            ApplyAction::CopyGameFile { from, to } => match files.get(&from).cloned() {
                Some(data) => {
                    files.insert(to, data);
                    ok()
                }
                None => err("not found"),
            },
            ApplyAction::RenameGameFile { from, to } => match files.remove(&from) {
                Some(data) => {
                    files.insert(to, data);
                    ok()
                }
                None => err("not found"),
            },
            ApplyAction::WriteCreamDll { file_name } => {
                files.insert(file_name, cream.to_vec());
                ok()
            }
            ApplyAction::CreateConfig => {
                files.insert("cream_api.ini".to_string(), Vec::new());
                ok()
            }
            ApplyAction::WriteConfig { contents } => {
                files.insert("cream_api.ini".to_string(), contents.into_bytes());
                ok()
            }
            ApplyAction::Finish(r) => return (r.success, r.message),
        };
        action = apply(&mut run, event);
    }
}

/// Runs a removal over `dirs`, where deleting and renaming succeed on
/// existing files.
fn remove_from(dirs: &mut Vec<Files>) -> (bool, String) {
    let mut run = RemoveRun::new(dirs.len());
    let mut action = run.pending_action();
    loop {
        let event = match action {
            RemoveAction::CheckFile { dir, file_name } => {
                RemoveEvent::FileChecked(dirs[dir].contains_key(&file_name))
            }
            RemoveAction::RemoveFile { dir, file_name } => match dirs[dir].remove(&file_name) {
                Some(_) => RemoveEvent::Performed(Ok(())),
                None => RemoveEvent::Performed(Err("not found".to_string())),
            },
            RemoveAction::RenameFile { dir, from, to } => match dirs[dir].remove(&from) {
                Some(data) => {
                    dirs[dir].insert(to, data);
                    RemoveEvent::Performed(Ok(()))
                }
                None => RemoveEvent::Performed(Err("not found".to_string())),
            },
            RemoveAction::Finish(r) => return (r.success, r.message),
        };
        action = remove(&mut run, event);
    }
}

fn game_dir() -> Files {
    let mut files = Files::new();
    files.insert("steam_api.dll".to_string(), b"original".to_vec());
    files.insert("game.exe".to_string(), b"exe".to_vec());
    files
}

#[test]
fn install_then_remove_restores_the_directory() {
    let before = game_dir();
    let mut files = before.clone();
    let (success, _) = install_into(&mut files, true, false, b"cream");
    assert!(success);
    assert_eq!(files["steam_api.dll"], b"cream".to_vec());
    assert_eq!(files["steam_api_o.dll"], b"original".to_vec());
    assert_eq!(files["steam_api.dll.backup"], b"original".to_vec());
    let mut dirs = vec![files];
    let (success, msg) = remove_from(&mut dirs);
    assert!(success);
    assert_eq!(msg, "CreamAPI removed, original DLLs restored");
    assert_eq!(dirs[0], before);
}

#[test]
fn reinstall_backs_up_the_original_not_the_cream_dll() {
    let mut files = game_dir();
    install_into(&mut files, true, false, b"cream");
    let (success, _) = install_into(&mut files, true, false, b"cream2");
    assert!(success);
    assert_eq!(files["steam_api.dll.backup"], b"original".to_vec());
    assert_eq!(files["steam_api_o.dll"], b"original".to_vec());
    assert_eq!(files["steam_api.dll"], b"cream2".to_vec());
}

#[test]
fn second_removal_changes_nothing() {
    let mut files = game_dir();
    install_into(&mut files, true, false, b"cream");
    let mut dirs = vec![files, game_dir()];
    remove_from(&mut dirs);
    let once = dirs.clone();
    let (success, msg) = remove_from(&mut dirs);
    assert!(!success);
    assert_eq!(msg, "No CreamAPI installation found to remove");
    assert_eq!(dirs, once);
}

fn game_dir_both() -> Files {
    let mut files = game_dir();
    files.insert("steam_api64.dll".to_string(), b"original64".to_vec());
    files
}

#[test]
fn install_of_both_dlls_then_remove_restores_the_directory() {
    let before = game_dir_both();
    let mut files = before.clone();
    let (success, _) = install_into(&mut files, true, true, b"cream");
    assert!(success);
    assert_eq!(files["steam_api64_o.dll"], b"original64".to_vec());
    assert_eq!(files["steam_api64.dll.backup"], b"original64".to_vec());
    let (success, _) = install_into(&mut files, true, true, b"cream2");
    assert!(success);
    assert_eq!(files["steam_api64.dll.backup"], b"original64".to_vec());
    assert_eq!(files["steam_api.dll.backup"], b"original".to_vec());
    let mut dirs = vec![files];
    let (success, _) = remove_from(&mut dirs);
    assert!(success);
    assert_eq!(dirs[0], before);
}

#[test]
fn install_of_a_missing_64_bit_dll_fails_and_keeps_originals() {
    let mut files = game_dir();
    files.insert("steam_api64_o.dll".to_string(), b"kept".to_vec());
    let (success, msg) = install_into(&mut files, false, true, b"cream");
    assert!(!success);
    assert_eq!(msg, "Failed to apply x64 DLL: steam_api64.dll not found in /game");
    assert_eq!(files["steam_api64_o.dll"], b"kept".to_vec());
}
