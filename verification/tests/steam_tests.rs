use autocreamapi::steam::{
    acf_entries, choose_library_folders, first_of_each_app_id, lowercase_names, manifest_from_entries, sort_by_keys,
    sort_by_keys_then_id, extract_vdf_value, get_all_games, library_paths, needs_subdir_scan, parse_acf,
    scan_subdirs_for_steam_api, sort_games_by_name, steam_game, AcfManifest, DllProbe,
    SteamGame, DirTree, MAX_SEARCH_DEPTH,
};

fn game(app_id: u32, name: &str) -> SteamGame {
    SteamGame {
        app_id,
        name: name.to_string(),
        install_dir: format!("/games/{}", app_id),
        has_x86: true,
        has_x64: false,
        cream_api_applied: false,
    }
}

fn probe(x86: bool, x64: bool, applied: bool) -> DllProbe {
    DllProbe { has_x86: x86, has_x64: x64, applied }
}

#[test]
fn extract_vdf_value_unescapes_backslashes() {
    let line = "\"path\"\t\t\"C:\\\\Program Files (x86)\\\\Steam\"";
    assert_eq!(extract_vdf_value(line), Some("C:\\Program Files (x86)\\Steam".to_string()));
}

#[test]
fn extract_vdf_value_needs_two_quoted_strings() {
    assert_eq!(extract_vdf_value("\"path\""), None);
    assert_eq!(extract_vdf_value("no quotes here"), None);
    assert_eq!(extract_vdf_value("\"a\" \"\""), Some(String::new()));
}

#[test]
fn extract_vdf_value_odd_backslashes() {
    assert_eq!(extract_vdf_value("\"k\" \"a\\\\\\b\""), Some("a\\\\b".to_string()));
}

#[test]
fn library_paths_reads_every_path_line() {
    let vdf = "\"libraryfolders\"\r\n{\r\n\t\"0\"\r\n\t{\r\n\t\t\"path\"\t\t\"C:\\\\Program Files (x86)\\\\Steam\"\r\n\t\t\"label\"\t\t\"\"\r\n\t}\r\n\t\"1\"\r\n\t{\r\n\t\t\"path\"\t\t\"D:\\\\SteamLibrary\"\r\n\t}\r\n}\r\n";
    assert_eq!(
        library_paths(vdf),
        vec!["C:\\Program Files (x86)\\Steam".to_string(), "D:\\SteamLibrary".to_string()]
    );
}

#[test]
fn library_paths_ignores_other_keys() {
    let vdf = "\"label\" \"path\"\n\"pathx\" \"nope\"\n  \"path\"\n\t\"path\" \"yes\"";
    assert_eq!(library_paths(vdf), vec!["yes".to_string()]);
    assert!(library_paths("").is_empty());
}

const ACF: &str = "\"AppState\"\n{\n\t\"appid\"\t\t\"570\"\n\t\"Universe\"\t\t\"1\"\n\t\"name\"\t\t\"Dota 2\"\n\t\"installdir\"\t\t\"dota 2 beta\"\n}\n";

#[test]
fn parse_acf_reads_tab_separated_fields() {
    let m = parse_acf(ACF).unwrap();
    assert_eq!(m.app_id, 570);
    assert_eq!(m.name, "Dota 2");
    assert_eq!(m.install_dir, "dota 2 beta");
}

#[test]
fn parse_acf_reads_space_separated_fields_and_ignores_key_case() {
    let acf = "\"AppState\"\r\n{\r\n  \"AppID\"  \"440\"\r\n  \"Name\"  \"Team Fortress 2\"\r\n  \"InstallDir\"  \"Team Fortress 2\"\r\n}\r\n";
    let m = parse_acf(acf).unwrap();
    assert_eq!(m.app_id, 440);
    assert_eq!(m.name, "Team Fortress 2");
    assert_eq!(m.install_dir, "Team Fortress 2");
}

#[test]
fn parse_acf_last_value_wins() {
    let acf = "\"appid\"\t\"1\"\n\"name\"\t\"A\"\n\"installdir\"\t\"a\"\n\"appid\"\t\"2\"\n";
    assert_eq!(parse_acf(acf).unwrap().app_id, 2);
}

#[test]
fn parse_acf_rejects_incomplete_manifests() {
    assert!(parse_acf("\"appid\"\t\"1\"\n\"installdir\"\t\"a\"\n").is_none());
    assert!(parse_acf("\"appid\"\t\"x1\"\n\"name\"\t\"A\"\n\"installdir\"\t\"a\"\n").is_none());
    assert!(parse_acf("\"appid\"\t\"1\"\n\"name\"\t\"\"\n\"installdir\"\t\"a\"\n").is_none());
    assert!(parse_acf("\"appid\"\t\"4294967296\"\n\"name\"\t\"A\"\n\"installdir\"\t\"a\"\n").is_none());
    assert!(parse_acf("").is_none());
}

#[test]
fn parse_acf_accepts_a_plus_sign_like_str_parse() {
    let m = parse_acf("\"appid\"\t\"+7\"\n\"name\"\t\"A\"\n\"installdir\"\t\"a\"\n").unwrap();
    assert_eq!(m.app_id, 7);
}

fn manifest() -> AcfManifest {
    AcfManifest { app_id: 570, name: "Dota 2".to_string(), install_dir: "dota 2 beta".to_string() }
}

#[test]
fn steam_game_uses_root_dlls_first() {
    let root = probe(false, true, true);
    assert!(!needs_subdir_scan(&root));
    let g = steam_game(manifest(), "/lib/common/dota 2 beta".to_string(), true, root, probe(true, false, false)).unwrap();
    assert_eq!(g.app_id, 570);
    assert_eq!(g.name, "Dota 2");
    assert_eq!(g.install_dir, "/lib/common/dota 2 beta");
    assert!(!g.has_x86 && g.has_x64 && g.cream_api_applied);
}

#[test]
fn steam_game_falls_back_to_nested_dlls() {
    let root = probe(false, false, true);
    assert!(needs_subdir_scan(&root));
    let g = steam_game(manifest(), "d".to_string(), true, root, probe(true, false, false)).unwrap();
    assert!(g.has_x86 && !g.has_x64 && !g.cream_api_applied);
}

#[test]
fn steam_game_skips_games_without_steam_api() {
    assert!(steam_game(manifest(), "d".to_string(), true, probe(false, false, false), probe(false, false, true)).is_none());
}

fn dir(p: DllProbe, subdirs: Vec<DirTree>) -> DirTree {
    DirTree { probe: p, subdirs }
}

fn chain(levels: usize, last: DllProbe) -> Vec<DirTree> {
    let mut dirs = vec![dir(last, vec![])];
    for _ in 1..levels {
        dirs = vec![dir(probe(false, false, false), dirs)];
    }
    dirs
}

#[test]
fn scan_subdirs_takes_first_dir_with_a_dll() {
    let tree = vec![
        dir(probe(false, false, true), vec![dir(probe(false, true, false), vec![])]),
        dir(probe(true, true, true), vec![]),
    ];
    assert_eq!(scan_subdirs_for_steam_api(&tree, 0), probe(false, true, false));
    let none = vec![dir(probe(false, false, true), vec![])];
    assert_eq!(scan_subdirs_for_steam_api(&none, 0), probe(false, false, false));
    assert_eq!(MAX_SEARCH_DEPTH, 4);
}

#[test]
fn scan_subdirs_looks_four_levels_down_and_no_further() {
    assert_eq!(scan_subdirs_for_steam_api(&chain(4, probe(true, false, true)), 0), probe(true, false, true));
    assert_eq!(scan_subdirs_for_steam_api(&chain(5, probe(true, false, true)), 0), probe(false, false, false));
    assert_eq!(scan_subdirs_for_steam_api(&chain(1, probe(true, false, false)), 4), probe(false, false, false));
}

#[test]
fn scan_subdirs_searches_a_directory_before_its_later_siblings() {
    let tree = vec![
        dir(probe(false, false, false), chain(3, probe(false, true, false))),
        dir(probe(true, false, false), vec![]),
    ];
    assert_eq!(scan_subdirs_for_steam_api(&tree, 0), probe(false, true, false));
    let too_deep = vec![
        dir(probe(false, false, false), chain(4, probe(false, true, false))),
        dir(probe(true, false, false), vec![]),
    ];
    assert_eq!(scan_subdirs_for_steam_api(&too_deep, 0), probe(true, false, false));
}

#[test]
fn sort_games_by_name_ignores_case_and_is_stable() {
    let games = vec![game(3, "beta"), game(1, "Alpha"), game(2, "alpha"), game(4, "ALPHA")];
    let sorted = sort_games_by_name(games);
    let ids: Vec<u32> = sorted.iter().map(|g| g.app_id).collect();
    assert_eq!(ids, vec![1, 2, 4, 3]);
}

#[test]
fn get_all_games_keeps_first_of_each_app_id() {
    let mut later = game(10, "Zeta");
    later.install_dir = "/other".to_string();
    let all = vec![game(10, "Zeta"), game(5, "beta"), later, game(7, "Alpha"), game(8, "alpha")];
    let out = get_all_games(all);
    let ids: Vec<u32> = out.iter().map(|g| g.app_id).collect();
    assert_eq!(ids, vec![7, 8, 5, 10]);
    assert_eq!(out[3].install_dir, "/games/10");
}

#[test]
fn get_all_games_of_nothing_is_empty() {
    assert!(get_all_games(Vec::new()).is_empty());
}

fn pair(k: &str, v: &str) -> (String, String) {
    (k.to_string(), v.to_string())
}

#[test]
fn acf_entries_lowercases_keys() {
    let entries = acf_entries("\"AppState\"\n{\n\t\"AppID\"\t\t\"570\"\n \"NAME\" \"Dota 2\"\n\"x\" \"y\" \"z\"\n}\n");
    assert_eq!(entries, vec![pair("appid", "570"), pair("name", "Dota 2"), pair("x", "y")]);
}

#[test]
fn manifest_from_entries_takes_last_values() {
    let m = manifest_from_entries(&[
        pair("appid", "1"),
        pair("name", "A"),
        pair("installdir", "a"),
        pair("name", "B"),
        pair("AppID", "9"),
    ])
    .unwrap();
    assert_eq!(m.app_id, 1);
    assert_eq!(m.name, "B");
    assert_eq!(m.install_dir, "a");
    assert!(manifest_from_entries(&[pair("appid", "1"), pair("name", "A")]).is_none());
}

#[test]
fn lowercase_names_lowers_ascii_letters_only() {
    let keys = lowercase_names(&vec![game(1, "Half-Life 2: EP_1"), game(2, "")]);
    assert_eq!(keys, vec!["half-life 2: ep_1".to_string(), "".to_string()]);
}

#[test]
fn parse_acf_gives_the_same_manifest_whatever_the_key_case() {
    let lower = parse_acf("\"appid\"\t\"7\"\n\"name\"\t\"Game\"\n\"installdir\"\t\"g\"\n").unwrap();
    let mixed = parse_acf("\"AppID\"\t\"7\"\n\"NAME\"\t\"Game\"\n\"InstallDir\"\t\"g\"\n").unwrap();
    assert_eq!((lower.app_id, lower.name, lower.install_dir), (mixed.app_id, mixed.name, mixed.install_dir));
}

#[test]
fn lowercase_names_uses_unicode_case_mapping() {
    let keys = lowercase_names(&vec![game(1, "ÄBC Straße"), game(2, "ΣΑΣ")]);
    assert_eq!(keys, vec!["äbc straße".to_string(), "σας".to_string()]);
}

#[test]
fn sort_by_keys_is_stable() {
    let games = vec![game(1, "a"), game(2, "b"), game(3, "c"), game(4, "d")];
    let keys = vec!["y".to_string(), "x".to_string(), "y".to_string(), "".to_string()];
    let ids: Vec<u32> = sort_by_keys(games, &keys).iter().map(|g| g.app_id).collect();
    assert_eq!(ids, vec![4, 2, 1, 3]);
}

#[test]
fn sort_by_keys_then_id_breaks_ties_by_app_id() {
    let games = vec![game(9, "a"), game(2, "b"), game(5, "c")];
    let keys = vec!["k".to_string(), "k".to_string(), "a".to_string()];
    let ids: Vec<u32> = sort_by_keys_then_id(&games, &keys).iter().map(|g| g.app_id).collect();
    assert_eq!(ids, vec![5, 2, 9]);
}

#[test]
fn first_of_each_app_id_keeps_order() {
    let mut dup = game(3, "again");
    dup.has_x64 = true;
    let out = first_of_each_app_id(&vec![game(3, "x"), game(1, "y"), dup, game(1, "z")]);
    let names: Vec<&str> = out.iter().map(|g| g.name.as_str()).collect();
    assert_eq!(names, vec!["x", "y"]);
}

#[test]
fn steam_game_skips_missing_directories() {
    assert!(steam_game(manifest(), "d".to_string(), false, probe(true, true, false), probe(true, false, false)).is_none());
}

fn cand(parts: &[&str], exists: bool) -> (Vec<String>, bool) {
    (parts.iter().map(|p| p.to_string()).collect(), exists)
}

#[test]
fn library_folders_keep_each_existing_path_once_in_order() {
    let cands = vec![
        cand(&["C:", "Steam", "steamapps"], true),
        cand(&["D:", "Lib", "steamapps"], true),
        cand(&["E:", "Gone", "steamapps"], false),
        cand(&["C:", "Steam", "steamapps"], true),
        cand(&["D:", "Lib", "steamapps"], true),
        cand(&["F:", "steamapps"], true),
    ];
    assert_eq!(choose_library_folders(&cands), vec![0, 1, 5]);
}

#[test]
fn library_folders_skip_a_missing_main_directory() {
    let cands = vec![cand(&["C:", "Steam", "steamapps"], false), cand(&["C:", "Steam", "steamapps"], true)];
    assert_eq!(choose_library_folders(&cands), vec![1]);
    assert!(choose_library_folders(&vec![]).is_empty());
}
