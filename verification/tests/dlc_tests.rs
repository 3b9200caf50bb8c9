use autocreamapi::dlc::{
    merge_dlc_sources, needs_name, resolve_name, steamcmd_dlcs, store_dlcs, DepotDlcId, DlcInfo,
    SteamCmdAppData, SteamCmdResponse, StoreAppData, StoreResponse,
};

fn store_answer(app_id: &str, success: bool, data: Option<StoreAppData>) -> Vec<(String, StoreResponse)> {
    vec![(app_id.to_string(), StoreResponse { success, data })]
}

fn game_data(kind: &str, dlc: Vec<u32>, name: Option<&str>) -> StoreAppData {
    StoreAppData { dlc, app_type: kind.to_string(), name: name.map(|s| s.to_string()) }
}

fn info(app_id: u32, name: &str, from_store: bool) -> DlcInfo {
    DlcInfo { app_id, name: name.to_string(), from_store }
}

fn ids(v: &[DlcInfo]) -> Vec<u32> {
    v.iter().map(|d| d.app_id).collect()
}

#[test]
fn store_dlcs_lists_placeholders() {
    let r = store_dlcs(570, &store_answer("570", true, Some(game_data("game", vec![5, 3], Some("Dota 2"))))).unwrap();
    assert_eq!(ids(&r), vec![5, 3]);
    assert_eq!(r[0].name, "DLC 5");
    assert!(r.iter().all(|d| d.from_store));
    let r = store_dlcs(1, &store_answer("1", true, Some(game_data("demo", vec![], None)))).unwrap();
    assert!(r.is_empty());
}

#[test]
fn store_dlcs_errors() {
    assert_eq!(store_dlcs(570, &store_answer("571", true, None)).unwrap_err(), "App not found in store response");
    assert_eq!(store_dlcs(570, &store_answer("570", false, None)).unwrap_err(), "Store API returned failure");
    assert_eq!(store_dlcs(570, &store_answer("570", true, None)).unwrap_err(), "No data in store response");
    assert_eq!(
        store_dlcs(570, &store_answer("570", true, Some(game_data("dlc", vec![1], None)))).unwrap_err(),
        "App is not a game (type: dlc)"
    );
    assert_eq!(
        store_dlcs(570, &store_answer("570", true, Some(game_data("", vec![1], None)))).unwrap_err(),
        "App is not a game (type: )"
    );
}

fn cmd_answer(list: Option<&str>, depots: Vec<DepotDlcId>) -> SteamCmdResponse {
    SteamCmdResponse {
        success: true,
        data: Some(vec![
            ("1".to_string(), SteamCmdAppData { listofdlc: None, depot_dlc_ids: vec![] }),
            ("570".to_string(), SteamCmdAppData { listofdlc: list.map(|s| s.to_string()), depot_dlc_ids: depots }),
        ]),
    }
}

#[test]
fn steamcmd_dlcs_reads_list_then_depots_without_duplicates() {
    let r = steamcmd_dlcs(
        570,
        &cmd_answer(
            Some(" 12, 7,,x,12 ,+9"),
            vec![DepotDlcId::Text("7".to_string()), DepotDlcId::Number(4294967296 + 30), DepotDlcId::Other, DepotDlcId::Text(" 8".to_string()), DepotDlcId::Number(40)],
        ),
    )
    .unwrap();
    assert_eq!(ids(&r), vec![12, 7, 9, 30, 40]);
    assert_eq!(r[3].name, "DLC 30");
    assert!(r.iter().all(|d| !d.from_store));
}

#[test]
fn steamcmd_dlcs_errors() {
    let mut a = cmd_answer(None, vec![]);
    a.success = false;
    assert_eq!(steamcmd_dlcs(570, &a).unwrap_err(), "SteamCMD API returned failure");
    let a = SteamCmdResponse { success: true, data: None };
    assert_eq!(steamcmd_dlcs(570, &a).unwrap_err(), "No data in SteamCMD response");
    assert_eq!(steamcmd_dlcs(571, &cmd_answer(None, vec![])).unwrap_err(), "App not found in SteamCMD response");
    assert!(steamcmd_dlcs(570, &cmd_answer(None, vec![])).unwrap().is_empty());
}

#[test]
fn merge_prefers_store_and_sorts_by_id() {
    let store = Ok(vec![info(30, "Store 30", true), info(10, "Old 10", true), info(10, "New 10", true)]);
    let cmd = Ok(vec![info(20, "DLC 20", false), info(10, "DLC 10", false), info(20, "Second 20", false), info(5, "DLC 5", false)]);
    let r = merge_dlc_sources(store, cmd).unwrap();
    assert_eq!(ids(&r), vec![5, 10, 20, 30]);
    assert_eq!(r[1].name, "New 10");
    assert!(r[1].from_store);
    assert_eq!(r[2].name, "DLC 20");
    assert!(!r[2].from_store);
}

#[test]
fn merge_uses_whichever_source_succeeded() {
    let r = merge_dlc_sources(Err("down".to_string()), Ok(vec![info(2, "DLC 2", false)])).unwrap();
    assert_eq!(ids(&r), vec![2]);
    let r = merge_dlc_sources(Ok(vec![info(3, "DLC 3", true)]), Err("down".to_string())).unwrap();
    assert_eq!(ids(&r), vec![3]);
}

#[test]
fn merge_fails_without_any_dlc() {
    assert_eq!(merge_dlc_sources(Err("a".to_string()), Err("b".to_string())).unwrap_err(), "No DLCs found from any source");
    assert_eq!(merge_dlc_sources(Ok(vec![]), Ok(vec![])).unwrap_err(), "No DLCs found from any source");
}

#[test]
fn names_are_resolved_from_the_store() {
    let mut d = info(1001, "DLC 1001", false);
    assert!(needs_name(&d));
    resolve_name(&mut d, &store_answer("1001", true, Some(game_data("dlc", vec![], Some("Soundtrack")))));
    assert_eq!(d.name, "Soundtrack");
    assert!(!needs_name(&d));
    assert_eq!(d.app_id, 1001);
    assert!(!d.from_store);
}

#[test]
fn names_stay_when_the_store_has_none() {
    let mut d = info(1001, "DLC 1001", true);
    resolve_name(&mut d, &store_answer("1001", false, Some(game_data("dlc", vec![], Some("X")))));
    assert_eq!(d.name, "DLC 1001");
    resolve_name(&mut d, &store_answer("1002", true, Some(game_data("dlc", vec![], Some("X")))));
    assert_eq!(d.name, "DLC 1001");
    resolve_name(&mut d, &store_answer("1001", true, Some(game_data("dlc", vec![], None))));
    assert_eq!(d.name, "DLC 1001");
    assert!(!needs_name(&info(1, "DLC1", true)));
    assert!(!needs_name(&info(1, "dlc 1", true)));
}
