use steamdepot::download::DownloadProgress;
use steamdepot::prepare::{PrepareAction, PrepareResult};
use steamdepot::proto::{ChunkData, ContentManifestMetadata, FileMapping};
use steamdepot::report::{
    percent_is_due, progress_is_due, DepotPlan, DownloadPlan, Log, LogMode,
};

const HUMAN: Log = Log { mode: LogMode::Human };
const JSON: Log = Log { mode: LogMode::Json };

#[test]
fn the_mode_is_kept() {
    assert!(Log::new(LogMode::Json).json());
    assert!(!Log::new(LogMode::Human).json());
}

#[test]
fn the_way_to_a_cm_is_told() {
    assert_eq!(HUMAN.cm_servers(3), "CM servers: 3 found");
    assert_eq!(JSON.cm_servers(3), "{\"count\":3,\"type\":\"cm_servers\"}");
    assert_eq!(HUMAN.connecting("cm:443"), "Connecting to cm:443...");
    assert_eq!(JSON.connecting("c\"m"), "{\"endpoint\":\"c\\\"m\",\"type\":\"connecting\"}");
    assert_eq!(HUMAN.cdn_servers(4), "  CDN servers: 4 available");
    assert_eq!(JSON.cdn_servers(4), "{\"count\":4,\"type\":\"cdn_servers\"}");
    assert_eq!(HUMAN.disconnected(), "\nDisconnected.");
    assert_eq!(JSON.disconnected(), "{\"type\":\"disconnected\"}");
}

#[test]
fn a_login_is_told() {
    assert_eq!(
        HUMAN.login("anonymously", 5, -6, 7, 8),
        "Logged in anonymously!\n  steam_id:          5\n  session_id:        -6\n  \
         cell_id:           7\n  heartbeat_seconds: 8"
    );
    assert_eq!(
        JSON.login("anonymously", 5, -6, 7, 8),
        "{\"cell_id\":7,\"heartbeat_seconds\":8,\"mode\":\"anonymously\",\"session_id\":-6,\
         \"steam_id\":5,\"type\":\"login\"}"
    );
}

#[test]
fn product_info_is_told() {
    assert_eq!(HUMAN.app_info(1, 2, b"text"), "\n[app 1] change_number=2\ntext");
    assert_eq!(
        HUMAN.app_info(1, 2, b"\xff\xff"),
        "\n[app 1] change_number=2\n  (2 bytes, non-utf8)"
    );
    assert_eq!(
        JSON.app_info(1, 2, b"text"),
        "{\"app_id\":1,\"buffer_len\":4,\"change_number\":2,\"type\":\"app_info\"}"
    );
    assert_eq!(HUMAN.package_info(1, 2, 3), "\n[package 1] change_number=2 (3 bytes)");
    assert_eq!(
        JSON.package_info(1, 2, 3),
        "{\"buffer_len\":3,\"change_number\":2,\"package_id\":1,\"type\":\"package_info\"}"
    );
}

#[test]
fn keys_are_told_in_hexadecimal() {
    assert_eq!(HUMAN.depot_key(1, 2, &[0x0A, 0xFF]), "  depot_encryption_key: 0aff");
    assert_eq!(
        JSON.depot_key(1, 2, &[0x0A, 0xFF]),
        "{\"app_id\":2,\"depot_id\":1,\"key\":\"0aff\",\"type\":\"depot_key\"}"
    );
}

#[test]
fn a_plan_is_told() {
    assert_eq!(
        HUMAN.plan_start(1, "linux", "public"),
        "\nPreparing download plan for app 1 (os=linux, branch=public)..."
    );
    assert_eq!(
        JSON.plan_start(1, "linux", "public"),
        "{\"app_id\":1,\"branch\":\"public\",\"os\":\"linux\",\"type\":\"plan_start\"}"
    );
    let mut plan = DownloadPlan {
        app_id: 4,
        plans: vec![],
        granted_appids: vec![1],
        granted_packageids: vec![],
    };
    assert_eq!(HUMAN.plan(&plan), "  No depots found");
    assert_eq!(JSON.plan(&plan), "{\"app_id\":4,\"type\":\"plan_empty\"}");
    plan.plans = vec![
        DepotPlan { depot_id: 5, manifest_id: 6, key: vec![1], depot_from_app: None },
        DepotPlan { depot_id: 12345678, manifest_id: u64::MAX, key: vec![], depot_from_app: Some(9) },
    ];
    assert_eq!(
        HUMAN.plan(&plan),
        "  Free license granted: apps=[1] packages=[]\n  2 depot(s) resolved:\n\n  depot       5  \
         manifest                    6  key=01\n  depot 12345678  manifest 18446744073709551615  \
         key=  (depotfromapp=9)"
    );
    assert_eq!(
        JSON.plan(&plan),
        "{\"app_id\":4,\"granted_appids\":[1],\"granted_packageids\":[],\
         \"type\":\"license_granted\"}\n\
         {\"app_id\":4,\"depots\":[{\"depot_from_app\":null,\"depot_id\":5,\"key\":\"01\",\
         \"manifest_id\":6},{\"depot_from_app\":9,\"depot_id\":12345678,\"key\":\"\",\
         \"manifest_id\":18446744073709551615}],\"type\":\"plan\"}"
    );
    plan.granted_appids = vec![];
    plan.granted_packageids = vec![3, 4];
    assert!(HUMAN.plan(&plan).starts_with("  Free license granted: apps=[] packages=[3, 4]\n"));
    plan.granted_packageids = vec![];
    assert!(HUMAN.plan(&plan).starts_with("  2 depot(s) resolved:\n\n"));
}

#[test]
fn lines_of_json_read_back() {
    let value: serde_json::Value = serde_json::from_str(&JSON.error("a \"b\"\n\u{e4}")).unwrap();
    assert_eq!(value["msg"], "a \"b\"\n\u{e4}");
    assert_eq!(value["type"], "error");
    assert_eq!(serde_json::to_string(&value).unwrap(), JSON.error("a \"b\"\n\u{e4}"));
    assert_eq!(
        JSON.error("\u{0}\u{8}\t\n\u{b}\u{c}\r\u{1f}\"\\/\u{7f}\u{e4}"),
        "{\"msg\":\"\\u0000\\b\\t\\n\\u000b\\f\\r\\u001f\\\"\\\\/\u{7f}\u{e4}\",\"type\":\"error\"}"
    );
    assert_eq!(HUMAN.error("bad"), "  Error: bad");
}

#[test]
fn a_manifest_is_told() {
    let meta = ContentManifestMetadata {
        depot_id: Some(1),
        gid_manifest: Some(2),
        creation_time: Some(3),
        unique_chunks: Some(4),
        cb_disk_original: Some(5),
        cb_disk_compressed: None,
        ..Default::default()
    };
    assert_eq!(
        HUMAN.manifest(7, 8, 9, &meta, 10),
        "\n  depot 8  request_code=9\n    depot_id=1 gid_manifest=2 creation_time=3\n    \
         files=10 unique_chunks=4\n    disk_original=5 disk_compressed=0"
    );
    assert_eq!(
        JSON.manifest(7, 8, 9, &meta, 10),
        "{\"app_id\":7,\"bytes_compressed\":0,\"bytes_original\":5,\"creation_time\":3,\
         \"depot_id\":8,\"files\":10,\"gid_manifest\":2,\"type\":\"manifest\",\
         \"unique_chunks\":4}"
    );
}

#[test]
fn files_are_listed_up_to_a_point() {
    let file = |name: &str| FileMapping {
        filename: Some(name.to_string()),
        size: Some(1234),
        flags: Some(0x40),
        chunks: vec![ChunkData::default()],
        ..Default::default()
    };
    assert_eq!(
        HUMAN.file_listing(&[file("a.txt"), FileMapping::default()]),
        vec![
            "              1234    1 chunk(s)  flags=0x0040  a.txt",
            "                 0    0 chunk(s)  flags=0x0000  ?",
        ]
    );
    assert!(JSON.file_listing(&[file("a.txt")]).is_empty());
    assert!(HUMAN.file_listing(&[]).is_empty());
    let many: Vec<FileMapping> = (0..101).map(|i| file(&format!("f{i}"))).collect();
    assert_eq!(HUMAN.file_listing(&many[..100]).len(), 100);
    let lines = HUMAN.file_listing(&many);
    assert_eq!(lines.len(), 22);
    assert_eq!(lines[0], "    (showing first 20 of 101 files)");
    assert!(lines[20].ends_with("  f19"));
    assert_eq!(lines[21], "      ...");
}

#[test]
fn large_flags_are_shown_in_full() {
    let file = FileMapping { flags: Some(0xABCDE), ..Default::default() };
    assert!(HUMAN.file_listing(&[file])[0].contains("flags=0xabcde  ?"));
}

#[test]
fn preparing_is_told() {
    assert_eq!(HUMAN.prepare(1, 2, "/srv"), "\n    Preparing directory tree in /srv...");
    assert_eq!(
        JSON.prepare(1, 2, "/srv"),
        "{\"app_id\":1,\"depot_id\":2,\"install_dir\":\"/srv\",\"type\":\"prepare\"}"
    );
    let mut result = PrepareResult::new();
    result.record(&PrepareAction::Directory { path: "d".to_string() }, None);
    result.record(
        &PrepareAction::File { path: "f".to_string(), size: 9, executable: false },
        None,
    );
    assert_eq!(
        HUMAN.prepared(1, 2, &result),
        "    Created 1 dirs, 1 files, 0 symlinks (9 bytes total)"
    );
    assert_eq!(
        JSON.prepared(1, 2, &result),
        "{\"app_id\":1,\"bytes_total\":9,\"depot_id\":2,\"dirs_created\":1,\"files_created\":1,\
         \"symlinks_created\":0,\"type\":\"prepared\"}"
    );
}

#[test]
fn a_download_is_told() {
    assert_eq!(
        HUMAN.download_start(3).as_deref(),
        Some("    Downloading chunks (3 CDN servers in pool)...")
    );
    assert!(JSON.download_start(3).is_none());
    let mut progress = DownloadProgress::new(2);
    progress.record(false, 70);
    assert_eq!(HUMAN.progress(1, 2, 100, &progress, 70), "\r    chunks: 1/2  bytes: 70");
    assert_eq!(
        JSON.progress(1, 2, 100, &progress, 70),
        "{\"app_id\":1,\"bytes_downloaded\":70,\"bytes_total\":100,\"depot_id\":2,\"pct\":70,\
         \"type\":\"progress\"}"
    );
    assert_eq!(
        HUMAN.download_complete(1, 2, &progress),
        "    Download complete: 1 chunks, 70 bytes downloaded"
    );
    assert_eq!(
        JSON.download_complete(1, 2, &progress),
        "{\"app_id\":1,\"bytes_downloaded\":70,\"chunks_done\":1,\"depot_id\":2,\
         \"type\":\"complete\"}"
    );
}

#[test]
fn progress_is_told_now_and_again() {
    assert!(percent_is_due(None, 0));
    assert!(!percent_is_due(Some(5), 5));
    assert!(!percent_is_due(Some(6), 5));
    assert!(percent_is_due(Some(5), 6));
    let mut progress = DownloadProgress::new(1);
    assert!(!progress_is_due(&progress, 249));
    assert!(progress_is_due(&progress, 250));
    progress.record(true, 0);
    assert!(progress_is_due(&progress, 0));
}

#[test]
fn every_line_of_json_is_as_a_serializer_writes_it() {
    let progress = DownloadProgress::new(2);
    let result = PrepareResult::new();
    let meta = ContentManifestMetadata::default();
    let depot = DepotPlan { depot_id: 1, manifest_id: 2, key: vec![3], depot_from_app: Some(4) };
    let plan = DownloadPlan {
        app_id: 5,
        plans: vec![depot.clone(), DepotPlan { depot_from_app: None, ..depot }],
        granted_appids: vec![6, 7],
        granted_packageids: vec![8],
    };
    let empty = DownloadPlan { plans: vec![], ..plan.clone() };
    for text in [
        JSON.cm_servers(1),
        JSON.connecting("e"),
        JSON.login("m", 1, -2, 3, -4),
        JSON.app_info(1, 2, b"b"),
        JSON.package_info(1, 2, 3),
        JSON.depot_key(1, 2, b"k"),
        JSON.plan_start(1, "os", "branch"),
        JSON.plan(&plan),
        JSON.plan(&empty),
        JSON.cdn_servers(1),
        JSON.manifest(1, 2, 3, &meta, 4),
        JSON.prepare(1, 2, "dir"),
        JSON.prepared(1, 2, &result),
        JSON.progress(1, 2, 3, &progress, 4),
        JSON.download_complete(1, 2, &progress),
        JSON.disconnected(),
        JSON.error("e"),
    ] {
        for line in text.lines() {
            let value: serde_json::Value = serde_json::from_str(line).unwrap();
            assert_eq!(serde_json::to_string(&value).unwrap(), line);
        }
    }
}
