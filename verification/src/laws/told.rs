//! Laws of what is told to people and to programs.

use vstd::prelude::*;
use vstd::utf8::{decode_utf8, valid_utf8};

use crate::download::DownloadProgress;
use crate::json::{list_text, numbers_are_listed_as_numerals, object_text, Field};
use crate::outside::json_text;
use crate::prepare::PrepareResult;
use crate::proto::{ContentManifestMetadata, FileMapping};
use crate::report::{
    content_shown, depot_fields, depot_lines, files_are_listed_in_order, no_fields, percent_is_due,
    progress_is_due, DepotPlan, DownloadPlan, Log, LogMode,
};
use crate::text::{decimal, hex_text, joined, prefixed_hex, right_aligned, signed_decimal};

verus! {

/// A line for programs is an object of `fields`; one for people is `human`.
pub open spec fn tells(log: &Log, line: Seq<char>, fields: Seq<Field>, human: Seq<char>) -> bool {
    &&& log.mode == LogMode::Json ==> line == object_text(fields)
    &&& log.mode == LogMode::Human ==> line == human
}

/// The line on the CMs tells how many there are.
pub proof fn servers_are_counted(log: &Log, count: usize, line: String)
    requires
        call_ensures(Log::cm_servers, (log, count), line),
    ensures
        tells(
            log,
            line@,
            seq![
                ("count"@, decimal(count as nat)),
                ("type"@, json_text("cm_servers"@)),
            ],
            "CM servers: "@ + decimal(count as nat) + " found"@,
        ),
{
    let fields: Seq<Field> = seq![
        ("count"@, decimal(count as nat)),
        ("type"@, json_text("cm_servers"@)),
    ];
    assert(no_fields()
        .push(("count"@, decimal(count as nat)))
        .push(("type"@, json_text("cm_servers"@))) =~= fields);
}

/// The line on a connection tells which CM it goes to.
pub proof fn endpoint_is_told(log: &Log, endpoint: &str, line: String)
    requires
        call_ensures(Log::connecting, (log, endpoint), line),
    ensures
        tells(
            log,
            line@,
            seq![
                ("endpoint"@, json_text(endpoint@)),
                ("type"@, json_text("connecting"@)),
            ],
            "Connecting to "@ + endpoint@ + "..."@,
        ),
{
    let fields: Seq<Field> = seq![
        ("endpoint"@, json_text(endpoint@)),
        ("type"@, json_text("connecting"@)),
    ];
    assert(no_fields()
        .push(("endpoint"@, json_text(endpoint@)))
        .push(("type"@, json_text("connecting"@))) =~= fields);
}

/// The line on a logon tells how it was made and every field of the session.
pub proof fn session_is_told(
    log: &Log,
    mode: &str,
    steam_id: u64,
    session_id: i32,
    cell_id: u32,
    heartbeat: i32,
    line: String,
)
    requires
        call_ensures(Log::login, (log, mode, steam_id, session_id, cell_id, heartbeat), line),
    ensures
        tells(
            log,
            line@,
            seq![
                ("cell_id"@, decimal(cell_id as nat)),
                ("heartbeat_seconds"@, signed_decimal(heartbeat as int)),
                ("mode"@, json_text(mode@)),
                ("session_id"@, signed_decimal(session_id as int)),
                ("steam_id"@, decimal(steam_id as nat)),
                ("type"@, json_text("login"@)),
            ],
            "Logged in "@ + mode@ + "!\n  steam_id:          "@ + decimal(steam_id as nat)
                + "\n  session_id:        "@ + signed_decimal(session_id as int)
                + "\n  cell_id:           "@ + decimal(cell_id as nat)
                + "\n  heartbeat_seconds: "@ + signed_decimal(heartbeat as int),
        ),
{
    let fields: Seq<Field> = seq![
        ("cell_id"@, decimal(cell_id as nat)),
        ("heartbeat_seconds"@, signed_decimal(heartbeat as int)),
        ("mode"@, json_text(mode@)),
        ("session_id"@, signed_decimal(session_id as int)),
        ("steam_id"@, decimal(steam_id as nat)),
        ("type"@, json_text("login"@)),
    ];
    assert(no_fields()
        .push(("cell_id"@, decimal(cell_id as nat)))
        .push(("heartbeat_seconds"@, signed_decimal(heartbeat as int)))
        .push(("mode"@, json_text(mode@)))
        .push(("session_id"@, signed_decimal(session_id as int)))
        .push(("steam_id"@, decimal(steam_id as nat)))
        .push(("type"@, json_text("login"@))) =~= fields);
}

/// The line on an app tells its number, its change number and its content, of
/// which programs get the length.
pub proof fn app_is_told(log: &Log, appid: u32, change_number: u32, buffer: &[u8], line: String)
    requires
        call_ensures(Log::app_info, (log, appid, change_number, buffer), line),
    ensures
        tells(
            log,
            line@,
            seq![
                ("app_id"@, decimal(appid as nat)),
                ("buffer_len"@, decimal(buffer@.len())),
                ("change_number"@, decimal(change_number as nat)),
                ("type"@, json_text("app_info"@)),
            ],
            "\n[app "@ + decimal(appid as nat) + "] change_number="@
                + decimal(change_number as nat) + "\n"@ + content_shown(buffer@),
        ),
{
    let fields: Seq<Field> = seq![
        ("app_id"@, decimal(appid as nat)),
        ("buffer_len"@, decimal(buffer@.len())),
        ("change_number"@, decimal(change_number as nat)),
        ("type"@, json_text("app_info"@)),
    ];
    assert(no_fields()
        .push(("app_id"@, decimal(appid as nat)))
        .push(("buffer_len"@, decimal(buffer@.len())))
        .push(("change_number"@, decimal(change_number as nat)))
        .push(("type"@, json_text("app_info"@))) =~= fields);
}

/// The line on a package tells its number, its change number and the length of
/// its content.
pub proof fn package_is_told(
    log: &Log,
    packageid: u32,
    change_number: u32,
    buffer_len: usize,
    line: String,
)
    requires
        call_ensures(Log::package_info, (log, packageid, change_number, buffer_len), line),
    ensures
        tells(
            log,
            line@,
            seq![
                ("buffer_len"@, decimal(buffer_len as nat)),
                ("change_number"@, decimal(change_number as nat)),
                ("package_id"@, decimal(packageid as nat)),
                ("type"@, json_text("package_info"@)),
            ],
            "\n[package "@ + decimal(packageid as nat) + "] change_number="@
                + decimal(change_number as nat) + " ("@ + decimal(buffer_len as nat) + " bytes)"@,
        ),
{
    let fields: Seq<Field> = seq![
        ("buffer_len"@, decimal(buffer_len as nat)),
        ("change_number"@, decimal(change_number as nat)),
        ("package_id"@, decimal(packageid as nat)),
        ("type"@, json_text("package_info"@)),
    ];
    assert(no_fields()
        .push(("buffer_len"@, decimal(buffer_len as nat)))
        .push(("change_number"@, decimal(change_number as nat)))
        .push(("package_id"@, decimal(packageid as nat)))
        .push(("type"@, json_text("package_info"@))) =~= fields);
}

/// The line on a key tells it in hexadecimal.
pub proof fn key_is_told(log: &Log, depot_id: u32, app_id: u32, key: &[u8], line: String)
    requires
        call_ensures(Log::depot_key, (log, depot_id, app_id, key), line),
    ensures
        tells(
            log,
            line@,
            seq![
                ("app_id"@, decimal(app_id as nat)),
                ("depot_id"@, decimal(depot_id as nat)),
                ("key"@, json_text(hex_text(key@))),
                ("type"@, json_text("depot_key"@)),
            ],
            "  depot_encryption_key: "@ + hex_text(key@),
        ),
{
    let fields: Seq<Field> = seq![
        ("app_id"@, decimal(app_id as nat)),
        ("depot_id"@, decimal(depot_id as nat)),
        ("key"@, json_text(hex_text(key@))),
        ("type"@, json_text("depot_key"@)),
    ];
    assert(no_fields()
        .push(("app_id"@, decimal(app_id as nat)))
        .push(("depot_id"@, decimal(depot_id as nat)))
        .push(("key"@, json_text(hex_text(key@))))
        .push(("type"@, json_text("depot_key"@))) =~= fields);
}

/// The line on a plan that is made tells the app, the system and the branch.
pub proof fn planned_app_is_told(log: &Log, app_id: u32, os: &str, branch: &str, line: String)
    requires
        call_ensures(Log::plan_start, (log, app_id, os, branch), line),
    ensures
        tells(
            log,
            line@,
            seq![
                ("app_id"@, decimal(app_id as nat)),
                ("branch"@, json_text(branch@)),
                ("os"@, json_text(os@)),
                ("type"@, json_text("plan_start"@)),
            ],
            "\nPreparing download plan for app "@ + decimal(app_id as nat) + " (os="@ + os@
                + ", branch="@ + branch@ + ")..."@,
        ),
{
    let fields: Seq<Field> = seq![
        ("app_id"@, decimal(app_id as nat)),
        ("branch"@, json_text(branch@)),
        ("os"@, json_text(os@)),
        ("type"@, json_text("plan_start"@)),
    ];
    assert(no_fields()
        .push(("app_id"@, decimal(app_id as nat)))
        .push(("branch"@, json_text(branch@)))
        .push(("os"@, json_text(os@)))
        .push(("type"@, json_text("plan_start"@))) =~= fields);
}

/// The line on the content servers tells how many there are.
pub proof fn content_servers_are_counted(log: &Log, count: usize, line: String)
    requires
        call_ensures(Log::cdn_servers, (log, count), line),
    ensures
        tells(
            log,
            line@,
            seq![
                ("count"@, decimal(count as nat)),
                ("type"@, json_text("cdn_servers"@)),
            ],
            "  CDN servers: "@ + decimal(count as nat) + " available"@,
        ),
{
    let fields: Seq<Field> = seq![
        ("count"@, decimal(count as nat)),
        ("type"@, json_text("cdn_servers"@)),
    ];
    assert(no_fields()
        .push(("count"@, decimal(count as nat)))
        .push(("type"@, json_text("cdn_servers"@))) =~= fields);
}

/// The line on a tree that is prepared tells where it is.
pub proof fn install_directory_is_told(
    log: &Log,
    app_id: u32,
    depot_id: u32,
    install_dir: &str,
    line: String,
)
    requires
        call_ensures(Log::prepare, (log, app_id, depot_id, install_dir), line),
    ensures
        tells(
            log,
            line@,
            seq![
                ("app_id"@, decimal(app_id as nat)),
                ("depot_id"@, decimal(depot_id as nat)),
                ("install_dir"@, json_text(install_dir@)),
                ("type"@, json_text("prepare"@)),
            ],
            "\n    Preparing directory tree in "@ + install_dir@ + "..."@,
        ),
{
    let fields: Seq<Field> = seq![
        ("app_id"@, decimal(app_id as nat)),
        ("depot_id"@, decimal(depot_id as nat)),
        ("install_dir"@, json_text(install_dir@)),
        ("type"@, json_text("prepare"@)),
    ];
    assert(no_fields()
        .push(("app_id"@, decimal(app_id as nat)))
        .push(("depot_id"@, decimal(depot_id as nat)))
        .push(("install_dir"@, json_text(install_dir@)))
        .push(("type"@, json_text("prepare"@))) =~= fields);
}

/// The line on a tree that was prepared tells what was created.
pub proof fn what_was_created_is_told(
    log: &Log,
    app_id: u32,
    depot_id: u32,
    r: &PrepareResult,
    line: String,
)
    requires
        call_ensures(Log::prepared, (log, app_id, depot_id, r), line),
    ensures
        tells(
            log,
            line@,
            seq![
                ("app_id"@, decimal(app_id as nat)),
                ("bytes_total"@, decimal(r.total_bytes as nat)),
                ("depot_id"@, decimal(depot_id as nat)),
                ("dirs_created"@, decimal(r.dirs_created as nat)),
                ("files_created"@, decimal(r.files_created as nat)),
                ("symlinks_created"@, decimal(r.symlinks_created as nat)),
                ("type"@, json_text("prepared"@)),
            ],
            "    Created "@ + decimal(r.dirs_created as nat) + " dirs, "@
                + decimal(r.files_created as nat) + " files, "@
                + decimal(r.symlinks_created as nat) + " symlinks ("@
                + decimal(r.total_bytes as nat) + " bytes total)"@,
        ),
{
    let fields: Seq<Field> = seq![
        ("app_id"@, decimal(app_id as nat)),
        ("bytes_total"@, decimal(r.total_bytes as nat)),
        ("depot_id"@, decimal(depot_id as nat)),
        ("dirs_created"@, decimal(r.dirs_created as nat)),
        ("files_created"@, decimal(r.files_created as nat)),
        ("symlinks_created"@, decimal(r.symlinks_created as nat)),
        ("type"@, json_text("prepared"@)),
    ];
    assert(no_fields()
        .push(("app_id"@, decimal(app_id as nat)))
        .push(("bytes_total"@, decimal(r.total_bytes as nat)))
        .push(("depot_id"@, decimal(depot_id as nat)))
        .push(("dirs_created"@, decimal(r.dirs_created as nat)))
        .push(("files_created"@, decimal(r.files_created as nat)))
        .push(("symlinks_created"@, decimal(r.symlinks_created as nat)))
        .push(("type"@, json_text("prepared"@))) =~= fields);
}

/// The line on a download tells how far it is.
pub proof fn how_far_it_is_is_told(
    log: &Log,
    app_id: u32,
    depot_id: u32,
    bytes_total: u64,
    p: &DownloadProgress,
    pct: u32,
    line: String,
)
    requires
        call_ensures(Log::progress, (log, app_id, depot_id, bytes_total, p, pct), line),
    ensures
        tells(
            log,
            line@,
            seq![
                ("app_id"@, decimal(app_id as nat)),
                ("bytes_downloaded"@, decimal(p.bytes_downloaded as nat)),
                ("bytes_total"@, decimal(bytes_total as nat)),
                ("depot_id"@, decimal(depot_id as nat)),
                ("pct"@, decimal(pct as nat)),
                ("type"@, json_text("progress"@)),
            ],
            "\r    chunks: "@ + decimal(p.chunks_done as nat) + "/"@
                + decimal(p.chunks_total as nat) + "  bytes: "@
                + decimal(p.bytes_downloaded as nat),
        ),
{
    let fields: Seq<Field> = seq![
        ("app_id"@, decimal(app_id as nat)),
        ("bytes_downloaded"@, decimal(p.bytes_downloaded as nat)),
        ("bytes_total"@, decimal(bytes_total as nat)),
        ("depot_id"@, decimal(depot_id as nat)),
        ("pct"@, decimal(pct as nat)),
        ("type"@, json_text("progress"@)),
    ];
    assert(no_fields()
        .push(("app_id"@, decimal(app_id as nat)))
        .push(("bytes_downloaded"@, decimal(p.bytes_downloaded as nat)))
        .push(("bytes_total"@, decimal(bytes_total as nat)))
        .push(("depot_id"@, decimal(depot_id as nat)))
        .push(("pct"@, decimal(pct as nat)))
        .push(("type"@, json_text("progress"@))) =~= fields);
}

/// The line on the end of a download tells what it brought.
pub proof fn end_of_a_download_is_told(
    log: &Log,
    app_id: u32,
    depot_id: u32,
    r: &DownloadProgress,
    line: String,
)
    requires
        call_ensures(Log::download_complete, (log, app_id, depot_id, r), line),
    ensures
        tells(
            log,
            line@,
            seq![
                ("app_id"@, decimal(app_id as nat)),
                ("bytes_downloaded"@, decimal(r.bytes_downloaded as nat)),
                ("chunks_done"@, decimal(r.chunks_done as nat)),
                ("depot_id"@, decimal(depot_id as nat)),
                ("type"@, json_text("complete"@)),
            ],
            "    Download complete: "@ + decimal(r.chunks_done as nat) + " chunks, "@
                + decimal(r.bytes_downloaded as nat) + " bytes downloaded"@,
        ),
{
    let fields: Seq<Field> = seq![
        ("app_id"@, decimal(app_id as nat)),
        ("bytes_downloaded"@, decimal(r.bytes_downloaded as nat)),
        ("chunks_done"@, decimal(r.chunks_done as nat)),
        ("depot_id"@, decimal(depot_id as nat)),
        ("type"@, json_text("complete"@)),
    ];
    assert(no_fields()
        .push(("app_id"@, decimal(app_id as nat)))
        .push(("bytes_downloaded"@, decimal(r.bytes_downloaded as nat)))
        .push(("chunks_done"@, decimal(r.chunks_done as nat)))
        .push(("depot_id"@, decimal(depot_id as nat)))
        .push(("type"@, json_text("complete"@))) =~= fields);
}

/// The last line tells that the connection is over.
pub proof fn end_of_the_connection_is_told(log: &Log, line: String)
    requires
        call_ensures(Log::disconnected, (log,), line),
    ensures
        tells(
            log,
            line@,
            seq![
                ("type"@, json_text("disconnected"@)),
            ],
            "\nDisconnected."@,
        ),
{
    let fields: Seq<Field> = seq![
        ("type"@, json_text("disconnected"@)),
    ];
    assert(no_fields().push(("type"@, json_text("disconnected"@))) =~= fields);
}

/// The line on an error tells it as it is.
pub proof fn error_is_told(log: &Log, msg: &str, line: String)
    requires
        call_ensures(Log::error, (log, msg), line),
    ensures
        tells(
            log,
            line@,
            seq![
                ("msg"@, json_text(msg@)),
                ("type"@, json_text("error"@)),
            ],
            "  Error: "@ + msg@,
        ),
{
    let fields: Seq<Field> = seq![
        ("msg"@, json_text(msg@)),
        ("type"@, json_text("error"@)),
    ];
    assert(no_fields()
        .push(("msg"@, json_text(msg@)))
        .push(("type"@, json_text("error"@))) =~= fields);
}

/// The line on a manifest tells what it says of itself; what it leaves out
/// counts as zero.
pub proof fn manifest_is_told(
    log: &Log,
    app_id: u32,
    depot_id: u32,
    request_code: u64,
    meta: &ContentManifestMetadata,
    file_count: usize,
    line: String,
    compressed: u64,
    original: u64,
    created: u32,
    gid: u64,
    chunks: u32,
    depot: u32,
)
    requires
        call_ensures(Log::manifest, (log, app_id, depot_id, request_code, meta, file_count), line),
        meta.cb_disk_compressed == Some(compressed) || meta.cb_disk_compressed is None && compressed
            == 0,
        meta.cb_disk_original == Some(original) || meta.cb_disk_original is None && original == 0,
        meta.creation_time == Some(created) || meta.creation_time is None && created == 0,
        meta.gid_manifest == Some(gid) || meta.gid_manifest is None && gid == 0,
        meta.unique_chunks == Some(chunks) || meta.unique_chunks is None && chunks == 0,
        meta.depot_id == Some(depot) || meta.depot_id is None && depot == 0,
    ensures
        tells(
            log,
            line@,
            seq![
                ("app_id"@, decimal(app_id as nat)),
                ("bytes_compressed"@, decimal(compressed as nat)),
                ("bytes_original"@, decimal(original as nat)),
                ("creation_time"@, decimal(created as nat)),
                ("depot_id"@, decimal(depot_id as nat)),
                ("files"@, decimal(file_count as nat)),
                ("gid_manifest"@, decimal(gid as nat)),
                ("type"@, json_text("manifest"@)),
                ("unique_chunks"@, decimal(chunks as nat)),
            ],
            "\n  depot "@ + decimal(depot_id as nat) + "  request_code="@ + decimal(
                request_code as nat,
            ) + "\n    depot_id="@ + decimal(depot as nat) + " gid_manifest="@ + decimal(gid as nat)
                + " creation_time="@ + decimal(created as nat) + "\n    files="@ + decimal(
                file_count as nat,
            ) + " unique_chunks="@ + decimal(chunks as nat) + "\n    disk_original="@ + decimal(
                original as nat,
            ) + " disk_compressed="@ + decimal(compressed as nat),
        ),
{
    let fields: Seq<Field> = seq![
        ("app_id"@, decimal(app_id as nat)),
        ("bytes_compressed"@, decimal(compressed as nat)),
        ("bytes_original"@, decimal(original as nat)),
        ("creation_time"@, decimal(created as nat)),
        ("depot_id"@, decimal(depot_id as nat)),
        ("files"@, decimal(file_count as nat)),
        ("gid_manifest"@, decimal(gid as nat)),
        ("type"@, json_text("manifest"@)),
        ("unique_chunks"@, decimal(chunks as nat)),
    ];
    assert(no_fields().push(("app_id"@, decimal(app_id as nat))).push(
        ("bytes_compressed"@, decimal(compressed as nat)),
    ).push(("bytes_original"@, decimal(original as nat))).push(
        ("creation_time"@, decimal(created as nat)),
    ).push(("depot_id"@, decimal(depot_id as nat))).push(("files"@, decimal(file_count as nat))).push(
        ("gid_manifest"@, decimal(gid as nat)),
    ).push(("type"@, json_text("manifest"@))).push(("unique_chunks"@, decimal(chunks as nat)))
        =~= fields);
}

/// A depot of a plan, for programs.
pub open spec fn depot_for_programs(depot: DepotPlan) -> Seq<char> {
    object_text(
        seq![
            (
                "depot_from_app"@,
                match depot.depot_from_app {
                    Some(app) => decimal(app as nat),
                    None => "null"@,
                },
            ),
            ("depot_id"@, decimal(depot.depot_id as nat)),
            ("key"@, json_text(hex_text(depot.key@))),
            ("manifest_id"@, decimal(depot.manifest_id as nat)),
        ],
    )
}

/// A depot of a plan, for people.
pub open spec fn depot_for_people(depot: DepotPlan) -> Seq<char> {
    "  depot "@ + right_aligned(decimal(depot.depot_id as nat), 7) + "  manifest "@ + right_aligned(
        decimal(depot.manifest_id as nat),
        20,
    ) + "  key="@ + hex_text(depot.key@) + match depot.depot_from_app {
        Some(app) => "  (depotfromapp="@ + decimal(app as nat) + ")"@,
        None => Seq::empty(),
    }
}

/// The head of a plan of `n` depots, for people.
pub open spec fn plan_head(n: nat) -> Seq<char> {
    "  "@ + decimal(n) + " depot(s) resolved:\n"@
}

/// A plan without depots says so, whatever was granted.
pub proof fn empty_plan_is_told(log: &Log, plan: &DownloadPlan, text: String)
    requires
        call_ensures(Log::plan, (log, plan), text),
        plan.plans@.len() == 0,
    ensures
        tells(
            log,
            text@,
            seq![("app_id"@, decimal(plan.app_id as nat)), ("type"@, json_text("plan_empty"@))],
            "  No depots found"@,
        ),
{
    let fields: Seq<Field> = seq![
        ("app_id"@, decimal(plan.app_id as nat)),
        ("type"@, json_text("plan_empty"@)),
    ];
    assert(no_fields().push(("app_id"@, decimal(plan.app_id as nat))).push(
        ("type"@, json_text("plan_empty"@)),
    ) =~= fields);
}

/// Where nothing was granted, programs are told of every depot in its order.
pub proof fn programs_are_told_of_every_depot(log: &Log, plan: &DownloadPlan, text: String)
    requires
        call_ensures(Log::plan, (log, plan), text),
        log.mode == LogMode::Json,
        plan.plans@.len() > 0,
        plan.granted_appids@.len() == 0,
        plan.granted_packageids@.len() == 0,
    ensures
        text@ == object_text(
            seq![
                ("app_id"@, decimal(plan.app_id as nat)),
                (
                    "depots"@,
                    list_text(plan.plans@.map_values(|depot: DepotPlan| depot_for_programs(depot))),
                ),
                ("type"@, json_text("plan"@)),
            ],
        ),
{
    let told = plan.plans@.map_values(|depot: DepotPlan| depot_for_programs(depot));
    let texts = plan.plans@.map_values(|depot: DepotPlan| object_text(depot_fields(depot)));
    assert forall|i: int| 0 <= i < told.len() implies told[i] == #[trigger] texts[i] by {
        let depot = plan.plans@[i];
        let fields: Seq<Field> = seq![
            (
                "depot_from_app"@,
                match depot.depot_from_app {
                    Some(app) => decimal(app as nat),
                    None => "null"@,
                },
            ),
            ("depot_id"@, decimal(depot.depot_id as nat)),
            ("key"@, json_text(hex_text(depot.key@))),
            ("manifest_id"@, decimal(depot.manifest_id as nat)),
        ];
        assert(depot_fields(depot) =~= fields);
    }
    assert(told =~= texts);
    let fields: Seq<Field> = seq![
        ("app_id"@, decimal(plan.app_id as nat)),
        ("depots"@, list_text(texts)),
        ("type"@, json_text("plan"@)),
    ];
    assert(no_fields().push(("app_id"@, decimal(plan.app_id as nat))).push(
        ("depots"@, list_text(texts)),
    ).push(("type"@, json_text("plan"@))) =~= fields);
}

/// People are told of one depot below the head of the plan.
pub proof fn people_are_told_of_one_depot(log: &Log, plan: &DownloadPlan, text: String)
    requires
        call_ensures(Log::plan, (log, plan), text),
        log.mode == LogMode::Human,
        plan.plans@.len() == 1,
        plan.granted_appids@.len() == 0,
        plan.granted_packageids@.len() == 0,
    ensures
        text@ == plan_head(1) + "\n"@ + depot_for_people(plan.plans@[0]),
{
    reveal_with_fuel(depot_lines, 2);
    assert(plan.plans@.drop_last() =~= Seq::<DepotPlan>::empty());
    assert(text@ =~= plan_head(1) + "\n"@ + depot_for_people(plan.plans@[0]));
}

/// A plan of one more depot tells people of that depot below the others.
pub proof fn people_are_told_of_one_more_depot(
    log: &Log,
    plan: &DownloadPlan,
    longer: &DownloadPlan,
    depot: DepotPlan,
    text: String,
    more: String,
)
    requires
        call_ensures(Log::plan, (log, plan), text),
        call_ensures(Log::plan, (log, longer), more),
        log.mode == LogMode::Human,
        plan.plans@.len() > 0,
        longer.plans@ == plan.plans@.push(depot),
        plan.granted_appids@.len() == 0,
        plan.granted_packageids@.len() == 0,
        longer.granted_appids@.len() == 0,
        longer.granted_packageids@.len() == 0,
    ensures
        plan_head(plan.plans@.len()).is_prefix_of(text@),
        more@ == plan_head(plan.plans@.len() + 1) + text@.skip(
            plan_head(plan.plans@.len()).len() as int,
        ) + "\n"@ + depot_for_people(depot),
{
    assert(longer.plans@.drop_last() =~= plan.plans@);
    let head = plan_head(plan.plans@.len());
    assert(text@ =~= head + depot_lines(plan.plans@));
    assert(text@.skip(head.len() as int) =~= depot_lines(plan.plans@));
    assert(head =~= text@.take(head.len() as int));
    assert(more@ =~= plan_head(plan.plans@.len() + 1) + depot_lines(plan.plans@) + "\n"@
        + depot_for_people(depot));
}

/// What was granted is told in a line of its own before the depots.
pub proof fn granted_licenses_are_told_first(
    log: &Log,
    plan: &DownloadPlan,
    other: &DownloadPlan,
    text: String,
    rest: String,
)
    requires
        call_ensures(Log::plan, (log, plan), text),
        call_ensures(Log::plan, (log, other), rest),
        plan.plans@.len() > 0,
        plan.granted_appids@.len() > 0 || plan.granted_packageids@.len() > 0,
        other.app_id == plan.app_id,
        other.plans == plan.plans,
        other.granted_appids@.len() == 0,
        other.granted_packageids@.len() == 0,
    ensures
        log.mode == LogMode::Human ==> text@ == "  Free license granted: apps=["@ + joined(
            plan.granted_appids@,
            ", "@,
        ) + "] packages=["@ + joined(plan.granted_packageids@, ", "@) + "]"@ + "\n"@ + rest@,
        log.mode == LogMode::Json ==> text@ == object_text(
            seq![
                ("app_id"@, decimal(plan.app_id as nat)),
                (
                    "granted_appids"@,
                    list_text(plan.granted_appids@.map_values(|number: u32| decimal(number as nat))),
                ),
                (
                    "granted_packageids"@,
                    list_text(
                        plan.granted_packageids@.map_values(|number: u32| decimal(number as nat)),
                    ),
                ),
                ("type"@, json_text("license_granted"@)),
            ],
        ) + "\n"@ + rest@,
{
    numbers_are_listed_as_numerals(plan.granted_appids@);
    numbers_are_listed_as_numerals(plan.granted_packageids@);
    let apps = list_text(plan.granted_appids@.map_values(|number: u32| decimal(number as nat)));
    let packages = list_text(
        plan.granted_packageids@.map_values(|number: u32| decimal(number as nat)),
    );
    let fields: Seq<Field> = seq![
        ("app_id"@, decimal(plan.app_id as nat)),
        ("granted_appids"@, apps),
        ("granted_packageids"@, packages),
        ("type"@, json_text("license_granted"@)),
    ];
    assert(no_fields().push(("app_id"@, decimal(plan.app_id as nat))).push(
        ("granted_appids"@, apps),
    ).push(("granted_packageids"@, packages)).push(("type"@, json_text("license_granted"@)))
        =~= fields);
}

/// Up to a hundred files are listed for people, of more the first twenty, each
/// with its size, its chunks, its flags and its name; programs get no list.
pub proof fn files_are_told_in_order(
    log: &Log,
    mappings: &[FileMapping],
    lines: Vec<String>,
    i: int,
    size: u64,
    flags: u32,
)
    requires
        call_ensures(Log::file_listing, (log, mappings), lines),
        0 <= i < mappings@.len() ==> mappings@[i].size == Some(size) || mappings@[i].size is None
            && size == 0,
        0 <= i < mappings@.len() ==> mappings@[i].flags == Some(flags) || mappings@[i].flags is None
            && flags == 0,
    ensures
        log.mode == LogMode::Json || mappings@.len() == 0 ==> lines@.len() == 0,
        log.mode == LogMode::Human && 0 <= i < mappings@.len() ==> {
            let line = "      "@ + right_aligned(decimal(size as nat), 12) + "  "@ + right_aligned(
                decimal(mappings@[i].chunks@.len()),
                3,
            ) + " chunk(s)  flags="@ + prefixed_hex(flags as nat) + "  "@
                + match mappings@[i].filename {
                Some(name) => name@,
                None => "?"@,
            };
            if mappings@.len() <= 100 {
                lines@.len() == mappings@.len() && lines@[i]@ == line
            } else {
                &&& lines@.len() == 22
                &&& lines@[0]@ == "    (showing first "@ + decimal(20) + " of "@ + decimal(
                    mappings@.len(),
                ) + " files)"@
                &&& i < 20 ==> lines@[i + 1]@ == line
                &&& lines@[21]@ == "      ..."@
            }
        },
{
    let told = lines@.map_values(|line: String| line@);
    assert(told.len() == lines@.len());
    if log.mode == LogMode::Human && 0 <= i < mappings@.len() {
        files_are_listed_in_order(mappings@, i);
        if mappings@.len() <= 100 {
            assert(told[i] == lines@[i]@);
        } else {
            assert(told[0] == lines@[0]@);
            assert(told[21] == lines@[21]@);
            if i < 20 {
                assert(told[i + 1] == lines@[i + 1]@);
            }
        }
    }
}

/// The content of an app is shown where it is text, and counted where not.
pub proof fn content_is_shown_or_counted(
    log: &Log,
    appid: u32,
    change_number: u32,
    buffer: &[u8],
    line: String,
)
    requires
        call_ensures(Log::app_info, (log, appid, change_number, buffer), line),
        log.mode == LogMode::Human,
    ensures
        line@ == "\n[app "@ + decimal(appid as nat) + "] change_number="@ + decimal(
            change_number as nat,
        ) + "\n"@ + if valid_utf8(buffer@) {
            decode_utf8(buffer@)
        } else {
            "  ("@ + decimal(buffer@.len()) + " bytes, non-utf8)"@
        },
{
}

/// Programs are not told that a download begins; people are.
pub proof fn begin_of_a_download_is_told(log: &Log, cdn_count: usize, line: Option<String>)
    requires
        call_ensures(Log::download_start, (log, cdn_count), line),
    ensures
        line is None <==> log.mode == LogMode::Json,
        line is Some ==> line->0@ == "    Downloading chunks ("@ + decimal(cdn_count as nat)
            + " CDN servers in pool)..."@,
{
}

/// A log has the mode that it was made with.
pub proof fn log_keeps_its_mode(mode: LogMode, log: &Log, json: bool)
    requires
        call_ensures(Log::new, (mode,), *log),
        call_ensures(Log::json, (log,), json),
    ensures
        log.mode == mode,
        json <==> mode == LogMode::Json,
{
}

/// Programs are told of a percentage whenever it is more than the last one.
/// People are told at the end, and else four times a second at most.
pub proof fn progress_is_told_now_and_again(
    last: u32,
    pct: u32,
    p: &DownloadProgress,
    elapsed_millis: u64,
    first: bool,
    next: bool,
    due: bool,
)
    requires
        call_ensures(percent_is_due, (None, pct), first),
        call_ensures(percent_is_due, (Some(last), pct), next),
        call_ensures(progress_is_due, (p, elapsed_millis), due),
    ensures
        first,
        next <==> last < pct,
        due <==> p.chunks_done == p.chunks_total || 250 <= elapsed_millis,
{
}

} // verus!
