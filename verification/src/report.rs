//! What the user is told: lines for people, or lines of JSON for programs.

use vstd::prelude::*;
use vstd::utf8::{
    decode_utf8, encode_utf8, encode_utf8_decode_utf8, encode_utf8_valid_utf8, valid_utf8,
};

use crate::download::DownloadProgress;
use crate::json::{list, list_text, number_list_text, object_text, Field, JsonObject};
use crate::outside::{json_text, text_from_utf8};
use crate::prepare::PrepareResult;
use crate::proto::{text_of, value_or, ContentManifestMetadata, FileMapping};
use crate::text::{
    counted, decimal, hex_encode, hex_text, joined, prefixed_hex, push_aligned,
    push_decimal, push_joined, push_prefixed_hex, push_signed, right_aligned, signed_decimal,
};
use crate::wire::copy_range;

verus! {

/// Whom the lines are for.
#[derive(Debug, Clone, Copy, PartialEq, Eq, Structural)]
pub enum LogMode {
    Human,
    Json,
}

/// Writes the lines. Each method gives what is to be printed, without the line
/// break at its end.
#[derive(Debug, Clone, Copy)]
pub struct Log {
    pub mode: LogMode,
}

/// A depot that is to be downloaded.
#[derive(Debug, Clone)]
pub struct DepotPlan {
    pub depot_id: u32,
    pub manifest_id: u64,
    pub key: Vec<u8>,
    pub depot_from_app: Option<u32>,
}

/// What is to be downloaded for an app.
#[derive(Debug, Clone)]
pub struct DownloadPlan {
    pub app_id: u32,
    pub plans: Vec<DepotPlan>,
    pub granted_appids: Vec<u32>,
    pub granted_packageids: Vec<u32>,
}

/// No fields.
pub open spec fn no_fields() -> Seq<Field> {
    Seq::empty()
}

/// The object with these fields, or the line for people.
pub open spec fn line_for(mode: LogMode, fields: Seq<Field>, human: Seq<char>) -> Seq<char> {
    match mode {
        LogMode::Json => object_text(fields),
        LogMode::Human => human,
    }
}

/// The type of a line, as a field.
pub open spec fn type_field(name: Seq<char>) -> Field {
    ("type"@, json_text(name))
}

/// A number, as a field.
pub open spec fn number_field(key: Seq<char>, n: nat) -> Field {
    (key, decimal(n))
}

/// What the content of an app's product info is shown as: its text, or its
/// length where it is not text.
pub open spec fn content_shown(buffer: Seq<u8>) -> Seq<char> {
    if valid_utf8(buffer) {
        decode_utf8(buffer)
    } else {
        "  ("@ + decimal(buffer.len()) + " bytes, non-utf8)"@
    }
}

/// Lines for programs are the object, lines for people are the words; content
/// that is text is shown as it is.
pub proof fn lines_follow_the_mode(fields: Seq<Field>, human: Seq<char>, text: Seq<char>)
    ensures
        line_for(LogMode::Json, fields, human) == object_text(fields),
        line_for(LogMode::Human, fields, human) == human,
        content_shown(encode_utf8(text)) == text,
{
    encode_utf8_valid_utf8(text);
    encode_utf8_decode_utf8(text);
}

impl Log {
    /// A writer for `mode`.
    pub fn new(mode: LogMode) -> (log: Log)
        ensures
            log.mode == mode,
    {
        Log { mode }
    }

    /// Whether the lines are JSON.
    pub fn json(&self) -> (r: bool)
        ensures
            r == (self.mode == LogMode::Json),
    {
        self.mode == LogMode::Json
    }

    /// How many CMs there are.
    pub fn cm_servers(&self, count: usize) -> (line: String)
        ensures
            line@ == line_for(
                self.mode,
                no_fields().push(number_field("count"@, count as nat)).push(
                    type_field("cm_servers"@),
                ),
                "CM servers: "@ + decimal(count as nat) + " found"@,
            ),
    {
        if self.json() {
            let mut object: JsonObject = JsonObject::new();
            object.number("count", count as u64);
            object.text("type", "cm_servers");
            object.line()
        } else {
            counted("CM servers: ", count as u64, " found")
        }
    }

    /// Which CM is connected to.
    pub fn connecting(&self, endpoint: &str) -> (line: String)
        ensures
            line@ == line_for(
                self.mode,
                no_fields().push(("endpoint"@, json_text(endpoint@))).push(
                    type_field("connecting"@),
                ),
                "Connecting to "@ + endpoint@ + "..."@,
            ),
    {
        if self.json() {
            let mut object: JsonObject = JsonObject::new();
            object.text("endpoint", endpoint);
            object.text("type", "connecting");
            object.line()
        } else {
            let mut line: String = "Connecting to ".to_string();
            line.append(endpoint);
            line.append("...");
            line
        }
    }

    /// Who is logged on.
    pub fn login(
        &self,
        mode: &str,
        steam_id: u64,
        session_id: i32,
        cell_id: u32,
        heartbeat: i32,
    ) -> (line: String)
        ensures
            line@ == line_for(
                self.mode,
                no_fields().push(number_field("cell_id"@, cell_id as nat)).push(
                    ("heartbeat_seconds"@, signed_decimal(heartbeat as int)),
                ).push(("mode"@, json_text(mode@))).push(
                    ("session_id"@, signed_decimal(session_id as int)),
                ).push(number_field("steam_id"@, steam_id as nat)).push(type_field("login"@)),
                "Logged in "@ + mode@ + "!\n  steam_id:          "@ + decimal(steam_id as nat)
                    + "\n  session_id:        "@ + signed_decimal(session_id as int)
                    + "\n  cell_id:           "@ + decimal(cell_id as nat)
                    + "\n  heartbeat_seconds: "@ + signed_decimal(heartbeat as int),
            ),
    {
        if self.json() {
            let mut object: JsonObject = JsonObject::new();
            object.number("cell_id", cell_id as u64);
            object.signed("heartbeat_seconds", heartbeat as i64);
            object.text("mode", mode);
            object.signed("session_id", session_id as i64);
            object.number("steam_id", steam_id);
            object.text("type", "login");
            object.line()
        } else {
            let mut line: String = "Logged in ".to_string();
            line.append(mode);
            line.append("!\n  steam_id:          ");
            push_decimal(&mut line, steam_id);
            line.append("\n  session_id:        ");
            push_signed(&mut line, session_id as i64);
            line.append("\n  cell_id:           ");
            push_decimal(&mut line, cell_id as u64);
            line.append("\n  heartbeat_seconds: ");
            push_signed(&mut line, heartbeat as i64);
            line
        }
    }

    /// The product info of an app; for people, with its content.
    pub fn app_info(&self, appid: u32, change_number: u32, buffer: &[u8]) -> (line: String)
        ensures
            line@ == line_for(
                self.mode,
                no_fields().push(number_field("app_id"@, appid as nat)).push(
                    number_field("buffer_len"@, buffer@.len()),
                ).push(number_field("change_number"@, change_number as nat)).push(
                    type_field("app_info"@),
                ),
                "\n[app "@ + decimal(appid as nat) + "] change_number="@ + decimal(
                    change_number as nat,
                ) + "\n"@ + content_shown(buffer@),
            ),
    {
        if self.json() {
            let mut object: JsonObject = JsonObject::new();
            object.number("app_id", appid as u64);
            object.number("buffer_len", buffer.len() as u64);
            object.number("change_number", change_number as u64);
            object.text("type", "app_info");
            object.line()
        } else {
            let mut line: String = counted("\n[app ", appid as u64, "] change_number=");
            push_decimal(&mut line, change_number as u64);
            line.append("\n");
            let bytes: Vec<u8> = copy_range(buffer, 0, buffer.len());
            assert(bytes@ =~= buffer@);
            match text_from_utf8(bytes) {
                Ok(text) => line.append(text.as_str()),
                Err(_) => line.append(
                    counted("  (", buffer.len() as u64, " bytes, non-utf8)").as_str(),
                ),
            }
            line
        }
    }

    /// The product info of a package.
    pub fn package_info(&self, packageid: u32, change_number: u32, buffer_len: usize) -> (line:
        String)
        ensures
            line@ == line_for(
                self.mode,
                no_fields().push(number_field("buffer_len"@, buffer_len as nat)).push(
                    number_field("change_number"@, change_number as nat),
                ).push(number_field("package_id"@, packageid as nat)).push(
                    type_field("package_info"@),
                ),
                "\n[package "@ + decimal(packageid as nat) + "] change_number="@ + decimal(
                    change_number as nat,
                ) + " ("@ + decimal(buffer_len as nat) + " bytes)"@,
            ),
    {
        if self.json() {
            let mut object: JsonObject = JsonObject::new();
            object.number("buffer_len", buffer_len as u64);
            object.number("change_number", change_number as u64);
            object.number("package_id", packageid as u64);
            object.text("type", "package_info");
            object.line()
        } else {
            let mut line: String = counted("\n[package ", packageid as u64, "] change_number=");
            push_decimal(&mut line, change_number as u64);
            line.append(" (");
            push_decimal(&mut line, buffer_len as u64);
            line.append(" bytes)");
            line
        }
    }

    /// The key of a depot.
    pub fn depot_key(&self, depot_id: u32, app_id: u32, key: &[u8]) -> (line: String)
        ensures
            line@ == line_for(
                self.mode,
                no_fields().push(number_field("app_id"@, app_id as nat)).push(
                    number_field("depot_id"@, depot_id as nat),
                ).push(("key"@, json_text(hex_text(key@)))).push(type_field("depot_key"@)),
                "  depot_encryption_key: "@ + hex_text(key@),
            ),
    {
        let hex: String = hex_encode(key);
        if self.json() {
            let mut object: JsonObject = JsonObject::new();
            object.number("app_id", app_id as u64);
            object.number("depot_id", depot_id as u64);
            object.text("key", hex.as_str());
            object.text("type", "depot_key");
            object.line()
        } else {
            let mut line: String = "  depot_encryption_key: ".to_string();
            line.append(hex.as_str());
            line
        }
    }

    /// Which app a plan is made for.
    pub fn plan_start(&self, app_id: u32, os: &str, branch: &str) -> (line: String)
        ensures
            line@ == line_for(
                self.mode,
                no_fields().push(number_field("app_id"@, app_id as nat)).push(
                    ("branch"@, json_text(branch@)),
                ).push(("os"@, json_text(os@))).push(type_field("plan_start"@)),
                "\nPreparing download plan for app "@ + decimal(app_id as nat) + " (os="@ + os@
                    + ", branch="@ + branch@ + ")..."@,
            ),
    {
        if self.json() {
            let mut object: JsonObject = JsonObject::new();
            object.number("app_id", app_id as u64);
            object.text("branch", branch);
            object.text("os", os);
            object.text("type", "plan_start");
            object.line()
        } else {
            let mut line: String = counted(
                "\nPreparing download plan for app ",
                app_id as u64,
                " (os=",
            );
            line.append(os);
            line.append(", branch=");
            line.append(branch);
            line.append(")...");
            line
        }
    }

    /// How many CDN servers there are.
    pub fn cdn_servers(&self, count: usize) -> (line: String)
        ensures
            line@ == line_for(
                self.mode,
                no_fields().push(number_field("count"@, count as nat)).push(
                    type_field("cdn_servers"@),
                ),
                "  CDN servers: "@ + decimal(count as nat) + " available"@,
            ),
    {
        if self.json() {
            let mut object: JsonObject = JsonObject::new();
            object.number("count", count as u64);
            object.text("type", "cdn_servers");
            object.line()
        } else {
            counted("  CDN servers: ", count as u64, " available")
        }
    }

    /// Where a directory tree is prepared.
    pub fn prepare(&self, app_id: u32, depot_id: u32, install_dir: &str) -> (line: String)
        ensures
            line@ == line_for(
                self.mode,
                no_fields().push(number_field("app_id"@, app_id as nat)).push(
                    number_field("depot_id"@, depot_id as nat),
                ).push(("install_dir"@, json_text(install_dir@))).push(type_field("prepare"@)),
                "\n    Preparing directory tree in "@ + install_dir@ + "..."@,
            ),
    {
        if self.json() {
            let mut object: JsonObject = JsonObject::new();
            object.number("app_id", app_id as u64);
            object.number("depot_id", depot_id as u64);
            object.text("install_dir", install_dir);
            object.text("type", "prepare");
            object.line()
        } else {
            let mut line: String = "\n    Preparing directory tree in ".to_string();
            line.append(install_dir);
            line.append("...");
            line
        }
    }

    /// What preparing a directory tree came to.
    pub fn prepared(&self, app_id: u32, depot_id: u32, r: &PrepareResult) -> (line: String)
        ensures
            line@ == line_for(
                self.mode,
                no_fields().push(number_field("app_id"@, app_id as nat)).push(
                    number_field("bytes_total"@, r.total_bytes as nat),
                ).push(number_field("depot_id"@, depot_id as nat)).push(
                    number_field("dirs_created"@, r.dirs_created as nat),
                ).push(number_field("files_created"@, r.files_created as nat)).push(
                    number_field("symlinks_created"@, r.symlinks_created as nat),
                ).push(type_field("prepared"@)),
                "    Created "@ + decimal(r.dirs_created as nat) + " dirs, "@ + decimal(
                    r.files_created as nat,
                ) + " files, "@ + decimal(r.symlinks_created as nat) + " symlinks ("@ + decimal(
                    r.total_bytes as nat,
                ) + " bytes total)"@,
            ),
    {
        if self.json() {
            let mut object: JsonObject = JsonObject::new();
            object.number("app_id", app_id as u64);
            object.number("bytes_total", r.total_bytes);
            object.number("depot_id", depot_id as u64);
            object.number("dirs_created", r.dirs_created);
            object.number("files_created", r.files_created);
            object.number("symlinks_created", r.symlinks_created);
            object.text("type", "prepared");
            object.line()
        } else {
            let mut line: String = counted("    Created ", r.dirs_created, " dirs, ");
            push_decimal(&mut line, r.files_created);
            line.append(" files, ");
            push_decimal(&mut line, r.symlinks_created);
            line.append(" symlinks (");
            push_decimal(&mut line, r.total_bytes);
            line.append(" bytes total)");
            line
        }
    }

    /// That a download begins; programs are not told.
    pub fn download_start(&self, cdn_count: usize) -> (line: Option<String>)
        ensures
            match line {
                Some(text) => self.mode == LogMode::Human && text@ == "    Downloading chunks ("@
                    + decimal(cdn_count as nat) + " CDN servers in pool)..."@,
                None => self.mode == LogMode::Json,
            },
    {
        if self.json() {
            None
        } else {
            Some(
                counted("    Downloading chunks (", cdn_count as u64, " CDN servers in pool)..."),
            )
        }
    }

    /// How far a download is, of which `pct` percent are done.
    pub fn progress(
        &self,
        app_id: u32,
        depot_id: u32,
        bytes_total: u64,
        p: &DownloadProgress,
        pct: u32,
    ) -> (line: String)
        ensures
            line@ == line_for(
                self.mode,
                no_fields().push(number_field("app_id"@, app_id as nat)).push(
                    number_field("bytes_downloaded"@, p.bytes_downloaded as nat),
                ).push(number_field("bytes_total"@, bytes_total as nat)).push(
                    number_field("depot_id"@, depot_id as nat),
                ).push(number_field("pct"@, pct as nat)).push(type_field("progress"@)),
                "\r    chunks: "@ + decimal(p.chunks_done as nat) + "/"@ + decimal(
                    p.chunks_total as nat,
                ) + "  bytes: "@ + decimal(p.bytes_downloaded as nat),
            ),
    {
        if self.json() {
            let mut object: JsonObject = JsonObject::new();
            object.number("app_id", app_id as u64);
            object.number("bytes_downloaded", p.bytes_downloaded);
            object.number("bytes_total", bytes_total);
            object.number("depot_id", depot_id as u64);
            object.number("pct", pct as u64);
            object.text("type", "progress");
            object.line()
        } else {
            let mut line: String = counted("\r    chunks: ", p.chunks_done, "/");
            push_decimal(&mut line, p.chunks_total);
            line.append("  bytes: ");
            push_decimal(&mut line, p.bytes_downloaded);
            line
        }
    }

    /// That a download is complete.
    pub fn download_complete(&self, app_id: u32, depot_id: u32, r: &DownloadProgress) -> (line:
        String)
        ensures
            line@ == line_for(
                self.mode,
                no_fields().push(number_field("app_id"@, app_id as nat)).push(
                    number_field("bytes_downloaded"@, r.bytes_downloaded as nat),
                ).push(number_field("chunks_done"@, r.chunks_done as nat)).push(
                    number_field("depot_id"@, depot_id as nat),
                ).push(type_field("complete"@)),
                "    Download complete: "@ + decimal(r.chunks_done as nat) + " chunks, "@ + decimal(
                    r.bytes_downloaded as nat,
                ) + " bytes downloaded"@,
            ),
    {
        if self.json() {
            let mut object: JsonObject = JsonObject::new();
            object.number("app_id", app_id as u64);
            object.number("bytes_downloaded", r.bytes_downloaded);
            object.number("chunks_done", r.chunks_done);
            object.number("depot_id", depot_id as u64);
            object.text("type", "complete");
            object.line()
        } else {
            let mut line: String = counted("    Download complete: ", r.chunks_done, " chunks, ");
            push_decimal(&mut line, r.bytes_downloaded);
            line.append(" bytes downloaded");
            line
        }
    }

    /// That the connection is closed.
    pub fn disconnected(&self) -> (line: String)
        ensures
            line@ == line_for(
                self.mode,
                no_fields().push(type_field("disconnected"@)),
                "\nDisconnected."@,
            ),
    {
        if self.json() {
            let mut object: JsonObject = JsonObject::new();
            object.text("type", "disconnected");
            object.line()
        } else {
            "\nDisconnected.".to_string()
        }
    }

    /// That something failed.
    pub fn error(&self, msg: &str) -> (line: String)
        ensures
            line@ == line_for(
                self.mode,
                no_fields().push(("msg"@, json_text(msg@))).push(type_field("error"@)),
                "  Error: "@ + msg@,
            ),
    {
        if self.json() {
            let mut object: JsonObject = JsonObject::new();
            object.text("msg", msg);
            object.text("type", "error");
            object.line()
        } else {
            let mut line: String = "  Error: ".to_string();
            line.append(msg);
            line
        }
    }
}

/// A depot of a plan, as an object.
pub open spec fn depot_fields(depot: DepotPlan) -> Seq<Field> {
    no_fields().push(
        (
            "depot_from_app"@,
            match depot.depot_from_app {
                Some(app) => decimal(app as nat),
                None => "null"@,
            },
        ),
    ).push(number_field("depot_id"@, depot.depot_id as nat)).push(
        ("key"@, json_text(hex_text(depot.key@))),
    ).push(number_field("manifest_id"@, depot.manifest_id as nat))
}

/// A depot of a plan, for people.
pub open spec fn depot_line(depot: DepotPlan) -> Seq<char> {
    "  depot "@ + right_aligned(decimal(depot.depot_id as nat), 7) + "  manifest "@ + right_aligned(
        decimal(depot.manifest_id as nat),
        20,
    ) + "  key="@ + hex_text(depot.key@) + match depot.depot_from_app {
        Some(app) => "  (depotfromapp="@ + decimal(app as nat) + ")"@,
        None => Seq::empty(),
    }
}

/// The depots of a plan, each on a line of its own.
pub open spec fn depot_lines(depots: Seq<DepotPlan>) -> Seq<char>
    decreases depots.len(),
{
    if depots.len() == 0 {
        Seq::empty()
    } else {
        depot_lines(depots.drop_last()) + "\n"@ + depot_line(depots.last())
    }
}

/// What the user is told of the free licenses of a plan.
pub open spec fn license_line(mode: LogMode, plan: DownloadPlan) -> Seq<char> {
    line_for(
        mode,
        no_fields().push(number_field("app_id"@, plan.app_id as nat)).push(
            ("granted_appids"@, number_list_text(plan.granted_appids@)),
        ).push(("granted_packageids"@, number_list_text(plan.granted_packageids@))).push(
            type_field("license_granted"@),
        ),
        "  Free license granted: apps=["@ + joined(plan.granted_appids@, ", "@) + "] packages=["@
            + joined(plan.granted_packageids@, ", "@) + "]"@,
    )
}

/// What the user is told of the depots of a plan.
pub open spec fn depots_line(mode: LogMode, plan: DownloadPlan) -> Seq<char> {
    line_for(
        mode,
        no_fields().push(number_field("app_id"@, plan.app_id as nat)).push(
            (
                "depots"@,
                list_text(
                    plan.plans@.map_values(|depot: DepotPlan| object_text(depot_fields(depot))),
                ),
            ),
        ).push(type_field("plan"@)),
        "  "@ + decimal(plan.plans@.len()) + " depot(s) resolved:\n"@ + depot_lines(plan.plans@),
    )
}

/// What the user is told of a plan: that it is empty; or which free licenses
/// were granted for it, if any, and its depots.
pub open spec fn plan_text(mode: LogMode, plan: DownloadPlan) -> Seq<char> {
    if plan.plans@.len() == 0 {
        line_for(
            mode,
            no_fields().push(number_field("app_id"@, plan.app_id as nat)).push(
                type_field("plan_empty"@),
            ),
            "  No depots found"@,
        )
    } else if plan.granted_appids@.len() > 0 || plan.granted_packageids@.len() > 0 {
        license_line(mode, plan) + "\n"@ + depots_line(mode, plan)
    } else {
        depots_line(mode, plan)
    }
}

/// A plan without depots is told as empty. Any other is told with all its
/// depots, each on a line of its own for people, in their order; and with the
/// free licenses on a line before them, exactly where some were granted.
pub proof fn plan_is_told_in_full(mode: LogMode, plan: DownloadPlan, depot: DepotPlan)
    ensures
        plan.plans@.len() > 0 && plan.granted_appids@.len() == 0 && plan.granted_packageids@.len()
            == 0 ==> plan_text(mode, plan) == depots_line(mode, plan),
        plan.plans@.len() > 0 && (plan.granted_appids@.len() > 0 || plan.granted_packageids@.len()
            > 0) ==> plan_text(mode, plan) == license_line(mode, plan) + seq!['\n'] + depots_line(
            mode,
            plan,
        ),
        mode == LogMode::Human ==> depots_line(mode, plan).len() >= depot_lines(plan.plans@).len()
            && depots_line(mode, plan).skip(
            depots_line(mode, plan).len() - depot_lines(plan.plans@).len(),
        ) == depot_lines(plan.plans@),
        depot_lines(plan.plans@.push(depot)) == depot_lines(plan.plans@) + seq!['\n'] + depot_line(
            depot,
        ),
        depot_lines(Seq::empty()).len() == 0,
{
    reveal_strlit("\n");
    assert("\n"@ =~= seq!['\n']);
    assert(plan.plans@.push(depot).drop_last() =~= plan.plans@);
    if mode == LogMode::Human {
        let line = depots_line(mode, plan);
        assert(line.skip(line.len() - depot_lines(plan.plans@).len()) =~= depot_lines(plan.plans@));
    }
}

/// The line of a depot tells its number, its manifest, its key in hexadecimal
/// and, where it is another app's, that app: each depends on its own field.
pub proof fn depot_line_tells_every_field(depot: DepotPlan)
    ensures
        ({
            let own = DepotPlan { depot_from_app: None, ..depot };
            &&& depot.depot_from_app matches Some(app) ==> depot_line(depot) == depot_line(own)
                + "  (depotfromapp="@ + decimal(app as nat) + seq![')']
            &&& depot_line(own).len() >= 2 * depot.key@.len()
            &&& depot_line(own).skip(depot_line(own).len() - 2 * depot.key@.len()) == hex_text(
                depot.key@,
            )
        }),
        ({
            let fields = depot_fields(depot);
            &&& fields.len() == 4
            &&& fields[0].1 == match depot.depot_from_app {
                Some(app) => decimal(app as nat),
                None => seq!['n', 'u', 'l', 'l'],
            }
            &&& fields[1].1 == decimal(depot.depot_id as nat)
            &&& fields[2].1 == json_text(hex_text(depot.key@))
            &&& fields[3].1 == decimal(depot.manifest_id as nat)
        }),
{
    reveal_strlit("null");
    reveal_strlit(")");
    assert("null"@ =~= seq!['n', 'u', 'l', 'l']);
    let own = DepotPlan { depot_from_app: None, ..depot };
    let line = depot_line(own);
    assert(line.skip(line.len() - 2 * depot.key@.len()) =~= hex_text(depot.key@));
    if let Some(app) = depot.depot_from_app {
        assert(depot_line(depot) =~= line + "  (depotfromapp="@ + decimal(app as nat) + seq![')']);
    }
}

fn depot_object(depot: &DepotPlan) -> (line: String)
    ensures
        line@ == object_text(depot_fields(*depot)),
{
    let mut object: JsonObject = JsonObject::new();
    match depot.depot_from_app {
        Some(app) => object.number("depot_from_app", app as u64),
        None => object.raw("depot_from_app", "null".to_string()),
    }
    object.number("depot_id", depot.depot_id as u64);
    object.text("key", hex_encode(depot.key.as_slice()).as_str());
    object.number("manifest_id", depot.manifest_id);
    object.line()
}

fn push_depot_line(out: &mut String, depot: &DepotPlan)
    ensures
        final(out)@ == old(out)@ + depot_line(*depot),
{
    out.append("  depot ");
    push_aligned(out, depot.depot_id as u64, 7);
    out.append("  manifest ");
    push_aligned(out, depot.manifest_id, 20);
    out.append("  key=");
    out.append(hex_encode(depot.key.as_slice()).as_str());
    match depot.depot_from_app {
        Some(app) => {
            out.append("  (depotfromapp=");
            push_decimal(out, app as u64);
            out.append(")");
        },
        None => {},
    }
    assert(out@ =~= old(out)@ + depot_line(*depot));
}

/// How a file of a manifest is shown.
pub open spec fn file_line(mapping: FileMapping) -> Seq<char> {
    "      "@ + right_aligned(decimal(value_or(mapping.size, 0) as nat), 12) + "  "@ + right_aligned(
        decimal(mapping.chunks@.len()),
        3,
    ) + " chunk(s)  flags="@ + prefixed_hex(value_or(mapping.flags, 0) as nat) + "  "@ + value_or(
        text_of(mapping.filename),
        "?"@,
    )
}

/// How many files of a manifest are shown: all up to 100, else the first 20.
pub open spec fn files_shown(total: nat) -> nat {
    if total <= 100 {
        total
    } else {
        20
    }
}

/// The lines that show the files of a manifest.
pub open spec fn listing_lines(mappings: Seq<FileMapping>) -> Seq<Seq<char>> {
    let shown = files_shown(mappings.len());
    let files = mappings.take(shown as int).map_values(|mapping: FileMapping| file_line(mapping));
    if mappings.len() > shown {
        seq![
            "    (showing first "@ + decimal(shown) + " of "@ + decimal(mappings.len())
                + " files)"@,
        ] + files + seq!["      ..."@]
    } else {
        files
    }
}

/// Up to a hundred files are all shown, one line each and in their order; of
/// more only the first twenty are, between a line that says so and one that
/// ends the list. The line of a file ends in its name.
pub proof fn files_are_listed_in_order(mappings: Seq<FileMapping>, i: int)
    requires
        0 <= i < mappings.len(),
    ensures
        mappings.len() <= 100 ==> listing_lines(mappings).len() == mappings.len() && listing_lines(
            mappings,
        )[i] == file_line(mappings[i]),
        mappings.len() > 100 ==> listing_lines(mappings).len() == 22 && (i < 20 ==> listing_lines(
            mappings,
        )[i + 1] == file_line(mappings[i])),
        mappings[i].filename matches Some(name) ==> file_line(mappings[i]).len() >= name@.len()
            && file_line(mappings[i]).skip(file_line(mappings[i]).len() - name@.len()) == name@,
{
    let line = file_line(mappings[i]);
    if let Some(name) = mappings[i].filename {
        assert(line.skip(line.len() - name@.len()) =~= name@);
    }
}

fn show_file(mapping: &FileMapping) -> (line: String)
    ensures
        line@ == file_line(*mapping),
{
    let mut line: String = "      ".to_string();
    let size: u64 = match mapping.size {
        Some(size) => size,
        None => 0,
    };
    let flags: u32 = match mapping.flags {
        Some(flags) => flags,
        None => 0,
    };
    push_aligned(&mut line, size, 12);
    line.append("  ");
    push_aligned(&mut line, mapping.chunks.len() as u64, 3);
    line.append(" chunk(s)  flags=");
    push_prefixed_hex(&mut line, flags);
    line.append("  ");
    match &mapping.filename {
        Some(name) => line.append(name.as_str()),
        None => line.append("?"),
    }
    line
}

impl Log {
    /// What is to be downloaded.
    pub fn plan(&self, plan: &DownloadPlan) -> (text: String)
        ensures
            text@ == plan_text(self.mode, *plan),
    {
        if plan.plans.len() == 0 {
            if self.json() {
                let mut object: JsonObject = JsonObject::new();
                object.number("app_id", plan.app_id as u64);
                object.text("type", "plan_empty");
                return object.line();
            }
            return "  No depots found".to_string();
        }
        let depots: String = self.plan_depots(plan);
        if plan.granted_appids.len() > 0 || plan.granted_packageids.len() > 0 {
            let mut text: String = self.license_granted(plan);
            text.append("\n");
            text.append(depots.as_str());
            text
        } else {
            depots
        }
    }

    fn license_granted(&self, plan: &DownloadPlan) -> (line: String)
        ensures
            line@ == license_line(self.mode, *plan),
    {
        if self.json() {
            let mut object: JsonObject = JsonObject::new();
            object.number("app_id", plan.app_id as u64);
            object.numbers("granted_appids", plan.granted_appids.as_slice());
            object.numbers("granted_packageids", plan.granted_packageids.as_slice());
            object.text("type", "license_granted");
            object.line()
        } else {
            let mut line: String = "  Free license granted: apps=[".to_string();
            push_joined(&mut line, plan.granted_appids.as_slice(), ", ");
            line.append("] packages=[");
            push_joined(&mut line, plan.granted_packageids.as_slice(), ", ");
            line.append("]");
            line
        }
    }

    fn plan_depots(&self, plan: &DownloadPlan) -> (text: String)
        ensures
            text@ == depots_line(self.mode, *plan),
    {
        let ghost depots = plan.plans@;
        if self.json() {
            let mut objects: Vec<String> = Vec::new();
            let ghost shown = |depot: DepotPlan| object_text(depot_fields(depot));
            for i in 0..plan.plans.len()
                invariant
                    objects@.len() == i,
                    forall|j: int|
                        0 <= j < i ==> (#[trigger] objects@[j])@ == object_text(
                            depot_fields(plan.plans@[j]),
                        ),
            {
                objects.push(depot_object(&plan.plans[i]));
            }
            assert(objects@.map_values(|item: String| item@) =~= depots.map_values(shown));
            let mut object: JsonObject = JsonObject::new();
            object.number("app_id", plan.app_id as u64);
            object.raw("depots", list(&objects));
            object.text("type", "plan");
            object.line()
        } else {
            let mut text: String = counted("  ", plan.plans.len() as u64, " depot(s) resolved:\n");
            let ghost head = text@;
            assert(text@ =~= head + depot_lines(depots.take(0)));
            for i in 0..plan.plans.len()
                invariant
                    depots == plan.plans@,
                    text@ == head + depot_lines(depots.take(i as int)),
            {
                proof {
                    assert(depots.take(i + 1).drop_last() =~= depots.take(i as int));
                    assert(depots.take(i + 1).last() == depots[i as int]);
                }
                text.append("\n");
                push_depot_line(&mut text, &plan.plans[i]);
                assert(text@ =~= head + depot_lines(depots.take(i + 1)));
            }
            assert(depots.take(depots.len() as int) =~= depots);
            text
        }
    }

    /// What a manifest says of itself, and how many files it has.
    pub fn manifest(
        &self,
        app_id: u32,
        depot_id: u32,
        request_code: u64,
        meta: &ContentManifestMetadata,
        file_count: usize,
    ) -> (text: String)
        ensures
            text@ == line_for(
                self.mode,
                no_fields().push(number_field("app_id"@, app_id as nat)).push(
                    number_field("bytes_compressed"@, value_or(meta.cb_disk_compressed, 0) as nat),
                ).push(
                    number_field("bytes_original"@, value_or(meta.cb_disk_original, 0) as nat),
                ).push(
                    number_field("creation_time"@, value_or(meta.creation_time, 0) as nat),
                ).push(number_field("depot_id"@, depot_id as nat)).push(
                    number_field("files"@, file_count as nat),
                ).push(number_field("gid_manifest"@, value_or(meta.gid_manifest, 0) as nat)).push(
                    type_field("manifest"@),
                ).push(number_field("unique_chunks"@, value_or(meta.unique_chunks, 0) as nat)),
                "\n  depot "@ + decimal(depot_id as nat) + "  request_code="@ + decimal(
                    request_code as nat,
                ) + "\n    depot_id="@ + decimal(value_or(meta.depot_id, 0) as nat)
                    + " gid_manifest="@ + decimal(value_or(meta.gid_manifest, 0) as nat)
                    + " creation_time="@ + decimal(value_or(meta.creation_time, 0) as nat)
                    + "\n    files="@ + decimal(file_count as nat) + " unique_chunks="@ + decimal(
                    value_or(meta.unique_chunks, 0) as nat,
                ) + "\n    disk_original="@ + decimal(value_or(meta.cb_disk_original, 0) as nat)
                    + " disk_compressed="@ + decimal(value_or(meta.cb_disk_compressed, 0) as nat),
            ),
    {
        let compressed: u64 = or_zero(meta.cb_disk_compressed);
        let original: u64 = or_zero(meta.cb_disk_original);
        let gid: u64 = or_zero(meta.gid_manifest);
        let created: u32 = or_zero_32(meta.creation_time);
        let chunks: u32 = or_zero_32(meta.unique_chunks);
        if self.json() {
            let mut object: JsonObject = JsonObject::new();
            object.number("app_id", app_id as u64);
            object.number("bytes_compressed", compressed);
            object.number("bytes_original", original);
            object.number("creation_time", created as u64);
            object.number("depot_id", depot_id as u64);
            object.number("files", file_count as u64);
            object.number("gid_manifest", gid);
            object.text("type", "manifest");
            object.number("unique_chunks", chunks as u64);
            object.line()
        } else {
            let mut text: String = counted("\n  depot ", depot_id as u64, "  request_code=");
            push_decimal(&mut text, request_code);
            text.append("\n    depot_id=");
            push_decimal(&mut text, or_zero_32(meta.depot_id) as u64);
            text.append(" gid_manifest=");
            push_decimal(&mut text, gid);
            text.append(" creation_time=");
            push_decimal(&mut text, created as u64);
            text.append("\n    files=");
            push_decimal(&mut text, file_count as u64);
            text.append(" unique_chunks=");
            push_decimal(&mut text, chunks as u64);
            text.append("\n    disk_original=");
            push_decimal(&mut text, original);
            text.append(" disk_compressed=");
            push_decimal(&mut text, compressed);
            text
        }
    }

    /// The files of a manifest, one on each line; programs are not shown them.
    pub fn file_listing(&self, mappings: &[FileMapping]) -> (lines: Vec<String>)
        ensures
            lines@.map_values(|line: String| line@) == match self.mode {
                LogMode::Human => listing_lines(mappings@),
                LogMode::Json => Seq::empty(),
            },
    {
        let mut lines: Vec<String> = Vec::new();
        let ghost view = |line: String| line@;
        assert(lines@.map_values(view) =~= Seq::<Seq<char>>::empty());
        if self.json() {
            return lines;
        }
        let total: usize = mappings.len();
        let shown: usize = if total <= 100 {
            total
        } else {
            20
        };
        if total > shown {
            let mut head: String = counted("    (showing first ", shown as u64, " of ");
            push_decimal(&mut head, total as u64);
            head.append(" files)");
            lines.push(head);
        }
        let ghost head = lines@.map_values(view);
        let ghost files = mappings@.take(shown as int).map_values(
            |mapping: FileMapping| file_line(mapping),
        );
        assert(head + files.take(0) =~= head);
        for i in 0..shown
            invariant
                shown <= total == mappings@.len(),
                view == (|line: String| line@),
                files.len() == shown,
                forall|j: int| 0 <= j < shown ==> #[trigger] files[j] == file_line(mappings@[j]),
                lines@.map_values(view) == head + files.take(i as int),
        {
            let ghost before = lines@;
            let line: String = show_file(&mappings[i]);
            lines.push(line);
            proof {
                assert(files[i as int] == line@);
                assert(lines@.map_values(view) =~= before.map_values(view).push(line@));
                assert(lines@.map_values(view) =~= head + files.take(i + 1));
            }
        }
        assert(files.take(shown as int) =~= files);
        if total > shown {
            let ghost before = lines@;
            lines.push("      ...".to_string());
            proof {
                assert(lines@.map_values(view) =~= before.map_values(view).push("      ..."@));
                assert(lines@.map_values(view) =~= listing_lines(mappings@));
            }
        } else {
            assert(lines@.map_values(view) =~= listing_lines(mappings@));
        }
        lines
    }
}

fn or_zero(n: Option<u64>) -> (r: u64)
    ensures
        r == value_or(n, 0),
{
    match n {
        Some(n) => n,
        None => 0,
    }
}

fn or_zero_32(n: Option<u32>) -> (r: u32)
    ensures
        r == value_or(n, 0),
{
    match n {
        Some(n) => n,
        None => 0,
    }
}

/// Whether programs are told that a download reached `pct` percent, where they
/// were last told of `last`, or of nothing yet: then, and whenever it is more.
pub fn percent_is_due(last: Option<u32>, pct: u32) -> (r: bool)
    ensures
        r == match last {
            None => true,
            Some(n) => pct > n,
        },
{
    match last {
        None => true,
        Some(n) => pct > n,
    }
}

/// Whether people are told how far a download is: at its end, and otherwise
/// where 250 milliseconds have passed since they were last told.
pub fn progress_is_due(p: &DownloadProgress, elapsed_millis: u64) -> (r: bool)
    ensures
        r == (p.chunks_done == p.chunks_total || elapsed_millis >= 250),
{
    p.chunks_done == p.chunks_total || elapsed_millis >= 250
}

} // verus!
