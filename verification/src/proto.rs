//! The protocol messages, as plain values.

use vstd::prelude::*;

verus! {

/// One chunk of a file.
#[derive(Debug, Clone, Default)]
pub struct ChunkData {
    pub sha: Option<Vec<u8>>,
    pub crc: Option<u32>,
    pub offset: Option<u64>,
    pub cb_original: Option<u32>,
    pub cb_compressed: Option<u32>,
}

/// One file, directory or symlink of a depot.
#[derive(Debug, Clone, Default)]
pub struct FileMapping {
    pub filename: Option<String>,
    pub size: Option<u64>,
    pub flags: Option<u32>,
    pub sha_filename: Option<Vec<u8>>,
    pub sha_content: Option<Vec<u8>>,
    pub chunks: Vec<ChunkData>,
    pub linktarget: Option<String>,
}

/// The files of a depot.
#[derive(Debug, Clone, Default)]
pub struct ContentManifestPayload {
    pub mappings: Vec<FileMapping>,
}

/// What a manifest says of itself.
#[derive(Debug, Clone, Default)]
pub struct ContentManifestMetadata {
    pub depot_id: Option<u32>,
    pub gid_manifest: Option<u64>,
    pub creation_time: Option<u32>,
    pub filenames_encrypted: Option<bool>,
    pub cb_disk_original: Option<u64>,
    pub cb_disk_compressed: Option<u64>,
    pub unique_chunks: Option<u32>,
    pub crc_encrypted: Option<u32>,
    pub crc_clear: Option<u32>,
}

/// The signature of a manifest.
#[derive(Debug, Clone, Default)]
pub struct ContentManifestSignature {
    pub signature: Option<Vec<u8>>,
}

/// The header fields of a CM message that this library reads or writes.
#[derive(Debug, Clone, Default)]
pub struct CMsgProtoBufHeader {
    pub steamid: Option<u64>,
    pub client_sessionid: Option<i32>,
    pub jobid_source: Option<u64>,
    pub jobid_target: Option<u64>,
    pub target_job_name: Option<String>,
    pub eresult: Option<i32>,
}

/// A [`CMsgProtoBufHeader`] over mathematical values.
pub struct HeaderView {
    pub steamid: Option<u64>,
    pub client_sessionid: Option<i32>,
    pub jobid_source: Option<u64>,
    pub jobid_target: Option<u64>,
    pub target_job_name: Option<Seq<char>>,
    pub eresult: Option<i32>,
}

impl View for CMsgProtoBufHeader {
    type V = HeaderView;

    open spec fn view(&self) -> HeaderView {
        HeaderView {
            steamid: self.steamid,
            client_sessionid: self.client_sessionid,
            jobid_source: self.jobid_source,
            jobid_target: self.jobid_target,
            target_job_name: text_of(self.target_job_name),
            eresult: self.eresult,
        }
    }
}

/// A header with no field set.
pub open spec fn empty_header() -> HeaderView {
    HeaderView {
        steamid: None,
        client_sessionid: None,
        jobid_source: None,
        jobid_target: None,
        target_job_name: None,
        eresult: None,
    }
}

impl CMsgProtoBufHeader {
    /// A header with no field set.
    pub fn empty() -> (h: CMsgProtoBufHeader)
        ensures
            h@ == empty_header(),
    {
        CMsgProtoBufHeader {
            steamid: None,
            client_sessionid: None,
            jobid_source: None,
            jobid_target: None,
            target_job_name: None,
            eresult: None,
        }
    }
}

/// The characters of an optional string.
pub open spec fn text_of(s: Option<String>) -> Option<Seq<char>> {
    match s {
        Some(text) => Some(text@),
        None => None,
    }
}

/// The items of an optional vector.
pub open spec fn items_of<T>(v: Option<Vec<T>>) -> Option<Seq<T>> {
    match v {
        Some(items) => Some(items@),
        None => None,
    }
}

/// `value`, or `fallback` where there is none.
pub open spec fn value_or<T>(value: Option<T>, fallback: T) -> T {
    match value {
        Some(v) => v,
        None => fallback,
    }
}

/// The optional string, or the empty one.
pub fn text_or_empty(s: Option<String>) -> (r: String)
    ensures
        r@ == value_or(text_of(s), Seq::empty()),
{
    match s {
        Some(text) => text,
        None => String::new(),
    }
}

/// The optional vector, or the empty one.
pub fn items_or_empty<T>(v: Option<Vec<T>>) -> (r: Vec<T>)
    ensures
        r@ == value_or(items_of(v), Seq::empty()),
{
    match v {
        Some(items) => items,
        None => Vec::new(),
    }
}

} // verus!
