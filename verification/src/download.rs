//! The chunks of a depot: which are to be had, from where, and what became of
//! them.

use vstd::hash_map::StringHashMap;
use vstd::prelude::*;

use crate::cdn::{
    clock_reading, is_best, lasting_token, penalized, penalty_of, CdnPool, CdnServer,
};
use crate::error::{labelled, Error, ErrorView};
use crate::manifest::DepotManifest;
use crate::outside::unix_seconds;
use crate::paths::{
    components, join_path, joined_path, place_of, place_text, places_have_their_own_text, relative_path,
    same_place, PathOptions,
};
use crate::prepare::{
    action_of, is_directory, is_plan_of, is_symlink, plan_covers_every_mapping, ActionView,
    FLAG_DIRECTORY, FLAG_SYMLINK,
};
use crate::proto::{items_of, text_of, value_or, ChunkData, FileMapping};
use crate::text::{decimal, hex_encode, hex_text, push_decimal};

verus! {

/// How often a chunk is tried again.
pub const MAX_RETRIES: u32 = 3;

/// One chunk's work: to be checked on disk, or to be downloaded.
#[derive(Debug, Clone)]
pub struct ChunkJob {
    /// The path of the chunk's file, relative to where the depot is installed.
    pub path: String,
    /// The SHA-1 digest of the content, which also names the chunk on a CDN
    /// server.
    pub sha_hex: String,
    pub crc: u32,
    /// Where the content stands in the file.
    pub offset: u64,
    /// How many bytes of content there are.
    pub original_size: u64,
}

/// A [`ChunkJob`] over mathematical values.
pub struct JobView {
    pub path: Seq<char>,
    pub sha_hex: Seq<char>,
    pub crc: u32,
    pub offset: u64,
    pub original_size: u64,
}

impl View for ChunkJob {
    type V = JobView;

    open spec fn view(&self) -> JobView {
        JobView {
            path: self.path@,
            sha_hex: self.sha_hex@,
            crc: self.crc,
            offset: self.offset,
            original_size: self.original_size,
        }
    }
}

/// The job of a chunk of the file at `path`.
pub open spec fn job_of(path: Seq<char>, chunk: ChunkData) -> JobView {
    JobView {
        path,
        sha_hex: hex_text(value_or(items_of(chunk.sha), Seq::empty())),
        crc: value_or(chunk.crc, 0),
        offset: value_or(chunk.offset, 0),
        original_size: value_or(chunk.cb_original, 0) as u64,
    }
}

/// The jobs of a mapping: one for each chunk of a file that has a name, none
/// for a directory or a symlink.
pub open spec fn mapping_jobs(mapping: FileMapping, options: PathOptions) -> Seq<JobView> {
    match text_of(mapping.filename) {
        Some(name) => if is_directory(mapping) || is_symlink(mapping) {
            Seq::empty()
        } else {
            mapping.chunks@.map_values(
                |chunk: ChunkData| job_of(relative_path(options, name), chunk),
            )
        },
        None => Seq::empty(),
    }
}

/// The jobs of a depot, file by file as the manifest has them.
pub open spec fn depot_jobs(mappings: Seq<FileMapping>, options: PathOptions) -> Seq<JobView>
    decreases mappings.len(),
{
    if mappings.len() == 0 {
        Seq::empty()
    } else {
        depot_jobs(mappings.drop_last(), options) + mapping_jobs(mappings.last(), options)
    }
}

/// Jobs over mathematical values.
pub open spec fn job_views(jobs: Seq<ChunkJob>) -> Seq<JobView> {
    jobs.map_values(|job: ChunkJob| job@)
}

/// Every job writes to a file that the plan of the same manifest creates: the
/// two name it by the same path.
pub proof fn jobs_address_planned_files(
    plan: (Seq<ActionView>, Option<ErrorView>),
    mappings: Seq<FileMapping>,
    options: PathOptions,
    k: int,
)
    requires
        is_plan_of(plan, mappings, options),
        plan.1 is None,
        mappings.len() <= usize::MAX,
        0 <= k < depot_jobs(mappings, options).len(),
    ensures
        exists|a: int|
            0 <= a < plan.0.len() && (#[trigger] plan.0[a]) is File && plan.0[a]->File_path
                == depot_jobs(mappings, options)[k].path,
{
    let i = lemma_job_has_a_mapping(mappings, options, k);
    plan_covers_every_mapping(plan, mappings, options, i);
    let action = action_of(mappings[i], options)->Ok_0->0;
    let a = choose|a: int| 0 <= a < plan.0.len() && plan.0[a] == action;
    assert(plan.0[a] is File);
}

proof fn lemma_job_has_a_mapping(
    mappings: Seq<FileMapping>,
    options: PathOptions,
    k: int,
) -> (i: int)
    requires
        0 <= k < depot_jobs(mappings, options).len(),
    ensures
        0 <= i < mappings.len(),
        mappings[i].filename is Some,
        !is_directory(mappings[i]),
        !is_symlink(mappings[i]),
        depot_jobs(mappings, options)[k].path == relative_path(
            options,
            text_of(mappings[i].filename)->0,
        ),
    decreases mappings.len(),
{
    let fewer = depot_jobs(mappings.drop_last(), options);
    if k < fewer.len() {
        lemma_job_has_a_mapping(mappings.drop_last(), options, k)
    } else {
        mappings.len() - 1
    }
}

/// How many chunks a mapping has to be had: all of them where it has a name
/// and is neither a directory (bit 0x40) nor a symlink (bit 0x200), else none.
pub open spec fn chunks_to_have(mapping: FileMapping) -> nat {
    let flags: u32 = match mapping.flags {
        Some(flags) => flags,
        None => 0,
    };
    if mapping.filename is Some && flags & 0x40 == 0 && flags & 0x200 == 0 {
        mapping.chunks@.len()
    } else {
        0
    }
}

/// How many chunks the mappings have to be had, added up.
pub open spec fn all_chunks_to_have(mappings: Seq<FileMapping>) -> nat
    decreases mappings.len(),
{
    if mappings.len() == 0 {
        0
    } else {
        all_chunks_to_have(mappings.drop_last()) + chunks_to_have(mappings.last())
    }
}

/// `job` is the work of a chunk of the file at `path`: digest, checksum, place
/// and size as the manifest gives them, nothing or zero where it gives none.
pub open spec fn is_work_of(job: ChunkJob, path: Seq<char>, chunk: ChunkData) -> bool {
    &&& job.path@ == path
    &&& match chunk.sha {
        Some(sha) => job.sha_hex@ == hex_text(sha@),
        None => job.sha_hex@.len() == 0,
    }
    &&& match chunk.crc {
        Some(crc) => job.crc == crc,
        None => job.crc == 0,
    }
    &&& match chunk.offset {
        Some(offset) => job.offset == offset,
        None => job.offset == 0,
    }
    &&& match chunk.cb_original {
        Some(size) => job.original_size == size,
        None => job.original_size == 0,
    }
}

/// Nothing is left out: each chunk of each file of the manifest has its job,
/// in its place, for the path at which the plan of the same manifest creates
/// the file; and there are no other jobs.
pub proof fn every_chunk_has_its_job(
    jobs: Seq<ChunkJob>,
    mappings: Seq<FileMapping>,
    options: PathOptions,
    i: int,
    c: int,
)
    requires
        job_views(jobs) == depot_jobs(mappings, options),
        0 <= i < mappings.len(),
        0 <= c < mappings[i].chunks@.len(),
    ensures
        jobs.len() == all_chunks_to_have(mappings),
        action_of(mappings[i], options) matches Ok(Some(ActionView::File { path, .. })) ==> {
            let place = all_chunks_to_have(mappings.take(i)) + c;
            &&& chunks_to_have(mappings[i]) == mappings[i].chunks@.len()
            &&& place < jobs.len()
            &&& is_work_of(jobs[place], path, mappings[i].chunks@[c])
            &&& path == relative_path(options, mappings[i].filename->0@)
        },
        chunks_to_have(mappings[i]) > 0 ==> action_of(mappings[i], options) matches Ok(
            Some(ActionView::File { .. }),
        ),
{
    lemma_job_count(mappings, options);
    assert(jobs.len() == job_views(jobs).len());
    if let Ok(Some(ActionView::File { path, .. })) = action_of(mappings[i], options) {
        let place = all_chunks_to_have(mappings.take(i)) + c;
        lemma_job_in_place(mappings, options, i, c);
        assert(job_views(jobs)[place] == jobs[place]@);
        assert(job_of(path, mappings[i].chunks@[c]).sha_hex == jobs[place].sha_hex@);
    }
}

/// There are as many jobs as there are chunks to be had.
pub proof fn jobs_are_counted(
    jobs: Seq<ChunkJob>,
    mappings: Seq<FileMapping>,
    options: PathOptions,
)
    requires
        job_views(jobs) == depot_jobs(mappings, options),
    ensures
        jobs.len() == all_chunks_to_have(mappings),
{
    lemma_job_count(mappings, options);
    assert(jobs.len() == job_views(jobs).len());
}

proof fn lemma_job_count(mappings: Seq<FileMapping>, options: PathOptions)
    ensures
        depot_jobs(mappings, options).len() == all_chunks_to_have(mappings),
    decreases mappings.len(),
{
    if mappings.len() > 0 {
        lemma_job_count(mappings.drop_last(), options);
    }
}

proof fn lemma_job_in_place(
    mappings: Seq<FileMapping>,
    options: PathOptions,
    i: int,
    c: int,
)
    requires
        0 <= i < mappings.len(),
        0 <= c < chunks_to_have(mappings[i]),
    ensures
        all_chunks_to_have(mappings.take(i)) + c < depot_jobs(mappings, options).len(),
        depot_jobs(mappings, options)[all_chunks_to_have(mappings.take(i)) + c] == job_of(
            relative_path(options, mappings[i].filename->0@),
            mappings[i].chunks@[c],
        ),
    decreases mappings.len(),
{
    let fewer = mappings.drop_last();
    lemma_job_count(fewer, options);
    lemma_job_count(mappings, options);
    if i < fewer.len() {
        lemma_job_in_place(fewer, options, i, c);
        assert(fewer.take(i) =~= mappings.take(i));
    } else {
        assert(mappings.take(i) =~= fewer);
        assert(mapping_jobs(mappings[i], options)[c] == job_of(
            relative_path(options, mappings[i].filename->0@),
            mappings[i].chunks@[c],
        ));
    }
}

fn plan_job(path: &str, chunk: &ChunkData) -> (job: ChunkJob)
    ensures
        job@ == job_of(path@, *chunk),
{
    let sha_hex: String = match &chunk.sha {
        Some(sha) => hex_encode(sha.as_slice()),
        None => {
            let none: Vec<u8> = Vec::new();
            assert(none@ =~= Seq::<u8>::empty());
            hex_encode(none.as_slice())
        },
    };
    ChunkJob {
        path: path.to_string(),
        sha_hex,
        crc: match chunk.crc {
            Some(crc) => crc,
            None => 0,
        },
        offset: match chunk.offset {
            Some(offset) => offset,
            None => 0,
        },
        original_size: match chunk.cb_original {
            Some(size) => size as u64,
            None => 0,
        },
    }
}

/// The jobs of a depot.
pub fn plan_jobs(manifest: &DepotManifest, options: PathOptions) -> (jobs: Vec<ChunkJob>)
    ensures
        job_views(jobs@) == depot_jobs(manifest.payload.mappings@, options),
{
    let ghost mappings = manifest.payload.mappings@;
    let mut jobs: Vec<ChunkJob> = Vec::new();
    assert(job_views(jobs@) =~= depot_jobs(mappings.take(0), options));
    let count: usize = manifest.payload.mappings.len();
    for i in 0..count
        invariant
            count == manifest.payload.mappings@.len(),
            mappings == manifest.payload.mappings@,
            job_views(jobs@) == depot_jobs(mappings.take(i as int), options),
    {
        let mapping: &FileMapping = &manifest.payload.mappings[i];
        let ghost before = job_views(jobs@);
        proof {
            assert(mappings.take(i + 1).drop_last() =~= mappings.take(i as int));
            assert(mappings.take(i + 1).last() == *mapping);
        }
        let flags: u32 = match mapping.flags {
            Some(flags) => flags,
            None => 0,
        };
        let content: bool = flags & FLAG_DIRECTORY == 0 && flags & FLAG_SYMLINK == 0;
        match &mapping.filename {
            Some(filename) => {
                if content {
                    let path: String = options.relative(filename.as_str());
                    let ghost whole = mapping_jobs(*mapping, options);
                    assert(before + whole.take(0) =~= before);
                    for j in 0..mapping.chunks.len()
                        invariant
                            path@ == relative_path(options, filename@),
                            whole.len() == mapping.chunks@.len(),
                            forall|c: int|
                                0 <= c < whole.len() ==> #[trigger] whole[c] == job_of(
                                    path@,
                                    mapping.chunks@[c],
                                ),
                            job_views(jobs@) == before + whole.take(j as int),
                    {
                        let ghost so_far = jobs@;
                        let job: ChunkJob = plan_job(path.as_str(), &mapping.chunks[j]);
                        jobs.push(job);
                        proof {
                            assert(job@ == whole[j as int]);
                            assert(job_views(jobs@) =~= job_views(so_far).push(job@));
                            assert(job_views(jobs@) =~= before + whole.take(j + 1));
                        }
                    }
                    assert(whole.take(whole.len() as int) =~= whole);
                } else {
                    assert(before + Seq::<JobView>::empty() =~= before);
                }
            },
            None => {
                assert(before + Seq::<JobView>::empty() =~= before);
            },
        }
    }
    assert(mappings.take(count as int) =~= mappings);
    jobs
}

/// One of the candidates, in the install directory, is the same place as the
/// path there.
pub open spec fn among(install_dir: Seq<char>, candidates: Seq<String>, path: Seq<char>) -> bool {
    exists|i: int|
        0 <= i < candidates.len() && same_place(
            joined_path(install_dir, #[trigger] candidates[i]@),
            joined_path(install_dir, path),
        )
}

/// For each job, whether its file was kept as it was, so that its chunk may be
/// right on disk already and is to be checked before it is downloaded. Files
/// are told apart by where they are in the install directory.
pub fn jobs_to_check(
    install_dir: &str,
    jobs: &Vec<ChunkJob>,
    candidates: &Vec<String>,
) -> (flags: Vec<bool>)
    ensures
        flags@.len() == jobs@.len(),
        forall|i: int|
            0 <= i < jobs@.len() ==> #[trigger] flags@[i] == among(
                install_dir@,
                candidates@,
                jobs@[i].path@,
            ),
{
    let ghost place_in = |path: Seq<char>| place_text(joined_path(install_dir@, path));
    let mut known: StringHashMap<bool> = StringHashMap::new();
    for i in 0..candidates.len()
        invariant
            place_in == (|path: Seq<char>| place_text(joined_path(install_dir@, path))),
            forall|place: Seq<char>| #[trigger]
                known@.contains_key(place) <==> exists|k: int|
                    0 <= k < i && place_in(#[trigger] candidates@[k]@) == place,
    {
        let ghost before = known@;
        let path: String = join_path(install_dir, candidates[i].as_str());
        known.insert(place_of(path.as_str()), true);
        proof {
            assert forall|place: Seq<char>| #[trigger]
                known@.contains_key(place) <==> exists|k: int|
                0 <= k < i + 1 && place_in(#[trigger] candidates@[k]@) == place by {
                if before.contains_key(place) {
                    let k = choose|k: int|
                        0 <= k < i && place_in(#[trigger] candidates@[k]@) == place;
                    assert(place_in(candidates@[k]@) == place);
                }
                assert(candidates@[i as int]@ == candidates[i as int]@);
            }
        }
    }
    let mut flags: Vec<bool> = Vec::new();
    for j in 0..jobs.len()
        invariant
            place_in == (|path: Seq<char>| place_text(joined_path(install_dir@, path))),
            flags@.len() == j,
            forall|place: Seq<char>| #[trigger]
                known@.contains_key(place) <==> exists|k: int|
                    0 <= k < candidates@.len() && place_in(#[trigger] candidates@[k]@) == place,
            forall|i: int|
                0 <= i < j ==> #[trigger] flags@[i] == among(
                    install_dir@,
                    candidates@,
                    jobs@[i].path@,
                ),
    {
        let path: String = join_path(install_dir, jobs[j].path.as_str());
        let place: String = place_of(path.as_str());
        let found: bool = known.contains_key(place.as_str());
        proof {
            assert forall|k: int| 0 <= k < candidates@.len() implies (place_in(
                #[trigger] candidates@[k]@,
            ) == place@) == same_place(joined_path(install_dir@, candidates@[k]@), path@) by {
                places_have_their_own_text(joined_path(install_dir@, candidates@[k]@), path@);
            }
            assert(found == among(install_dir@, candidates@, jobs@[j as int].path@));
        }
        flags.push(found);
    }
    flags
}

/// Where a CDN server keeps a chunk.
pub open spec fn chunk_location(
    vhost: Seq<char>,
    depot_id: u32,
    sha_hex: Seq<char>,
    token: Option<Seq<char>>,
) -> Seq<char> {
    "https://"@ + vhost + "/depot/"@ + decimal(depot_id as nat) + "/chunk/"@ + sha_hex
        + match token {
        Some(text) => text,
        None => Seq::empty(),
    }
}

/// The address of a chunk is that of its depot on the server, the digest, and
/// the token where there is one; and the address of its depot is where the
/// manifests of the depot are too.
pub proof fn chunk_address_is_made_of_its_parts(
    vhost: Seq<char>,
    depot_id: u32,
    sha_hex: Seq<char>,
    token: Seq<char>,
)
    ensures
        chunk_location(vhost, depot_id, sha_hex, Some(token)) == chunk_location(
            vhost,
            depot_id,
            sha_hex,
            None,
        ) + token,
        chunk_location(vhost, depot_id, sha_hex, None) == chunk_location(
            vhost,
            depot_id,
            Seq::empty(),
            None,
        ) + sha_hex,
        (seq!['h', 't', 't', 'p', 's', ':', '/', '/'] + vhost + seq![
            '/',
            'd',
            'e',
            'p',
            'o',
            't',
            '/',
        ] + decimal(depot_id as nat) + seq!['/', 'c', 'h', 'u', 'n', 'k', '/'])
            == chunk_location(vhost, depot_id, Seq::empty(), None),
{
    reveal_strlit("https://");
    reveal_strlit("/depot/");
    reveal_strlit("/chunk/");
    let start = seq!['h', 't', 't', 'p', 's', ':', '/', '/'];
    let depot = seq!['/', 'd', 'e', 'p', 'o', 't', '/'];
    let chunk = seq!['/', 'c', 'h', 'u', 'n', 'k', '/'];
    assert("https://"@ =~= start);
    assert("/depot/"@ =~= depot);
    assert("/chunk/"@ =~= chunk);
    let front = start + vhost + depot + decimal(depot_id as nat) + chunk;
    assert(chunk_location(vhost, depot_id, sha_hex, None) =~= front + sha_hex);
    assert(chunk_location(vhost, depot_id, sha_hex, Some(token)) =~= front + sha_hex + token);
    assert(chunk_location(vhost, depot_id, Seq::empty(), None) =~= front);
}

/// The address of a chunk on a CDN server, behind which the token goes where
/// there is one.
pub fn chunk_url(
    server: &CdnServer,
    depot_id: u32,
    sha_hex: &str,
    cdn_auth_token: Option<&str>,
) -> (url: String)
    ensures
        url@ == chunk_location(
            server.vhost@,
            depot_id,
            sha_hex@,
            match cdn_auth_token {
                Some(token) => Some(token@),
                None => None,
            },
        ),
{
    let mut url: String = "https://".to_string();
    url.append(server.vhost.as_str());
    url.append("/depot/");
    push_decimal(&mut url, depot_id as u64);
    url.append("/chunk/");
    url.append(sha_hex);
    match cdn_auth_token {
        Some(token) => url.append(token),
        None => {},
    }
    url
}

/// Where to get a chunk from.
pub struct ChunkSource {
    /// The host to blame where that fails.
    pub host: String,
    pub url: String,
}

/// `source` is the best server of the pool, asked at `now`.
pub open spec fn is_source(
    pool: &CdnPool,
    depot_id: u32,
    sha_hex: Seq<char>,
    server: int,
    now: u32,
    source: ChunkSource,
) -> bool {
    let best = pool.servers()[server];
    &&& is_best(pool.servers(), pool.penalties(), server)
    &&& source.host@ == best.host@
    &&& source.url@ == chunk_location(
        best.vhost@,
        depot_id,
        sha_hex,
        match lasting_token(pool.tokens(), depot_id, best.host@, now) {
            Some(token) => Some(token.token@),
            None => None,
        },
    )
}

/// Where to get a chunk from at `now`: the best server of the pool, with the
/// token for it where one is known that has not expired.
pub fn chunk_source_at(
    pool: &CdnPool,
    depot_id: u32,
    sha_hex: &str,
    now: u32,
) -> (source: ChunkSource)
    requires
        pool.servers().len() > 0,
    ensures
        exists|server: int| #[trigger]
            is_source(pool, depot_id, sha_hex@, server, now, source),
{
    let server: &CdnServer = pool.pick_server();
    let token: Option<&str> = match pool.cdn_auth_token_at(depot_id, server.host.as_str(), now) {
        Some(token) => Some(token.token.as_str()),
        None => None,
    };
    let url: String = chunk_url(server, depot_id, sha_hex, token);
    let source: ChunkSource = ChunkSource { host: server.host.clone(), url };
    proof {
        let best = choose|i: int|
            is_best(pool.servers(), pool.penalties(), i) && *server == #[trigger] pool.servers()[i];
        assert(is_source(pool, depot_id, sha_hex@, best, now, source));
    }
    source
}

/// Where to get a chunk from: the best server of the pool, with the token for
/// it where one is known that has not expired by the clock.
pub fn chunk_source(pool: &CdnPool, depot_id: u32, sha_hex: &str) -> (source: ChunkSource)
    requires
        pool.servers().len() > 0,
    ensures
        exists|server: int, now: u32| #[trigger]
            is_source(pool, depot_id, sha_hex@, server, now, source),
{
    chunk_source_at(pool, depot_id, sha_hex, clock_reading(unix_seconds()))
}

/// A status that another server, or a later try, may not answer with.
pub open spec fn passing_status(status: u16) -> bool {
    status == 403 || status == 404 || status == 500 || status == 502 || status == 503 || status
        == 429
}

/// A failure to get a chunk that may pass.
pub open spec fn retryable(e: ErrorView) -> bool {
    match e {
        ErrorView::Http(failure) => match failure.status {
            Some(status) => passing_status(status),
            None => failure.connect || failure.timeout,
        },
        ErrorView::Status { status, .. } => passing_status(status),
        _ => false,
    }
}

/// A chunk that failed with `e` on try `attempt` is tried again.
pub open spec fn chunk_tried_again(attempt: u32, e: ErrorView) -> bool {
    retryable(e) && attempt < MAX_RETRIES
}

/// Which failures of a chunk may pass: of those that a server answered, the
/// statuses 403, 404, 429, 500, 502 and 503 and no others; of those that none
/// answered, a connection that failed or timed out. No other error does, and
/// none is tried again after the fourth try.
pub proof fn passing_failures_are_these(e: ErrorView, attempt: u32)
    ensures
        match e {
            ErrorView::Http(failure) => match failure.status {
                Some(status) => retryable(e) == seq![403u16, 404, 429, 500, 502, 503].contains(
                    status,
                ),
                None => retryable(e) == (failure.connect || failure.timeout),
            },
            ErrorView::Status { status, .. } => retryable(e) == seq![
                403u16,
                404,
                429,
                500,
                502,
                503,
            ].contains(status),
            _ => !retryable(e),
        },
        chunk_tried_again(attempt, e) == (retryable(e) && attempt < 3),
{
    let listed = seq![403u16, 404, 429, 500, 502, 503];
    assert(listed[0] == 403 && listed[1] == 404 && listed[2] == 429 && listed[3] == 500 && listed[4]
        == 502 && listed[5] == 503);
    assert(forall|status: u16| #[trigger] listed.contains(status) <==> passing_status(status));
}

/// A chunk is asked of a server that no other has failed less often than, the
/// first of those, under its virtual host, with the token that is stored for
/// the depot and that server where it lasts beyond `now`, else with none.
pub proof fn chunk_is_asked_of_the_best_server(
    pool: &CdnPool,
    depot_id: u32,
    sha_hex: Seq<char>,
    server: int,
    now: u32,
    source: ChunkSource,
    other: int,
)
    requires
        is_source(pool, depot_id, sha_hex, server, now, source),
        0 <= other < pool.servers().len(),
    ensures
        0 <= server < pool.servers().len(),
        source.host@ == pool.servers()[server].host@,
        penalty_of(pool.penalties(), source.host@) <= penalty_of(
            pool.penalties(),
            pool.servers()[other].host@,
        ),
        other < server ==> penalty_of(pool.penalties(), source.host@) < penalty_of(
            pool.penalties(),
            pool.servers()[other].host@,
        ),
        match lasting_token(pool.tokens(), depot_id, source.host@, now) {
            Some(token) => token.expiration > now && source.url@ == chunk_location(
                pool.servers()[server].vhost@,
                depot_id,
                sha_hex,
                None,
            ) + token.token@,
            None => source.url@ == chunk_location(
                pool.servers()[server].vhost@,
                depot_id,
                sha_hex,
                None,
            ),
        },
{
    chunk_address_is_made_of_its_parts(
        pool.servers()[server].vhost@,
        depot_id,
        sha_hex,
        match lasting_token(pool.tokens(), depot_id, source.host@, now) {
            Some(token) => token.token@,
            None => Seq::empty(),
        },
    );
}

/// A job is checked first where the name of its file is among those that were
/// kept, and wherever a kept name has the same components in the install
/// directory; only there.
pub proof fn kept_names_are_checked_first(
    install_dir: Seq<char>,
    candidates: Seq<String>,
    path: Seq<char>,
)
    ensures
        (exists|i: int| 0 <= i < candidates.len() && (#[trigger] candidates[i])@ == path) ==> among(
            install_dir,
            candidates,
            path,
        ),
        among(install_dir, candidates, path) ==> exists|i: int|
            0 <= i < candidates.len() && components(
                joined_path(install_dir, (#[trigger] candidates[i])@),
            ) == components(joined_path(install_dir, path)),
        candidates.len() == 0 ==> !among(install_dir, candidates, path),
{
    if exists|i: int| 0 <= i < candidates.len() && (#[trigger] candidates[i])@ == path {
        let i = choose|i: int| 0 <= i < candidates.len() && (#[trigger] candidates[i])@ == path;
        assert(same_place(
            joined_path(install_dir, candidates[i]@),
            joined_path(install_dir, path),
        ));
    }
}

/// A chunk that fails again and again is given up after its fourth try: of
/// failures that were each tried again, there are at most three.
pub proof fn chunks_are_given_up(failures: Seq<ErrorView>)
    requires
        forall|i: int|
            0 <= i < failures.len() ==> chunk_tried_again(i as u32, #[trigger] failures[i]),
    ensures
        failures.len() <= MAX_RETRIES,
{
    if failures.len() > MAX_RETRIES {
        assert(chunk_tried_again(3u32, failures[3]));
    }
}

/// Whether a status is one that another server, or a later try, may not
/// answer with.
fn is_passing(status: u16) -> (r: bool)
    ensures
        r == passing_status(status),
{
    status == 403 || status == 404 || status == 500 || status == 502 || status == 503 || status
        == 429
}

/// Whether a failure to get a chunk may pass: a connection that failed or
/// timed out, or a status that may be gone at the next try. What an error says
/// in words has no part in it.
pub fn is_retryable(e: &Error) -> (r: bool)
    ensures
        r == retryable(e@),
{
    match e {
        Error::Http(failure) => match failure.status {
            Some(status) => is_passing(status),
            None => failure.connect || failure.timeout,
        },
        Error::Status { status, .. } => is_passing(*status),
        _ => false,
    }
}

/// What to do next for a chunk.
pub enum ChunkStep {
    /// Check it on disk.
    Check,
    /// Download it, from whatever server is best: this is try `attempt`,
    /// counted from zero.
    Download { attempt: u32 },
    /// It is done: it was right on disk already, or so many bytes were
    /// downloaded.
    Done { verified: bool, bytes: u64 },
    /// It cannot be had.
    Failed(Error),
}

/// What to do first for a chunk: it is checked before it is downloaded where
/// its file was kept as it was, and downloaded where there is nothing to
/// check.
pub fn first_step(to_check: bool) -> (step: ChunkStep)
    ensures
        to_check ==> step == ChunkStep::Check,
        !to_check ==> step == (ChunkStep::Download { attempt: 0 }),
{
    if to_check {
        ChunkStep::Check
    } else {
        ChunkStep::Download { attempt: 0 }
    }
}

/// What to do once a chunk was checked on disk: a chunk that is right there is
/// done without a byte of download, any other is downloaded.
pub fn after_check(right: bool) -> (step: ChunkStep)
    ensures
        right ==> step == (ChunkStep::Done { verified: true, bytes: 0 }),
        !right ==> step == (ChunkStep::Download { attempt: 0 }),
{
    if right {
        ChunkStep::Done { verified: true, bytes: 0 }
    } else {
        ChunkStep::Download { attempt: 0 }
    }
}

/// What to do after try `attempt` to download a chunk from `host` came out as
/// `outcome`. A failure that may pass counts against the host, as long as
/// tries are left.
pub fn after_download(
    pool: &mut CdnPool,
    host: &str,
    attempt: u32,
    outcome: Result<u64, Error>,
) -> (step: ChunkStep)
    requires
        penalty_of(old(pool).penalties(), host@) < u32::MAX,
    ensures
        final(pool).servers() == old(pool).servers(),
        final(pool).tokens() == old(pool).tokens(),
        match outcome {
            Ok(bytes) => step == (ChunkStep::Done { verified: false, bytes })
                && final(pool).penalties() == old(pool).penalties(),
            Err(e) => if chunk_tried_again(attempt, e@) {
                step == (ChunkStep::Download { attempt: (attempt + 1) as u32 })
                    && final(pool).penalties() == penalized(old(pool).penalties(), host@)
            } else {
                step == ChunkStep::Failed(e) && final(pool).penalties() == old(pool).penalties()
            },
        },
{
    match outcome {
        Ok(bytes) => ChunkStep::Done { verified: false, bytes },
        Err(e) => if is_retryable(&e) && attempt < MAX_RETRIES {
            pool.penalize(host);
            ChunkStep::Download { attempt: attempt + 1 }
        } else {
            ChunkStep::Failed(e)
        },
    }
}

/// The failure of a request for a chunk that a CDN server answered with an
/// error status.
pub fn chunk_status_failure(sha_hex: &str, status: u16, detail: &str) -> (e: Error)
    ensures
        e@ == (ErrorView::Status {
            status,
            context: labelled("chunk download "@ + sha_hex@, detail@),
        }),
{
    let mut head: String = "chunk download ".to_string();
    head.append(sha_hex);
    Error::status(head.as_str(), status, detail)
}

/// How far the chunks of a depot are.
#[derive(Debug, Clone, Copy)]
pub struct DownloadProgress {
    pub chunks_done: u64,
    pub chunks_total: u64,
    /// How many of the chunks that are done were right on disk already.
    pub chunks_verified: u64,
    pub bytes_downloaded: u64,
}

/// How far the chunks are once one more is done.
pub open spec fn progress_with(p: DownloadProgress, verified: bool, bytes: u64) -> DownloadProgress {
    DownloadProgress {
        chunks_done: (p.chunks_done + 1) as u64,
        chunks_total: p.chunks_total,
        chunks_verified: (p.chunks_verified + if verified {
            1int
        } else {
            0
        }) as u64,
        bytes_downloaded: (p.bytes_downloaded + bytes) as u64,
    }
}

/// How far the chunks are after these of `total` are done: of each, whether it
/// was right on disk already and how many bytes were downloaded.
pub open spec fn progress_after(total: u64, done: Seq<(bool, u64)>) -> DownloadProgress
    decreases done.len(),
{
    if done.len() == 0 {
        DownloadProgress {
            chunks_done: 0,
            chunks_total: total,
            chunks_verified: 0,
            bytes_downloaded: 0,
        }
    } else {
        progress_with(progress_after(total, done.drop_last()), done.last().0, done.last().1)
    }
}

/// The bytes of these chunks, added up.
pub open spec fn bytes_of(done: Seq<(bool, u64)>) -> nat
    decreases done.len(),
{
    if done.len() == 0 {
        0
    } else {
        bytes_of(done.drop_last()) + done.last().1 as nat
    }
}

/// Progress adds up: once every chunk is done the count is the total, the bytes
/// are those of all the chunks, the verified ones are those that were right on
/// disk, and at no point are more chunks verified than done or more done than
/// there are.
pub proof fn progress_adds_up(total: u64, done: Seq<(bool, u64)>)
    requires
        done.len() <= total,
        bytes_of(done) <= u64::MAX,
    ensures
        progress_after(total, done).wf(),
        progress_after(total, done).chunks_done == done.len(),
        progress_after(total, done).chunks_total == total,
        progress_after(total, done).bytes_downloaded == bytes_of(done),
        progress_after(total, done).chunks_verified == done.filter(
            |chunk: (bool, u64)| chunk.0,
        ).len(),
    decreases done.len(),
{
    reveal(Seq::filter);
    if done.len() > 0 {
        progress_adds_up(total, done.drop_last());
    }
}

impl DownloadProgress {
    /// No more chunks are verified than done, and no more done than there are.
    pub open spec fn wf(&self) -> bool {
        self.chunks_verified <= self.chunks_done <= self.chunks_total
    }

    /// Nothing is done of `chunks_total` chunks.
    pub fn new(chunks_total: u64) -> (progress: DownloadProgress)
        ensures
            progress.wf(),
            progress == (DownloadProgress {
                chunks_done: 0,
                chunks_total,
                chunks_verified: 0,
                bytes_downloaded: 0,
            }),
    {
        DownloadProgress { chunks_done: 0, chunks_total, chunks_verified: 0, bytes_downloaded: 0 }
    }

    /// Takes down that one more chunk is done: it was right on disk already,
    /// or so many bytes of it were downloaded.
    pub fn record(&mut self, verified: bool, chunk_bytes: u64)
        requires
            old(self).wf(),
            old(self).chunks_done < old(self).chunks_total,
            old(self).bytes_downloaded + chunk_bytes <= u64::MAX,
        ensures
            final(self).wf(),
            *final(self) == progress_with(*old(self), verified, chunk_bytes),
    {
        self.bytes_downloaded = self.bytes_downloaded + chunk_bytes;
        self.chunks_done = self.chunks_done + 1;
        if verified {
            self.chunks_verified = self.chunks_verified + 1;
        }
    }
}

/// How many chunks to check on disk at a time: four for each processor, no
/// fewer than 16 and no more than 128; 16 where the number of processors is
/// not known.
pub fn verify_concurrency(processors: Option<usize>) -> (n: usize)
    ensures
        n == match processors {
            None => 16int,
            Some(p) => if 4 * p < 16 {
                16
            } else if 4 * p > 128 {
                128
            } else {
                4 * p
            },
        },
{
    match processors {
        None => 16,
        Some(p) => if p < 4 {
            16
        } else if p > 32 {
            128
        } else {
            4 * p
        },
    }
}

/// A read of a stretch of a file that goes on until the stretch is full.
#[derive(Debug, Clone, Copy)]
pub struct PositionedRead {
    /// Where in the file to read next.
    pub offset: u64,
    /// How many bytes have been read.
    pub filled: usize,
    /// How many bytes there are to read.
    pub length: usize,
}

/// What one read of the operating system came to.
pub enum ReadEvent {
    Read(usize),
    Interrupted,
    Failed(String),
}

/// What to do after one read.
pub enum ReadStep {
    /// Read again, from the new offset.
    More,
    /// All is read.
    Full,
    Failed(Error),
}

impl PositionedRead {
    /// A stretch of `length` bytes from `offset` on.
    pub fn new(offset: u64, length: usize) -> (read: PositionedRead)
        ensures
            read == (PositionedRead { offset, filled: 0, length }),
    {
        PositionedRead { offset, filled: 0, length }
    }

    /// Whether all is read.
    pub fn is_full(&self) -> (r: bool)
        ensures
            r == (self.filled >= self.length),
    {
        self.filled >= self.length
    }

    /// What to do after a read of what is left came to `event`. An interrupted
    /// read is made again; a file that ends too early is a failure.
    pub fn step(&mut self, event: ReadEvent) -> (r: ReadStep)
        requires
            old(self).filled < old(self).length,
            event matches ReadEvent::Read(n) ==> old(self).filled + n <= old(self).length
                && old(self).offset + n <= u64::MAX,
        ensures
            final(self).length == old(self).length,
            final(self).offset - final(self).filled == old(self).offset - old(self).filled,
            match event {
                ReadEvent::Read(n) => final(self).offset == old(self).offset + n
                    && final(self).filled == old(self).filled + n && if n == 0 {
                    r matches ReadStep::Failed(e) && e@ == ErrorView::Io(
                        "unexpected EOF during positioned read"@,
                    )
                } else if old(self).filled + n == old(self).length {
                    r is Full
                } else {
                    r is More
                },
                ReadEvent::Interrupted => r is More && *final(self) == *old(self),
                ReadEvent::Failed(text) => *final(self) == *old(self) && (r matches ReadStep::Failed(
                    e,
                ) && e@ == ErrorView::Io(text@)),
            },
    {
        match event {
            ReadEvent::Read(n) => {
                if n == 0 {
                    return ReadStep::Failed(
                        Error::Io("unexpected EOF during positioned read".to_string()),
                    );
                }
                self.filled = self.filled + n;
                self.offset = self.offset + n as u64;
                if self.filled == self.length {
                    ReadStep::Full
                } else {
                    ReadStep::More
                }
            },
            ReadEvent::Interrupted => ReadStep::More,
            ReadEvent::Failed(text) => ReadStep::Failed(Error::Io(text)),
        }
    }
}

} // verus!
