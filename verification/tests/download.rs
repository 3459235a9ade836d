use steamdepot::cdn::{CdnAuthToken, CdnPool, CdnServer};
use steamdepot::download::{
    after_check, after_download, chunk_source, chunk_source_at, chunk_status_failure, chunk_url,
    first_step, is_retryable, jobs_to_check, plan_jobs, verify_concurrency, ChunkStep,
    DownloadProgress, PositionedRead, ReadEvent, ReadStep, MAX_RETRIES,
};
use steamdepot::error::{Error, HttpFailure};
use steamdepot::manifest::DepotManifest;
use steamdepot::paths::PathOptions;
use steamdepot::prepare::{plan_directory_tree, PrepareAction, FLAG_DIRECTORY, FLAG_SYMLINK};
use steamdepot::proto::{ChunkData, ContentManifestPayload, FileMapping};

fn server(host: &str) -> CdnServer {
    CdnServer {
        host: host.to_string(),
        vhost: format!("v.{host}"),
        server_type: String::new(),
        load: 0,
        cell_id: 0,
    }
}

fn chunk(sha: &[u8], offset: u64) -> ChunkData {
    ChunkData {
        sha: Some(sha.to_vec()),
        crc: Some(7),
        offset: Some(offset),
        cb_original: Some(100),
        cb_compressed: Some(50),
    }
}

fn file(name: &str, flags: u32, chunks: Vec<ChunkData>) -> FileMapping {
    FileMapping {
        filename: Some(name.to_string()),
        flags: Some(flags),
        chunks,
        linktarget: Some("target".to_string()),
        ..Default::default()
    }
}

fn manifest(mappings: Vec<FileMapping>) -> DepotManifest {
    DepotManifest {
        payload: ContentManifestPayload { mappings },
        metadata: Default::default(),
        signature: Default::default(),
    }
}

fn sample() -> DepotManifest {
    manifest(vec![
        file("Z\\Last", 0, vec![chunk(&[0xAB, 0x01], 0), chunk(&[0xFF], 100)]),
        file("dir", FLAG_DIRECTORY, vec![chunk(&[1], 0)]),
        file("link", FLAG_SYMLINK, vec![chunk(&[2], 0)]),
        FileMapping { chunks: vec![chunk(&[3], 0)], ..Default::default() },
        file("empty", 0, vec![]),
        file("A", 0, vec![ChunkData::default()]),
    ])
}

#[test]
fn every_chunk_of_every_file_is_a_job() {
    let jobs = plan_jobs(&sample(), PathOptions::lowercase());
    assert_eq!(jobs.len(), 3);
    assert_eq!((jobs[0].path.as_str(), jobs[0].sha_hex.as_str()), ("z/last", "ab01"));
    assert_eq!((jobs[0].crc, jobs[0].offset, jobs[0].original_size), (7, 0, 100));
    assert_eq!((jobs[1].path.as_str(), jobs[1].sha_hex.as_str()), ("z/last", "ff"));
    assert_eq!(jobs[1].offset, 100);
    assert_eq!((jobs[2].path.as_str(), jobs[2].sha_hex.as_str()), ("a", ""));
    assert_eq!((jobs[2].crc, jobs[2].offset, jobs[2].original_size), (0, 0, 0));
}

#[test]
fn jobs_write_to_files_that_are_created() {
    for options in [PathOptions::preserve_case(), PathOptions::lowercase()] {
        let plan = plan_directory_tree(&sample(), options).unwrap();
        for job in plan_jobs(&sample(), options) {
            assert!(plan.actions.iter().any(
                |action| matches!(action, PrepareAction::File { path, .. } if *path == job.path)
            ));
        }
    }
}

#[test]
fn chunks_of_kept_files_are_checked_first() {
    let jobs = plan_jobs(&sample(), PathOptions::preserve_case());
    let check = |dir: &str, names: &[&str]| {
        let names: Vec<String> = names.iter().map(|name| name.to_string()).collect();
        jobs_to_check(dir, &jobs, &names)
    };
    assert_eq!(check("/games/x", &["Z/Last", "other"]), vec![true, true, false]);
    assert_eq!(check("/games/x", &[]), vec![false, false, false]);
    for dir in ["/games/x", "games/x/", ".", "/"] {
        for same in ["Z/Last", "Z//Last", "./Z/Last", "Z/./Last/"] {
            assert_eq!(check(dir, &[same]), vec![true, true, false], "{dir} {same}");
        }
        for other in ["/y/Z/Last", "ZLast", "Z/Last/x", "Z", "Z/../Z/Last", ".Z/Last", ""] {
            assert_eq!(check(dir, &[other]), vec![false; 3], "{dir} {other}");
        }
    }
    // A name may begin at the root and lead into the install directory.
    assert_eq!(check("/games/x", &["/games/x/Z/Last"]), vec![true, true, false]);
    assert_eq!(check("/games//x/", &["/games/./x/Z/Last"]), vec![true, true, false]);
    assert_eq!(check("games/x", &["/games/x/Z/Last"]), vec![false; 3]);
    assert_eq!(check("/", &["/Z/Last"]), vec![true, true, false]);
    // With no install directory a dot in front counts.
    assert_eq!(check("", &["Z//Last"]), vec![true, true, false]);
    assert_eq!(check("", &["./Z/Last"]), vec![false; 3]);
}

#[test]
fn a_chunk_has_an_address() {
    assert_eq!(chunk_url(&server("h"), 9, "abcd", None), "https://v.h/depot/9/chunk/abcd");
    assert_eq!(
        chunk_url(&server("h"), 9, "abcd", Some("?t")),
        "https://v.h/depot/9/chunk/abcd?t"
    );
}

#[test]
fn a_chunk_comes_from_the_best_server_with_its_token() {
    let mut pool = CdnPool::new(vec![server("a"), server("b")]);
    let token = |text: &str, expiration: u32| CdnAuthToken { token: text.to_string(), expiration };
    pool.set_cdn_auth_token(9, "a", token("?a", u32::MAX));
    pool.set_cdn_auth_token(9, "b", token("?b", 1));
    let source = chunk_source(&pool, 9, "ff");
    assert_eq!(source.host, "a");
    assert_eq!(source.url, "https://v.a/depot/9/chunk/ff?a");
    pool.penalize("a");
    let source = chunk_source(&pool, 9, "ff");
    assert_eq!(source.host, "b");
    assert_eq!(source.url, "https://v.b/depot/9/chunk/ff");
}

#[test]
fn a_token_is_used_until_it_expires() {
    let mut pool = CdnPool::new(vec![server("a")]);
    let token = CdnAuthToken { token: "?a".to_string(), expiration: 500 };
    pool.set_cdn_auth_token(9, "a", token);
    let url = |now: u32| chunk_source_at(&pool, 9, "ff", now).url;
    assert_eq!(url(0), "https://v.a/depot/9/chunk/ff?a");
    assert_eq!(url(500), "https://v.a/depot/9/chunk/ff");
    assert_eq!(url(u32::MAX), "https://v.a/depot/9/chunk/ff");
    assert_eq!(chunk_source_at(&pool, 8, "ff", 0).url, "https://v.a/depot/8/chunk/ff");
}

#[test]
fn some_failures_of_a_chunk_pass() {
    let http = |status: Option<u16>, connect: bool, timeout: bool| {
        Error::Http(HttpFailure { status, connect, timeout })
    };
    for status in [403, 404, 500, 502, 503, 429] {
        assert!(is_retryable(&http(Some(status), false, false)));
        assert!(is_retryable(&chunk_status_failure("ff", status, "refused")));
        assert!(!is_retryable(&Error::Other(format!("HTTP {status} somewhere"))));
    }
    assert!(!is_retryable(&chunk_status_failure("ff", 401, "HTTP status client error (403)")));
    let wrong = "Adler-32 mismatch: expected 00000500, got 00000001";
    assert!(!is_retryable(&Error::Other(wrong.to_string())));
    assert!(!is_retryable(&http(Some(401), true, true)));
    assert!(is_retryable(&http(None, true, false)));
    assert!(is_retryable(&http(None, false, true)));
    assert!(!is_retryable(&http(None, false, false)));
    assert!(!is_retryable(&Error::ConnectionClosed));
    assert!(!is_retryable(&Error::Io("503".to_string())));
}

#[test]
fn a_passing_failure_counts_against_the_host() {
    let mut pool = CdnPool::new(vec![server("a"), server("b")]);
    let passing = || chunk_status_failure("ff", 503, "HTTP status server error (503)");
    for attempt in 0..MAX_RETRIES {
        match after_download(&mut pool, "a", attempt, Err(passing())) {
            ChunkStep::Download { attempt: next } => assert_eq!(next, attempt + 1),
            _ => panic!("given up after try {attempt}"),
        }
    }
    assert_eq!(pool.penalty("a"), 3);
    match after_download(&mut pool, "a", MAX_RETRIES, Err(passing())) {
        ChunkStep::Failed(e) => assert_eq!(
            e.message(),
            "chunk download ff: HTTP status server error (503)"
        ),
        _ => panic!("not given up"),
    }
    assert_eq!(pool.penalty("a"), 3);
    assert!(matches!(
        after_download(&mut pool, "a", 0, Err(Error::NoSession)),
        ChunkStep::Failed(Error::NoSession)
    ));
    assert!(matches!(
        after_download(&mut pool, "a", 0, Ok(5)),
        ChunkStep::Done { verified: false, bytes: 5 }
    ));
    assert_eq!(pool.penalty("a"), 3);
}

#[test]
fn a_chunk_is_checked_before_it_is_downloaded() {
    assert!(matches!(first_step(true), ChunkStep::Check));
    assert!(matches!(first_step(false), ChunkStep::Download { attempt: 0 }));
    assert!(matches!(after_check(true), ChunkStep::Done { verified: true, bytes: 0 }));
    assert!(matches!(after_check(false), ChunkStep::Download { attempt: 0 }));
}

#[test]
fn progress_adds_up() {
    let mut progress = DownloadProgress::new(3);
    progress.record(false, 40);
    progress.record(true, 0);
    progress.record(false, 2);
    assert_eq!(progress.chunks_done, 3);
    assert_eq!(progress.chunks_total, 3);
    assert_eq!(progress.chunks_verified, 1);
    assert_eq!(progress.bytes_downloaded, 42);
}

#[test]
fn checks_run_four_to_a_processor_within_bounds() {
    assert_eq!(verify_concurrency(None), 16);
    assert_eq!(verify_concurrency(Some(1)), 16);
    assert_eq!(verify_concurrency(Some(4)), 16);
    assert_eq!(verify_concurrency(Some(5)), 20);
    assert_eq!(verify_concurrency(Some(32)), 128);
    assert_eq!(verify_concurrency(Some(33)), 128);
    assert_eq!(verify_concurrency(Some(usize::MAX)), 128);
}

#[test]
fn a_read_goes_on_until_it_is_full() {
    let mut read = PositionedRead::new(1000, 10);
    assert!(!read.is_full());
    assert!(matches!(read.step(ReadEvent::Read(4)), ReadStep::More));
    assert_eq!((read.offset, read.filled), (1004, 4));
    assert!(matches!(read.step(ReadEvent::Interrupted), ReadStep::More));
    assert_eq!((read.offset, read.filled), (1004, 4));
    assert!(matches!(read.step(ReadEvent::Read(6)), ReadStep::Full));
    assert_eq!((read.offset, read.filled), (1010, 10));
    assert!(read.is_full());
    assert!(PositionedRead::new(5, 0).is_full());
}

#[test]
fn a_read_fails_at_the_end_of_the_file() {
    let mut read = PositionedRead::new(0, 10);
    match read.step(ReadEvent::Read(0)) {
        ReadStep::Failed(e) => {
            assert_eq!(e.message(), "I/O: unexpected EOF during positioned read")
        }
        _ => panic!("went on"),
    }
    match read.step(ReadEvent::Failed("broken".to_string())) {
        ReadStep::Failed(e) => assert_eq!(e.message(), "I/O: broken"),
        _ => panic!("went on"),
    }
}
