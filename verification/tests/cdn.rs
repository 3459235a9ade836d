use steamdepot::cdn::{
    after_auth_token, after_manifest_code, after_servers, auth_token_request, clock_reading,
    is_cm_retryable, manifest_code_request, servers_from, servers_request, wants_token, CallStep,
    CdnAuthToken, CdnAuthTokenResponse, CdnPool, CdnServer, ServerInfo, CM_RETRIES,
};
use steamdepot::error::{Error, HttpFailure};

fn server(host: &str) -> CdnServer {
    CdnServer {
        host: host.to_string(),
        vhost: format!("v.{host}"),
        server_type: "CDN".to_string(),
        load: 1,
        cell_id: 2,
    }
}

fn token(text: &str, expiration: u32) -> CdnAuthToken {
    CdnAuthToken { token: text.to_string(), expiration }
}

#[test]
fn the_first_server_is_picked_while_none_failed() {
    let pool = CdnPool::new(vec![server("a"), server("b"), server("c")]);
    assert_eq!(pool.server_count(), 3);
    assert_eq!(pool.pick_server().host, "a");
    assert_eq!(pool.pick_server().vhost, "v.a");
}

#[test]
fn a_penalty_moves_the_pick_on() {
    let mut pool = CdnPool::new(vec![server("a"), server("b"), server("c")]);
    pool.penalize("a");
    assert_eq!(pool.pick_server().host, "b");
    pool.penalize("b");
    pool.penalize("b");
    assert_eq!(pool.pick_server().host, "c");
    pool.penalize("c");
    // One penalty each for the first and the last: the first one wins.
    assert_eq!(pool.pick_server().host, "a");
    assert_eq!(pool.penalty("a"), 1);
    assert_eq!(pool.penalty("b"), 2);
    assert_eq!(pool.penalty("nowhere"), 0);
}

#[test]
fn servers_of_one_host_share_its_penalty() {
    let mut pool = CdnPool::new(vec![server("a"), server("a"), server("b")]);
    pool.penalize("a");
    assert_eq!(pool.pick_server().host, "b");
}

#[test]
fn a_token_is_found_until_it_expires() {
    let mut pool = CdnPool::new(vec![server("a")]);
    assert!(pool.cdn_auth_token_at(7, "a", 0).is_none());
    pool.set_cdn_auth_token(7, "a", token("?t=1", 100));
    assert_eq!(pool.cdn_auth_token_at(7, "a", 99).unwrap().token, "?t=1");
    assert!(pool.cdn_auth_token_at(7, "a", 100).is_none());
    pool.set_cdn_auth_token(7, "a", token("?t=2", 300));
    assert_eq!(pool.cdn_auth_token_at(7, "a", 100).unwrap().token, "?t=2");
}

#[test]
fn tokens_of_other_depots_and_hosts_stay_apart() {
    let mut pool = CdnPool::new(vec![server("a")]);
    pool.set_cdn_auth_token(1, "2:a", token("one", 100));
    pool.set_cdn_auth_token(12, "a", token("two", 100));
    assert_eq!(pool.cdn_auth_token_at(1, "2:a", 0).unwrap().token, "one");
    assert_eq!(pool.cdn_auth_token_at(12, "a", 0).unwrap().token, "two");
    assert!(pool.cdn_auth_token_at(1, "a", 0).is_none());
    assert!(pool.cdn_auth_token_at(2, "a", 0).is_none());
}

#[test]
fn the_clock_decides_over_tokens() {
    let mut pool = CdnPool::new(vec![server("a")]);
    pool.set_cdn_auth_token(1, "a", token("lasting", u32::MAX));
    pool.set_cdn_auth_token(2, "a", token("stale", 1));
    assert_eq!(pool.get_cdn_auth_token(1, "a").unwrap().token, "lasting");
    assert!(pool.get_cdn_auth_token(2, "a").is_none());
}

#[test]
fn the_clock_is_cut_to_32_bits() {
    assert_eq!(clock_reading(None), 0);
    assert_eq!(clock_reading(Some(1_700_000_000)), 1_700_000_000);
    assert_eq!(clock_reading(Some(0x1_0000_0005)), 5);
}

#[test]
fn requests_name_what_they_ask_for() {
    let r = manifest_code_request(1, 2, 3, "public");
    assert_eq!(r.app_id, Some(1));
    assert_eq!(r.depot_id, Some(2));
    assert_eq!(r.manifest_id, Some(3));
    assert_eq!(r.app_branch.as_deref(), Some("public"));
    assert!(r.branch_password_hash.is_none());
    let r = servers_request(9);
    assert_eq!((r.cell_id, r.max_servers), (Some(9), Some(20)));
    let r = auth_token_request(5, "host", 6);
    assert_eq!((r.depot_id, r.app_id), (Some(5), Some(6)));
    assert_eq!(r.host_name.as_deref(), Some("host"));
}

#[test]
fn only_passing_failures_of_the_cm_are_retryable() {
    assert!(is_cm_retryable(&Error::ServiceMethodTimeout("m".to_string())));
    assert!(is_cm_retryable(&Error::ConnectionClosed));
    assert!(is_cm_retryable(&Error::WebSocket("w".to_string())));
    for e in [
        Error::Other("o".to_string()),
        Error::Http(HttpFailure { status: Some(503), connect: true, timeout: true }),
        Error::Io("i".to_string()),
        Error::Decode("d".to_string()),
        Error::MessageTooShort(3),
        Error::MessageTruncated,
        Error::NoSession,
        Error::EResult { code: 2, context: "c".to_string() },
    ] {
        assert!(!is_cm_retryable(&e), "{e:?}");
    }
}

#[test]
fn a_manifest_code_is_asked_for_four_times() {
    for attempt in 0..CM_RETRIES {
        match after_manifest_code(attempt, 7, 8, Err(Error::ConnectionClosed)) {
            CallStep::Again(retry) => {
                assert_eq!(retry.attempt, attempt + 1);
                assert_eq!(retry.delay_seconds, 2 * (attempt as u64 + 1));
                assert_eq!(
                    retry.notice,
                    format!(
                        "retrying GetManifestRequestCode for depot 7 (attempt {}/4)",
                        attempt + 2
                    )
                );
            }
            CallStep::Done(_) => panic!("given up after try {attempt}"),
        }
    }
    match after_manifest_code(CM_RETRIES, 7, 8, Err(Error::ConnectionClosed)) {
        CallStep::Done(Err(Error::ConnectionClosed)) => {}
        _ => panic!("a fifth try"),
    }
}

#[test]
fn a_manifest_code_of_zero_is_a_refusal() {
    for code in [None, Some(0)] {
        match after_manifest_code(0, 7, 8, Ok(code)) {
            CallStep::Done(Err(e)) => assert_eq!(
                e.message(),
                "manifest request code denied for depot 7 manifest 8"
            ),
            _ => panic!("not refused"),
        }
    }
    assert!(matches!(after_manifest_code(0, 7, 8, Ok(Some(5))), CallStep::Done(Ok(5))));
    assert!(matches!(
        after_manifest_code(0, 7, 8, Err(Error::Decode("bad".to_string()))),
        CallStep::Done(Err(Error::Decode(_)))
    ));
}

#[test]
fn servers_come_with_defaults() {
    let full = ServerInfo {
        server_type: Some("SteamCache".to_string()),
        cell_id: Some(4),
        load: Some(-1),
        host: Some("h".to_string()),
        vhost: Some("v".to_string()),
    };
    let bare = ServerInfo { server_type: None, cell_id: None, load: None, host: None, vhost: None };
    let servers = servers_from(vec![full, bare]);
    assert_eq!(servers.len(), 2);
    assert_eq!(servers[0].host, "h");
    assert_eq!(servers[0].vhost, "v");
    assert_eq!(servers[0].server_type, "SteamCache");
    assert_eq!((servers[0].load, servers[0].cell_id), (-1, 4));
    assert_eq!(servers[1].host, "");
    assert_eq!((servers[1].load, servers[1].cell_id), (0, 0));
    match after_servers(0, Err(Error::WebSocket("x".to_string()))) {
        CallStep::Again(retry) => {
            assert_eq!(retry.notice, "retrying GetServersForSteamPipe (attempt 2/4)")
        }
        CallStep::Done(_) => panic!("given up"),
    }
    assert!(matches!(after_servers(0, Ok(vec![])), CallStep::Done(Ok(v)) if v.is_empty()));
    assert!(matches!(after_servers(0, Err(Error::NoSession)), CallStep::Done(Err(Error::NoSession))));
}

#[test]
fn tokens_come_with_defaults() {
    let response = CdnAuthTokenResponse { token: Some("?k".to_string()), expiration_time: Some(9) };
    match after_auth_token(0, 3, Ok(response)) {
        CallStep::Done(Ok(t)) => assert_eq!((t.token.as_str(), t.expiration), ("?k", 9)),
        _ => panic!("no token"),
    }
    let response = CdnAuthTokenResponse { token: None, expiration_time: None };
    match after_auth_token(0, 3, Ok(response)) {
        CallStep::Done(Ok(t)) => assert_eq!((t.token.as_str(), t.expiration), ("", 0)),
        _ => panic!("no token"),
    }
    match after_auth_token(2, 3, Err(Error::ServiceMethodTimeout("m".to_string()))) {
        CallStep::Again(retry) => {
            assert_eq!(retry.notice, "retrying GetCDNAuthToken for depot 3 (attempt 4/4)");
            assert_eq!(retry.delay_seconds, 6);
        }
        CallStep::Done(_) => panic!("given up"),
    }
}

#[test]
fn a_token_is_wanted_after_a_403() {
    let http = |status: Option<u16>| Error::Http(HttpFailure { status, connect: true, timeout: true });
    assert!(wants_token(&http(Some(403))));
    assert!(!wants_token(&http(Some(404))));
    assert!(!wants_token(&http(None)));
    assert!(wants_token(&Error::status("CDN manifest download failed", 403, "Forbidden")));
    assert!(!wants_token(&Error::status("CDN manifest download failed", 404, "403")));
    assert!(!wants_token(&Error::Other("depot 403 has no key".to_string())));
    assert!(!wants_token(&Error::ConnectionClosed));
}
