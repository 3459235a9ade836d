//! Laws of the content servers, of product information and of the workshop.

use vstd::prelude::*;

use crate::cdn::{
    after_auth_token, after_manifest_code, after_servers, auth_token_request,
    clock_reading, codes_other_than_zero_are_taken, is_best, is_cm_retryable, manifest_code_request,
    penalty_is_the_hosts_own, pick_rotates_after_a_penalty, server_is_taken_field_by_field,
    servers_from, servers_request, stored_token_is_found, token_is_taken_field_by_field,
    wants_token, CallStep, CdnAuthToken, CdnAuthTokenRequest, CdnAuthTokenResponse, CdnPool,
    CdnServer, ManifestCodeRequest, Retry, ServerInfo, SteamPipeRequest,
};
use crate::error::Error;
use crate::pics::{
    access_tokens, answer_is_taken_in_field_by_field, complete_tokens_are_kept, depot_key_outcome,
    free_license_outcome, is_taken_from, product_info_request, requests_carry_their_tokens,
    FreeLicenseResponse, ProductInfoPart, ProductInfoRequest, ProductInfoResponse, RawToken,
};
use crate::text::{decimal, joined};
use crate::workshop::{
    details_request, item_is_taken_field_by_field, items_keep_their_order, resolve_details,
    single_item, DetailsRequest, PublishedFileDetails, ResolvedItems, WorkshopItem,
};

verus! {

// ---------------------------------------------------------------------------
// The pool of servers
// ---------------------------------------------------------------------------

/// A new pool holds its servers in their order; no host has failed, and no
/// token is stored.
pub proof fn new_pool_knows_only_its_servers(
    servers: Vec<CdnServer>,
    pool: &CdnPool,
    host: &str,
    depot_id: u32,
    now: u32,
    n: u32,
    count: usize,
    token: Option<&CdnAuthToken>,
)
    requires
        call_ensures(CdnPool::new, (servers,), *pool),
        call_ensures(CdnPool::penalty, (pool, host), n),
        call_ensures(CdnPool::server_count, (pool,), count),
        call_ensures(CdnPool::cdn_auth_token_at, (pool, depot_id, host, now), token),
    ensures
        pool.servers() == servers@,
        n == 0,
        count == servers@.len(),
        token is None,
{
}

/// A penalty counts once, against its host and no other, and the pool keeps
/// its servers.
pub proof fn penalty_counts_against_its_host(
    pool: &mut CdnPool,
    before: &CdnPool,
    after: &CdnPool,
    host: &str,
    other: &str,
    mark: u32,
    n: u32,
    m: u32,
    nothing: (),
)
    requires
        call_ensures(CdnPool::penalize, (pool, host), nothing),
        *before == *old(pool),
        *after == *final(pool),
        call_ensures(CdnPool::penalty, (before, host), mark),
        mark < u32::MAX,
        call_ensures(CdnPool::penalty, (before, other), n),
        call_ensures(CdnPool::penalty, (after, other), m),
    ensures
        after.servers() == before.servers(),
        m == n + if other@ == host@ {
            1int
        } else {
            0
        },
{
    penalty_is_the_hosts_own(before.penalties(), host@, other@);
}

/// The server that is picked is one of the pool. None has failed less often,
/// and each that stands before it has failed more often.
pub proof fn picked_server_has_failed_least(
    pool: &CdnPool,
    server: &CdnServer,
    host: &str,
    other: int,
    other_host: &str,
    n: u32,
    m: u32,
)
    requires
        pool.servers().len() > 0,
        call_ensures(CdnPool::pick_server, (pool,), server),
        host@ == server.host@,
        0 <= other < pool.servers().len(),
        other_host@ == pool.servers()[other].host@,
        call_ensures(CdnPool::penalty, (pool, host), n),
        call_ensures(CdnPool::penalty, (pool, other_host), m),
    ensures
        n <= m,
        exists|i: int|
            0 <= i < pool.servers().len() && *server == #[trigger] pool.servers()[i] && (other < i
                ==> n < m),
{
    let i = choose|i: int|
        is_best(pool.servers(), pool.penalties(), i) && *server == #[trigger] pool.servers()[i];
    assert(pool.servers()[other].host@ == other_host@);
}

/// After a penalty the pick goes to another host, where one has failed no more
/// often.
pub proof fn pick_goes_to_another_host(
    pool: &mut CdnPool,
    before: &CdnPool,
    after: &CdnPool,
    server: &CdnServer,
    next: &CdnServer,
    host: &str,
    other: int,
    other_host: &str,
    n: u32,
    m: u32,
    nothing: (),
)
    requires
        *before == *old(pool),
        *after == *final(pool),
        before.servers().len() > 0,
        call_ensures(CdnPool::pick_server, (before,), server),
        host@ == server.host@,
        call_ensures(CdnPool::penalize, (pool, host), nothing),
        call_ensures(CdnPool::pick_server, (after,), next),
        0 <= other < before.servers().len(),
        other_host@ == before.servers()[other].host@,
        other_host@ != host@,
        call_ensures(CdnPool::penalty, (before, host), n),
        call_ensures(CdnPool::penalty, (before, other_host), m),
        m <= n < u32::MAX,
    ensures
        next.host@ != server.host@,
{
    let best = choose|i: int|
        is_best(before.servers(), before.penalties(), i) && *server
            == #[trigger] before.servers()[i];
    let follower = choose|i: int|
        is_best(after.servers(), after.penalties(), i) && *next == #[trigger] after.servers()[i];
    pick_rotates_after_a_penalty(before.servers(), before.penalties(), best, other, follower);
}

/// A token that is stored for a depot on a host is given back for that depot
/// and host until it expires; those of other depots and hosts stay.
pub proof fn stored_token_is_given_back(
    pool: &mut CdnPool,
    before: &CdnPool,
    after: &CdnPool,
    depot_id: u32,
    host: &str,
    token: CdnAuthToken,
    other_depot: u32,
    other_host: &str,
    now: u32,
    old_token: Option<&CdnAuthToken>,
    new_token: Option<&CdnAuthToken>,
    nothing: (),
)
    requires
        *before == *old(pool),
        *after == *final(pool),
        call_ensures(CdnPool::set_cdn_auth_token, (pool, depot_id, host, token), nothing),
        call_ensures(CdnPool::cdn_auth_token_at, (before, other_depot, other_host, now), old_token),
        call_ensures(CdnPool::cdn_auth_token_at, (after, other_depot, other_host, now), new_token),
    ensures
        after.servers() == before.servers(),
        after.penalties() == before.penalties(),
        other_depot == depot_id && other_host@ == host@ ==> (new_token is Some <==> token.expiration
            > now) && (new_token is Some ==> *new_token->0 == token),
        other_depot != depot_id || other_host@ != host@ ==> (new_token is Some <==> old_token is Some)
            && (new_token is Some ==> *new_token->0 == *old_token->0),
{
    stored_token_is_found(
        before.tokens(),
        depot_id,
        host@,
        token,
        other_depot,
        other_host@,
        now,
    );
}

/// The clock counts seconds up to 32 bits and wraps around behind them; one
/// that cannot be read reads zero.
pub proof fn clock_wraps_around(seconds: u64, now: u32, later: u32, none: u32)
    requires
        seconds <= u64::MAX - 0x1_0000_0000,
        call_ensures(clock_reading, (Some(seconds),), now),
        call_ensures(clock_reading, (Some((seconds + 0x1_0000_0000) as u64),), later),
        call_ensures(clock_reading, (None,), none),
    ensures
        seconds < 0x1_0000_0000 ==> now == seconds,
        later == now,
        none == 0,
{
}

// ---------------------------------------------------------------------------
// Calls for content
// ---------------------------------------------------------------------------

/// Each request names what it is made for.
pub proof fn content_requests_name_what_they_are_for(
    app_id: u32,
    depot_id: u32,
    manifest_id: u64,
    branch: &str,
    cell_id: u32,
    host: &str,
    code: ManifestCodeRequest,
    servers: SteamPipeRequest,
    token: CdnAuthTokenRequest,
)
    requires
        call_ensures(manifest_code_request, (app_id, depot_id, manifest_id, branch), code),
        call_ensures(servers_request, (cell_id,), servers),
        call_ensures(auth_token_request, (depot_id, host, app_id), token),
    ensures
        code.app_id == Some(app_id),
        code.depot_id == Some(depot_id),
        code.manifest_id == Some(manifest_id),
        code.app_branch is Some && code.app_branch->0@ == branch@,
        code.branch_password_hash is None,
        servers.cell_id == Some(cell_id),
        servers.max_servers == Some(20u32),
        token.depot_id == Some(depot_id),
        token.host_name is Some && token.host_name->0@ == host@,
        token.app_id == Some(app_id),
{
}

/// A call to the CM is worth another try where the CM did not answer in time,
/// the connection was closed or the socket failed, and for no other reason.
pub proof fn failed_calls_are_retried_for_these(e: &Error, r: bool)
    requires
        call_ensures(is_cm_retryable, (e,), r),
    ensures
        r == match *e {
            Error::ServiceMethodTimeout(_) => true,
            Error::ConnectionClosed => true,
            Error::WebSocket(_) => true,
            _ => false,
        },
{
}

/// `retry` is the try behind this one: it waits two seconds more than the one
/// before it did, and tells which it is of four.
pub open spec fn is_next_try(retry: Retry, attempt: u32, call: Seq<char>) -> bool {
    &&& retry.attempt == attempt + 1
    &&& retry.delay_seconds == 2 * attempt + 2
    &&& retry.notice@ == "retrying "@ + call + " (attempt "@ + decimal((attempt + 2) as nat) + "/"@
        + seq!['4'] + ")"@
}

proof fn lemma_four()
    ensures
        decimal(4) == seq!['4'],
{
    crate::text::decimal_goes_digit_by_digit(4);
}

/// A manifest request code is taken as it came, unless it is missing or zero;
/// a call that failed is made again up to three times.
pub proof fn manifest_code_is_waited_for(
    attempt: u32,
    depot_id: u32,
    manifest_id: u64,
    outcome: Result<Option<u64>, Error>,
    step: CallStep<u64>,
    retryable: bool,
)
    requires
        call_ensures(after_manifest_code, (attempt, depot_id, manifest_id, outcome), step),
        outcome is Err ==> call_ensures(is_cm_retryable, (&outcome->Err_0,), retryable),
    ensures
        match outcome {
            Ok(code) => match step {
                CallStep::Done(Ok(given)) => given != 0 && code == Some(given),
                CallStep::Done(Err(Error::Other(text))) => (code is None || code->0 == 0) && text@
                    == "manifest request code denied for depot "@ + decimal(depot_id as nat)
                    + " manifest "@ + decimal(manifest_id as nat),
                CallStep::Done(Err(_)) => false,
                CallStep::Again(_) => false,
            },
            Err(e) => if retryable && attempt < 3 {
                step matches CallStep::Again(retry) && is_next_try(
                    retry,
                    attempt,
                    "GetManifestRequestCode for depot "@ + decimal(depot_id as nat),
                )
            } else {
                step == CallStep::Done(Err::<u64, Error>(e))
            },
        },
{
    lemma_four();
    if let Ok(Some(code)) = outcome {
        codes_other_than_zero_are_taken(depot_id, manifest_id, code);
    }
}

/// The servers of an answer are taken in their order, each field for field; a
/// call that failed is made again up to three times.
pub proof fn servers_are_waited_for(
    attempt: u32,
    outcome: Result<Vec<ServerInfo>, Error>,
    step: CallStep<Vec<CdnServer>>,
    retryable: bool,
    i: int,
)
    requires
        call_ensures(after_servers, (attempt, outcome), step),
        outcome is Err ==> call_ensures(is_cm_retryable, (&outcome->Err_0,), retryable),
    ensures
        match outcome {
            Ok(infos) => match step {
                CallStep::Done(Ok(servers)) => servers@.len() == infos@.len() && (0 <= i
                    < infos@.len() ==> is_server_of(servers@[i], infos@[i])),
                _ => false,
            },
            Err(e) => if retryable && attempt < 3 {
                step matches CallStep::Again(retry) && is_next_try(
                    retry,
                    attempt,
                    "GetServersForSteamPipe"@,
                )
            } else {
                step == CallStep::Done(Err::<Vec<CdnServer>, Error>(e))
            },
        },
{
    lemma_four();
    if let Ok(infos) = outcome {
        if let CallStep::Done(Ok(servers)) = step {
            if 0 <= i < infos@.len() {
                server_is_taken_field_by_field(infos@[i], servers@[i]);
            }
        }
    }
}

/// `server` has the fields of `info`; what is missing there is empty or zero.
pub open spec fn is_server_of(server: CdnServer, info: ServerInfo) -> bool {
    &&& match info.host {
        Some(host) => server.host@ == host@,
        None => server.host@.len() == 0,
    }
    &&& match info.vhost {
        Some(vhost) => server.vhost@ == vhost@,
        None => server.vhost@.len() == 0,
    }
    &&& match info.server_type {
        Some(server_type) => server.server_type@ == server_type@,
        None => server.server_type@.len() == 0,
    }
    &&& match info.load {
        Some(load) => server.load == load,
        None => server.load == 0,
    }
    &&& match info.cell_id {
        Some(cell_id) => server.cell_id == cell_id,
        None => server.cell_id == 0,
    }
}

/// Servers are listed in the order of the answer, each field for field.
pub proof fn servers_keep_their_order(infos: Vec<ServerInfo>, servers: Vec<CdnServer>, i: int)
    requires
        call_ensures(servers_from, (infos,), servers),
    ensures
        servers@.len() == infos@.len(),
        0 <= i < infos@.len() ==> is_server_of(servers@[i], infos@[i]),
{
    if 0 <= i < infos@.len() {
        server_is_taken_field_by_field(infos@[i], servers@[i]);
    }
}

/// A token is taken as it came; a call that failed is made again up to three
/// times.
pub proof fn auth_token_is_waited_for(
    attempt: u32,
    depot_id: u32,
    outcome: Result<CdnAuthTokenResponse, Error>,
    step: CallStep<CdnAuthToken>,
    retryable: bool,
)
    requires
        call_ensures(after_auth_token, (attempt, depot_id, outcome), step),
        outcome is Err ==> call_ensures(is_cm_retryable, (&outcome->Err_0,), retryable),
    ensures
        match outcome {
            Ok(response) => match step {
                CallStep::Done(Ok(token)) => {
                    &&& match response.token {
                        Some(text) => token.token@ == text@,
                        None => token.token@.len() == 0,
                    }
                    &&& match response.expiration_time {
                        Some(time) => token.expiration == time,
                        None => token.expiration == 0,
                    }
                },
                _ => false,
            },
            Err(e) => if retryable && attempt < 3 {
                step matches CallStep::Again(retry) && is_next_try(
                    retry,
                    attempt,
                    "GetCDNAuthToken for depot "@ + decimal(depot_id as nat),
                )
            } else {
                step == CallStep::Done(Err::<CdnAuthToken, Error>(e))
            },
        },
{
    lemma_four();
    if let Ok(response) = outcome {
        if let CallStep::Done(Ok(token)) = step {
            token_is_taken_field_by_field(response, token);
        }
    }
}

/// A token is wanted where a server answered 403, and nowhere else.
pub proof fn forbidden_requests_want_a_token(e: &Error, r: bool)
    requires
        call_ensures(wants_token, (e,), r),
    ensures
        r == match *e {
            Error::Http(failure) => failure.status == Some(403u16),
            Error::Status { status, .. } => status == 403,
            _ => false,
        },
{
}

// ---------------------------------------------------------------------------
// Product information
// ---------------------------------------------------------------------------

/// Taking in an answer keeps what was there and puts the products of the
/// answer behind it, each with its own number, change number and buffer.
pub proof fn answer_is_taken_in(
    info: &mut ProductInfoResponse,
    part: ProductInfoPart,
    more: bool,
    i: int,
)
    requires
        call_ensures(ProductInfoResponse::absorb, (info, part), more),
    ensures
        more == (part.response_pending == Some(true)),
        ({
            let before = *old(info);
            let after = *final(info);
            let apps = before.apps@.len();
            let packages = before.packages@.len();
            &&& after.apps@.len() == apps + part.apps@.len()
            &&& after.packages@.len() == packages + part.packages@.len()
            &&& 0 <= i < apps ==> after.apps@[i].appid == before.apps@[i].appid
                && after.apps@[i].change_number == before.apps@[i].change_number
                && after.apps@[i].buffer@ == before.apps@[i].buffer@
            &&& 0 <= i < part.apps@.len() ==> is_taken_from(
                part.apps@[i],
                after.apps@[apps + i].appid,
                after.apps@[apps + i].change_number,
                after.apps@[apps + i].buffer@,
            )
            &&& 0 <= i < packages ==> after.packages@[i].packageid == before.packages@[i].packageid
                && after.packages@[i].change_number == before.packages@[i].change_number
                && after.packages@[i].buffer@ == before.packages@[i].buffer@
            &&& 0 <= i < part.packages@.len() ==> is_taken_from(
                part.packages@[i],
                after.packages@[packages + i].packageid,
                after.packages@[packages + i].change_number,
                after.packages@[packages + i].buffer@,
            )
            &&& after.unknown_appids@ == before.unknown_appids@ + part.unknown_appids@
            &&& after.unknown_packageids@ == before.unknown_packageids@ + part.unknown_packageids@
        }),
{
    answer_is_taken_in_field_by_field(*old(info), part, *final(info));
}

/// Before any answer nothing is known.
pub proof fn nothing_is_known_at_first(info: ProductInfoResponse)
    requires
        call_ensures(ProductInfoResponse::default, (), info),
    ensures
        info.apps@.len() == 0,
        info.unknown_appids@.len() == 0,
        info.packages@.len() == 0,
        info.unknown_packageids@.len() == 0,
{
    assert(info@.apps.len() == 0);
    assert(info@.packages.len() == 0);
}

/// The tokens of an answer that are complete are kept, and no others.
pub proof fn complete_tokens_are_taken(raw: &Vec<RawToken>, tokens: Vec<(u32, u64)>, i: int)
    requires
        call_ensures(access_tokens, (raw,), tokens),
    ensures
        0 <= i < raw@.len() && raw@[i].id is Some && raw@[i].access_token is Some ==> tokens@.contains(
            (raw@[i].id->0, raw@[i].access_token->0),
        ),
        tokens@.len() <= raw@.len(),
        forall|k: int|
            0 <= k < tokens@.len() ==> raw@.contains(
                RawToken {
                    id: Some((#[trigger] tokens@[k]).0),
                    access_token: Some(tokens@[k].1),
                },
            ),
{
    if 0 <= i < raw@.len() {
        complete_tokens_are_kept(raw@, i);
    } else if raw@.len() > 0 {
        complete_tokens_are_kept(raw@, 0);
    }
}

/// A request asks for each app and each package in its order, with the first
/// token that was given for it, and asks for all that is known.
pub proof fn products_are_asked_for_in_order(
    app_ids: &[u32],
    package_ids: &[u32],
    app_tokens: &Vec<(u32, u64)>,
    package_tokens: &Vec<(u32, u64)>,
    r: ProductInfoRequest,
    i: int,
    j: int,
)
    requires
        call_ensures(product_info_request, (app_ids, package_ids, app_tokens, package_tokens), r),
    ensures
        r.meta_data_only == Some(false),
        r.single_response == Some(false),
        r.apps@.len() == app_ids@.len(),
        0 <= i < app_ids@.len() ==> r.apps@[i].id == Some(app_ids@[i]) && is_first_token(
            r.apps@[i].access_token,
            app_tokens@,
            app_ids@[i],
        ),
        r.packages@.len() == package_ids@.len(),
        0 <= j < package_ids@.len() ==> r.packages@[j].id == Some(package_ids@[j])
            && is_first_token(r.packages@[j].access_token, package_tokens@, package_ids@[j]),
{
    if 0 <= i < app_ids@.len() {
        requests_carry_their_tokens(r.apps@, app_ids@, app_tokens@, i);
    }
    if 0 <= j < package_ids@.len() {
        requests_carry_their_tokens(r.packages@, package_ids@, package_tokens@, j);
    }
}

/// `token` is the first that `tokens` holds for `id`, if it holds one.
pub open spec fn is_first_token(token: Option<u64>, tokens: Seq<(u32, u64)>, id: u32) -> bool {
    match token {
        Some(token) => exists|k: int|
            0 <= k < tokens.len() && #[trigger] tokens[k] == (id, token) && forall|j: int|
                0 <= j < k ==> (#[trigger] tokens[j]).0 != id,
        None => forall|j: int| 0 <= j < tokens.len() ==> (#[trigger] tokens[j]).0 != id,
    }
}

/// A depot key is taken as it came where the result is 1; any other result is
/// the code of the error, and a missing one counts as 2.
pub proof fn depot_key_is_taken_as_it_came(
    depot_id: u32,
    app_id: u32,
    eresult: Option<i32>,
    depot_encryption_key: Option<Vec<u8>>,
    r: Result<Vec<u8>, Error>,
)
    requires
        call_ensures(depot_key_outcome, (depot_id, app_id, eresult, depot_encryption_key), r),
    ensures
        match r {
            Ok(key) => eresult == Some(1i32) && match depot_encryption_key {
                Some(given) => key@ == given@,
                None => key@.len() == 0,
            },
            Err(Error::EResult { code, context }) => {
                &&& eresult != Some(1i32)
                &&& match eresult {
                    Some(given) => code == given,
                    None => code == 2,
                }
                &&& context@ == "depot "@ + decimal(depot_id as nat) + " (app "@ + decimal(
                    app_id as nat,
                ) + ") decryption key: "@ + if code == 5 {
                    "access denied — account doesn't own this app/depot"@
                } else if code == 9 {
                    "file not found — depot does not exist"@
                } else if code == 15 {
                    "access denied — the account does not have a license for this app. If this is a free game, claim the free license on the Steam account first"@
                } else if code == 2 {
                    "invalid depot/app combination"@
                } else {
                    "unexpected error"@
                }
            },
            Err(_) => false,
        },
{
}

/// What is granted is told as it came where the result is 1; any other result
/// is the code of the error, and a missing one counts as 2.
pub proof fn free_license_is_told_as_it_came(
    app_ids: &[u32],
    eresult: Option<u32>,
    granted_appids: Vec<u32>,
    granted_packageids: Vec<u32>,
    r: Result<FreeLicenseResponse, Error>,
)
    requires
        call_ensures(
            free_license_outcome,
            (app_ids, eresult, granted_appids, granted_packageids),
            r,
        ),
    ensures
        match r {
            Ok(granted) => eresult == Some(1u32) && granted.granted_appids@ == granted_appids@
                && granted.granted_packageids@ == granted_packageids@,
            Err(Error::EResult { code, context }) => {
                &&& eresult != Some(1u32)
                &&& match eresult {
                    Some(given) => (given < 0x8000_0000 ==> code == given) && (given >= 0x8000_0000
                        ==> code == given - 0x1_0000_0000),
                    None => code == 2,
                }
                &&& context@ == "free license request for ["@ + joined(app_ids@, ", "@) + "]"@
            },
            Err(_) => false,
        },
{
}

// ---------------------------------------------------------------------------
// The workshop
// ---------------------------------------------------------------------------

/// A request asks for every file, in order, with its metadata; for no files
/// none is made.
pub proof fn all_files_are_asked_for(published_file_ids: &[u64], r: Option<DetailsRequest>)
    requires
        call_ensures(details_request, (published_file_ids,), r),
    ensures
        r is None <==> published_file_ids@.len() == 0,
        r matches Some(request) ==> request.publishedfileids@ == published_file_ids@
            && request.includemetadata == Some(true),
{
}

/// `item` has the fields of `details`.
pub open spec fn is_item_of(item: WorkshopItem, details: PublishedFileDetails) -> bool {
    &&& details.consumer_appid == Some(item.consumer_appid)
    &&& details.hcontent_file == Some(item.manifest_id)
    &&& match details.publishedfileid {
        Some(id) => item.published_file_id == id,
        None => item.published_file_id == 0,
    }
    &&& match details.filename {
        Some(name) => item.filename@ == name@,
        None => item.filename@.len() == 0,
    }
    &&& match details.file_size {
        Some(size) => item.file_size == size,
        None => item.file_size == 0,
    }
    &&& match details.time_updated {
        Some(time) => item.time_updated == time,
        None => item.time_updated == 0,
    }
}

/// What one answer tells is an item where the result is 1 and both the app and
/// the manifest are named, and a warning where not.
pub proof fn one_file_is_an_item_or_a_warning(details: Vec<PublishedFileDetails>, r: ResolvedItems)
    requires
        call_ensures(resolve_details, (details,), r),
        details@.len() == 1,
    ensures
        ({
            let told = details@[0];
            if told.result == Some(1u32) && told.consumer_appid is Some && told.consumer_appid->0
                != 0 && told.hcontent_file is Some && told.hcontent_file->0 != 0 {
                r.items@.len() == 1 && r.warnings@.len() == 0 && is_item_of(r.items@[0], told)
            } else {
                let id: u64 = match told.publishedfileid {
                    Some(id) => id,
                    None => 0,
                };
                let code: u32 = match told.result {
                    Some(code) => code,
                    None => 0,
                };
                &&& r.items@.len() == 0
                &&& r.warnings@.len() == 1
                &&& r.warnings@[0]@ == "warning: workshop item "@ + decimal(id as nat) + if code
                    != 1 {
                    " GetDetails returned eresult "@ + decimal(code as nat) + " (skipping)"@
                } else if told.consumer_appid is None || told.consumer_appid->0 == 0 {
                    " has no consumer_appid (skipping)"@
                } else {
                    " has no hcontent_file/manifest (skipping)"@
                }
            }
        }),
{
    items_keep_their_order(details@, Seq::empty());
    crate::workshop::every_item_is_told_of(details@);
    let items = crate::workshop::items_of_details(details@);
    let warnings = crate::workshop::warnings_of_details(details@);
    assert(items.len() == r.items@.len());
    assert(warnings.len() == r.warnings@.len());
    if r.items@.len() == 1 {
        assert(items[0] == r.items@[0]@);
        item_is_taken_field_by_field(details@[0], r.items@[0]);
    } else if r.items@.len() == 0 {
        if let Ok(item) = crate::workshop::item_of(details@[0]) {
            assert(items == seq![item]);
        }
        let any = arbitrary::<WorkshopItem>();
        item_is_taken_field_by_field(details@[0], any);
    } else {
        assert(items.len() <= 1);
    }
    let any = arbitrary::<WorkshopItem>();
    item_is_taken_field_by_field(details@[0], any);
    if let Err(text) = crate::workshop::item_of(details@[0]) {
        assert(warnings == seq![text]);
        assert(warnings[0] == r.warnings@[0]@);
        let told = details@[0];
        let id: u64 = match told.publishedfileid {
            Some(id) => id,
            None => 0,
        };
        let code: u32 = match told.result {
            Some(code) => code,
            None => 0,
        };
        let head = "warning: workshop item "@ + decimal(id as nat);
        assert(text =~= head + if code != 1 {
            " GetDetails returned eresult "@ + decimal(code as nat) + " (skipping)"@
        } else if told.consumer_appid is None || told.consumer_appid->0 == 0 {
            " has no consumer_appid (skipping)"@
        } else {
            " has no hcontent_file/manifest (skipping)"@
        });
    }
}

/// What two answers tell, one behind the other, is what the first tells and
/// then what the second tells.
pub proof fn files_are_resolved_one_by_one(
    first: Vec<PublishedFileDetails>,
    second: Vec<PublishedFileDetails>,
    both: Vec<PublishedFileDetails>,
    r: ResolvedItems,
    s: ResolvedItems,
    t: ResolvedItems,
    i: int,
)
    requires
        both@ == first@ + second@,
        call_ensures(resolve_details, (first,), r),
        call_ensures(resolve_details, (second,), s),
        call_ensures(resolve_details, (both,), t),
    ensures
        t.items@.len() == r.items@.len() + s.items@.len(),
        t.warnings@.len() == r.warnings@.len() + s.warnings@.len(),
        0 <= i < r.items@.len() ==> t.items@[i]@ == r.items@[i]@,
        0 <= i < s.items@.len() ==> t.items@[r.items@.len() + i]@ == s.items@[i]@,
        0 <= i < r.warnings@.len() ==> t.warnings@[i]@ == r.warnings@[i]@,
        0 <= i < s.warnings@.len() ==> t.warnings@[r.warnings@.len() + i]@ == s.warnings@[i]@,
{
    items_keep_their_order(first@, second@);
    let item = |item: WorkshopItem| item@;
    let text = |text: String| text@;
    assert(t.items@.map_values(item) == r.items@.map_values(item) + s.items@.map_values(item));
    assert(t.warnings@.map_values(text) == r.warnings@.map_values(text) + s.warnings@.map_values(
        text,
    ));
    assert(t.items@.map_values(item).len() == t.items@.len());
    assert(t.warnings@.map_values(text).len() == t.warnings@.len());
    if 0 <= i < r.items@.len() {
        assert(t.items@.map_values(item)[i] == r.items@.map_values(item)[i]);
    }
    if 0 <= i < s.items@.len() {
        assert(t.items@.map_values(item)[r.items@.len() + i] == s.items@.map_values(item)[i]);
    }
    if 0 <= i < r.warnings@.len() {
        assert(t.warnings@.map_values(text)[i] == r.warnings@.map_values(text)[i]);
    }
    if 0 <= i < s.warnings@.len() {
        assert(t.warnings@.map_values(text)[r.warnings@.len() + i] == s.warnings@.map_values(
            text,
        )[i]);
    }
}

/// One item is asked for: the first that was resolved is it, and without one
/// the call fails.
pub proof fn first_item_is_given(
    published_file_id: u64,
    items: Vec<WorkshopItem>,
    r: Result<WorkshopItem, Error>,
)
    requires
        call_ensures(single_item, (published_file_id, items), r),
    ensures
        match r {
            Ok(item) => items@.len() > 0 && item@ == items@[0]@,
            Err(Error::Other(text)) => items@.len() == 0 && text@ == "workshop item "@ + decimal(
                published_file_id as nat,
            ) + " could not be resolved (unlisted, banned, or deleted?)"@,
            Err(_) => false,
        },
{
}

} // verus!
