//! CDN servers: which one to ask, the tokens they want, and the calls to the
//! CM that tell of both.

use vstd::hash_map::StringHashMap;
use vstd::prelude::*;

use crate::error::{viewed, Error, ErrorView};
use crate::outside::unix_seconds;
use crate::proto::{text_of, text_or_empty, value_or};
use crate::text::{
    decimal, lemma_decimal_digits, lemma_decimal_injective, numbered, push_decimal,
};

verus! {

/// How often a call to the CM is tried again.
pub const CM_RETRIES: u32 = 3;

/// How many servers a server list may name.
pub const MAX_SERVERS: u32 = 20;

/// A CDN server.
#[derive(Debug, Clone)]
pub struct CdnServer {
    pub host: String,
    pub vhost: String,
    pub server_type: String,
    pub load: i32,
    pub cell_id: i32,
}

/// A [`CdnServer`] over mathematical values.
pub struct CdnServerView {
    pub host: Seq<char>,
    pub vhost: Seq<char>,
    pub server_type: Seq<char>,
    pub load: i32,
    pub cell_id: i32,
}

impl View for CdnServer {
    type V = CdnServerView;

    open spec fn view(&self) -> CdnServerView {
        CdnServerView {
            host: self.host@,
            vhost: self.vhost@,
            server_type: self.server_type@,
            load: self.load,
            cell_id: self.cell_id,
        }
    }
}

/// A token that a CDN server wants to see.
#[derive(Debug, Clone)]
pub struct CdnAuthToken {
    pub token: String,
    pub expiration: u32,
}

/// A [`CdnAuthToken`] over mathematical values.
pub struct CdnAuthTokenView {
    pub token: Seq<char>,
    pub expiration: u32,
}

impl View for CdnAuthToken {
    type V = CdnAuthTokenView;

    open spec fn view(&self) -> CdnAuthTokenView {
        CdnAuthTokenView { token: self.token@, expiration: self.expiration }
    }
}

/// CDN servers, how often each host failed, and the tokens that are known.
pub struct CdnPool {
    servers: Vec<CdnServer>,
    penalties: StringHashMap<u32>,
    cdn_auth_tokens: StringHashMap<CdnAuthToken>,
}

/// How often `host` failed.
pub open spec fn penalty_of(penalties: Map<Seq<char>, u32>, host: Seq<char>) -> u32 {
    if penalties.contains_key(host) {
        penalties[host]
    } else {
        0
    }
}

/// The server at `i` is the first of those with the lowest penalty.
pub open spec fn is_best(
    servers: Seq<CdnServer>,
    penalties: Map<Seq<char>, u32>,
    i: int,
) -> bool {
    &&& 0 <= i < servers.len()
    &&& forall|j: int|
        0 <= j < servers.len() ==> penalty_of(penalties, servers[i].host@) <= penalty_of(
            penalties,
            (#[trigger] servers[j]).host@,
        )
    &&& forall|j: int|
        0 <= j < i ==> penalty_of(penalties, servers[i].host@) < penalty_of(
            penalties,
            (#[trigger] servers[j]).host@,
        )
}

/// The penalties after `host` failed once more.
pub open spec fn penalized(penalties: Map<Seq<char>, u32>, host: Seq<char>) -> Map<Seq<char>, u32> {
    penalties.insert(host, (penalty_of(penalties, host) + 1) as u32)
}

/// What the token for a depot on a host is kept under.
pub open spec fn token_key(depot_id: u32, host: Seq<char>) -> Seq<char> {
    decimal(depot_id as nat) + ":"@ + host
}

/// The token for a depot on a host, where one is known that lasts beyond `now`.
pub open spec fn lasting_token(
    tokens: Map<Seq<char>, CdnAuthToken>,
    depot_id: u32,
    host: Seq<char>,
    now: u32,
) -> Option<CdnAuthToken> {
    let key = token_key(depot_id, host);
    if tokens.contains_key(key) && tokens[key].expiration > now {
        Some(tokens[key])
    } else {
        None
    }
}

/// Two tokens are kept under one key only where both the depots and the hosts
/// are the same.
pub proof fn token_keys_are_distinct(depot_a: u32, host_a: Seq<char>, depot_b: u32, host_b: Seq<char>)
    requires
        token_key(depot_a, host_a) == token_key(depot_b, host_b),
    ensures
        depot_a == depot_b,
        host_a == host_b,
{
    reveal_strlit(":");
    let a = decimal(depot_a as nat);
    let b = decimal(depot_b as nat);
    let key_a = token_key(depot_a, host_a);
    let key_b = token_key(depot_b, host_b);
    lemma_decimal_digits(depot_a as nat);
    lemma_decimal_digits(depot_b as nat);
    assert(key_a[a.len() as int] == ':');
    assert(key_b[b.len() as int] == ':');
    if a.len() < b.len() {
        assert(key_b[a.len() as int] == b[a.len() as int]);
    }
    if b.len() < a.len() {
        assert(key_a[b.len() as int] == a[b.len() as int]);
    }
    assert(a =~= key_a.take(a.len() as int));
    assert(b =~= key_b.take(b.len() as int));
    lemma_decimal_injective(depot_a as nat, depot_b as nat);
    assert(host_a =~= key_a.skip((a.len() + 1) as int));
    assert(host_b =~= key_b.skip((b.len() + 1) as int));
}

/// A stored token is found for its own depot and host until it expires, and
/// changes nothing for any other depot or host.
pub proof fn stored_token_is_found(
    tokens: Map<Seq<char>, CdnAuthToken>,
    depot_id: u32,
    host: Seq<char>,
    token: CdnAuthToken,
    other_depot: u32,
    other_host: Seq<char>,
    now: u32,
)
    ensures
        lasting_token(tokens.insert(token_key(depot_id, host), token), other_depot, other_host, now)
            == if other_depot == depot_id && other_host == host {
            if token.expiration > now {
                Some(token)
            } else {
                None
            }
        } else {
            lasting_token(tokens, other_depot, other_host, now)
        },
{
    if token_key(depot_id, host) == token_key(other_depot, other_host) {
        token_keys_are_distinct(depot_id, host, other_depot, other_host);
    }
}

/// A failure counts against its own host and against no other.
pub proof fn penalty_is_the_hosts_own(
    penalties: Map<Seq<char>, u32>,
    host: Seq<char>,
    other: Seq<char>,
)
    requires
        penalty_of(penalties, host) < u32::MAX,
    ensures
        penalty_of(penalized(penalties, host), other) == penalty_of(penalties, other) + if other
            == host {
            1int
        } else {
            0
        },
{
}

/// After the best server failed, the next pick goes to another host wherever
/// one has no more penalties than the best had.
pub proof fn pick_rotates_after_a_penalty(
    servers: Seq<CdnServer>,
    penalties: Map<Seq<char>, u32>,
    best: int,
    other: int,
    next: int,
)
    requires
        is_best(servers, penalties, best),
        penalty_of(penalties, servers[best].host@) < u32::MAX,
        0 <= other < servers.len(),
        servers[other].host@ != servers[best].host@,
        penalty_of(penalties, servers[other].host@) <= penalty_of(penalties, servers[best].host@),
        is_best(servers, penalized(penalties, servers[best].host@), next),
    ensures
        servers[next].host@ != servers[best].host@,
{
    let after = penalized(penalties, servers[best].host@);
    assert(penalty_of(after, servers[next].host@) <= penalty_of(after, servers[other].host@));
}

/// There is one best server, and only one place for it in the list.
pub proof fn best_server_is_unique(
    servers: Seq<CdnServer>,
    penalties: Map<Seq<char>, u32>,
    i: int,
    j: int,
)
    requires
        is_best(servers, penalties, i),
        is_best(servers, penalties, j),
    ensures
        i == j,
{
    assert(penalty_of(penalties, servers[i].host@) <= penalty_of(penalties, servers[j].host@));
    assert(penalty_of(penalties, servers[j].host@) <= penalty_of(penalties, servers[i].host@));
}

/// Of any list of servers there is a best one: none has failed less often, and
/// each that stands before it has failed more often.
pub proof fn some_server_is_best(servers: Seq<CdnServer>, penalties: Map<Seq<char>, u32>) -> (best:
    int)
    requires
        servers.len() > 0,
    ensures
        is_best(servers, penalties, best),
        0 <= best < servers.len(),
        forall|j: int|
            0 <= j < servers.len() && penalties.contains_key((#[trigger] servers[j]).host@)
                && penalties.contains_key(servers[best].host@) ==> penalties[servers[best].host@]
                <= penalties[servers[j].host@],
        forall|j: int|
            0 <= j < servers.len() && !penalties.contains_key((#[trigger] servers[j]).host@)
                ==> !penalties.contains_key(servers[best].host@) || penalties[servers[best].host@]
                == 0,
    decreases servers.len(),
{
    let last = servers.len() - 1;
    if last == 0 {
        0
    } else {
        let fewer = servers.drop_last();
        let before = some_server_is_best(fewer, penalties);
        let found = if penalty_of(penalties, servers[last].host@) < penalty_of(
            penalties,
            servers[before].host@,
        ) {
            last
        } else {
            before
        };
        assert(servers[before] == fewer[before]);
        assert forall|j: int| 0 <= j < servers.len() implies penalty_of(
            penalties,
            servers[found].host@,
        ) <= penalty_of(penalties, (#[trigger] servers[j]).host@) by {
            if j < last {
                assert(fewer[j] == servers[j]);
            }
        }
        assert forall|j: int| 0 <= j < found implies penalty_of(penalties, servers[found].host@)
            < penalty_of(penalties, (#[trigger] servers[j]).host@) by {
            assert(fewer[j] == servers[j]);
        }
        found
    }
}

impl CdnPool {
    /// The servers, in the order of the list.
    pub closed spec fn servers(&self) -> Seq<CdnServer> {
        self.servers@
    }

    /// How often each host failed that failed at all.
    pub closed spec fn penalties(&self) -> Map<Seq<char>, u32> {
        self.penalties@
    }

    /// The tokens that are known.
    pub closed spec fn tokens(&self) -> Map<Seq<char>, CdnAuthToken> {
        self.cdn_auth_tokens@
    }

    /// A pool of these servers, none of which has failed.
    pub fn new(servers: Vec<CdnServer>) -> (pool: CdnPool)
        ensures
            pool.servers() == servers@,
            pool.penalties() == Map::<Seq<char>, u32>::empty(),
            pool.tokens() == Map::<Seq<char>, CdnAuthToken>::empty(),
    {
        CdnPool { servers, penalties: StringHashMap::new(), cdn_auth_tokens: StringHashMap::new() }
    }

    /// How many servers there are.
    pub fn server_count(&self) -> (n: usize)
        ensures
            n == self.servers().len(),
    {
        self.servers.len()
    }

    /// How often a host failed.
    pub fn penalty(&self, host: &str) -> (n: u32)
        ensures
            n == penalty_of(self.penalties(), host@),
    {
        match self.penalties.get(host) {
            Some(n) => *n,
            None => 0,
        }
    }

    /// The server whose host failed least, the first of them where there are
    /// several.
    pub fn pick_server(&self) -> (server: &CdnServer)
        requires
            self.servers().len() > 0,
        ensures
            exists|i: int|
                is_best(self.servers(), self.penalties(), i) && *server == #[trigger] self.servers()[i],
    {
        let mut best: usize = 0;
        let mut lowest: u32 = self.penalty(self.servers[0].host.as_str());
        let mut at: usize = 1;
        while at < self.servers.len()
            invariant
                best < at <= self.servers@.len(),
                lowest == penalty_of(self.penalties(), self.servers@[best as int].host@),
                forall|j: int|
                    0 <= j < at ==> lowest <= penalty_of(
                        self.penalties(),
                        (#[trigger] self.servers@[j]).host@,
                    ),
                forall|j: int|
                    0 <= j < best ==> lowest < penalty_of(
                        self.penalties(),
                        (#[trigger] self.servers@[j]).host@,
                    ),
            decreases self.servers@.len() - at,
        {
            let here: u32 = self.penalty(self.servers[at].host.as_str());
            if here < lowest {
                best = at;
                lowest = here;
            }
            at = at + 1;
        }
        assert(is_best(self.servers(), self.penalties(), best as int));
        &self.servers[best]
    }

    /// Counts a failure of `host`.
    pub fn penalize(&mut self, host: &str)
        requires
            penalty_of(old(self).penalties(), host@) < u32::MAX,
        ensures
            final(self).penalties() == penalized(old(self).penalties(), host@),
            final(self).servers() == old(self).servers(),
            final(self).tokens() == old(self).tokens(),
    {
        let n: u32 = self.penalty(host);
        self.penalties.insert(host.to_string(), n + 1);
    }

    /// The token for a depot on a host, where one is known that has not
    /// expired by the clock.
    pub fn get_cdn_auth_token(&self, depot_id: u32, host: &str) -> (r: Option<&CdnAuthToken>)
        ensures
            exists|now: u32|
                match r {
                    Some(token) => #[trigger] lasting_token(self.tokens(), depot_id, host@, now)
                        == Some(*token),
                    None => lasting_token(self.tokens(), depot_id, host@, now) is None,
                },
    {
        let now: u32 = clock_reading(unix_seconds());
        self.cdn_auth_token_at(depot_id, host, now)
    }

    /// The token for a depot on a host, where one is known that lasts beyond
    /// `now`.
    pub fn cdn_auth_token_at(&self, depot_id: u32, host: &str, now: u32) -> (r: Option<
        &CdnAuthToken,
    >)
        ensures
            match r {
                Some(token) => lasting_token(self.tokens(), depot_id, host@, now) == Some(*token),
                None => lasting_token(self.tokens(), depot_id, host@, now) is None,
            },
    {
        let key: String = key_of(depot_id, host);
        match self.cdn_auth_tokens.get(key.as_str()) {
            Some(token) => if token.expiration > now {
                Some(token)
            } else {
                None
            },
            None => None,
        }
    }

    /// Stores the token for a depot on a host.
    pub fn set_cdn_auth_token(&mut self, depot_id: u32, host: &str, token: CdnAuthToken)
        ensures
            final(self).tokens() == old(self).tokens().insert(token_key(depot_id, host@), token),
            final(self).servers() == old(self).servers(),
            final(self).penalties() == old(self).penalties(),
    {
        self.cdn_auth_tokens.insert(key_of(depot_id, host), token);
    }
}

fn key_of(depot_id: u32, host: &str) -> (key: String)
    ensures
        key@ == token_key(depot_id, host@),
{
    let mut key: String = String::new();
    push_decimal(&mut key, depot_id as u64);
    key.append(":");
    key.append(host);
    assert(key@ =~= token_key(depot_id, host@));
    key
}

/// The low 32 bits of the seconds since the epoch; zero where the clock
/// stands before it.
pub fn clock_reading(seconds: Option<u64>) -> (now: u32)
    ensures
        now == match seconds {
            Some(s) => s as int % 0x1_0000_0000,
            None => 0,
        },
{
    match seconds {
        Some(s) => (s % 0x1_0000_0000) as u32,
        None => 0,
    }
}

/// What to do after a call to the CM.
pub enum CallStep<T> {
    /// The call is over.
    Done(Result<T, Error>),
    /// The call is to be made again.
    Again(Retry),
}

/// How to make a call to the CM again.
pub struct Retry {
    /// Which try comes next, counted from zero.
    pub attempt: u32,
    /// How many seconds to wait first.
    pub delay_seconds: u64,
    /// What to tell the user.
    pub notice: String,
}

/// A failure of a call to the CM that may pass.
pub open spec fn cm_retryable(e: ErrorView) -> bool {
    e is ServiceMethodTimeout || e is ConnectionClosed || e is WebSocket
}

/// A call that failed with `e` on try `attempt` is made again.
pub open spec fn tried_again(attempt: u32, e: ErrorView) -> bool {
    cm_retryable(e) && attempt < CM_RETRIES
}

/// A call that fails again and again is given up after its fourth try: of
/// failures that were each tried again, there are at most three.
pub proof fn calls_are_given_up(failures: Seq<ErrorView>)
    requires
        forall|i: int|
            0 <= i < failures.len() ==> tried_again(i as u32, #[trigger] failures[i]),
    ensures
        failures.len() <= CM_RETRIES,
{
    if failures.len() > CM_RETRIES {
        assert(tried_again(3u32, failures[3]));
    }
}

/// A call to the CM is made again where it timed out or the connection failed,
/// up to three times, and waits two seconds longer each time; no other failure
/// is tried again.
pub proof fn calls_are_tried_again_like_this(e: ErrorView, attempt: u32, retry: Retry, call: Seq<char>)
    ensures
        tried_again(attempt, e) == (attempt < 3 && (e is ServiceMethodTimeout
            || e is ConnectionClosed || e is WebSocket)),
        follows(retry, attempt, call) ==> retry.attempt == attempt + 1 && retry.delay_seconds == 2
            * retry.attempt,
{
}

/// What the user is told before a call is made again.
pub open spec fn retry_notice(call: Seq<char>, attempt: nat) -> Seq<char> {
    "retrying "@ + call + " (attempt "@ + decimal(attempt + 1) + "/"@ + decimal(
        (CM_RETRIES + 1) as nat,
    ) + ")"@
}

/// `retry` is the try behind `attempt`: it waits two seconds for each try
/// before it.
pub open spec fn follows(retry: Retry, attempt: u32, call: Seq<char>) -> bool {
    &&& retry.attempt == attempt + 1
    &&& retry.delay_seconds == 2 * (attempt + 1)
    &&& retry.notice@ == retry_notice(call, (attempt + 1) as nat)
}

/// Whether a failure of a call to the CM may pass.
pub fn is_cm_retryable(e: &Error) -> (r: bool)
    ensures
        r == cm_retryable(e@),
{
    matches!(e, Error::ServiceMethodTimeout(_) | Error::ConnectionClosed | Error::WebSocket(_))
}

/// What to do after try `attempt` failed: make the call again where the
/// failure may pass and tries are left, else give up with the error.
fn after_failure<T>(attempt: u32, e: Error, call: &str) -> (step: CallStep<T>)
    ensures
        match step {
            CallStep::Done(r) => !tried_again(attempt, e@) && r == Err::<T, Error>(e),
            CallStep::Again(retry) => tried_again(attempt, e@) && follows(retry, attempt, call@),
        },
{
    if is_cm_retryable(&e) && attempt < CM_RETRIES {
        let mut notice: String = "retrying ".to_string();
        notice.append(call);
        notice.append(" (attempt ");
        push_decimal(&mut notice, attempt as u64 + 2);
        notice.append("/");
        push_decimal(&mut notice, CM_RETRIES as u64 + 1);
        notice.append(")");
        assert(notice@ =~= retry_notice(call@, (attempt + 1) as nat));
        CallStep::Again(
            Retry { attempt: attempt + 1, delay_seconds: 2 * (attempt as u64 + 1), notice },
        )
    } else {
        CallStep::Done(Err(e))
    }
}

/// The service method that gives a code for a manifest.
pub const MANIFEST_CODE_METHOD: &'static str = "ContentServerDirectory.GetManifestRequestCode#1";

/// The service method that lists the CDN servers.
pub const SERVERS_METHOD: &'static str = "ContentServerDirectory.GetServersForSteamPipe#1";

/// The service method that gives a token for a CDN server.
pub const AUTH_TOKEN_METHOD: &'static str = "ContentServerDirectory.GetCDNAuthToken#1";

/// Asks for a manifest request code.
#[derive(Debug, Clone)]
pub struct ManifestCodeRequest {
    pub app_id: Option<u32>,
    pub depot_id: Option<u32>,
    pub manifest_id: Option<u64>,
    pub app_branch: Option<String>,
    pub branch_password_hash: Option<String>,
}

/// Asks for the CDN servers.
#[derive(Debug, Clone, Copy)]
pub struct SteamPipeRequest {
    pub cell_id: Option<u32>,
    pub max_servers: Option<u32>,
}

/// What the CM says of one CDN server.
#[derive(Debug, Clone)]
pub struct ServerInfo {
    pub server_type: Option<String>,
    pub cell_id: Option<i32>,
    pub load: Option<i32>,
    pub host: Option<String>,
    pub vhost: Option<String>,
}

/// Asks for a CDN auth token.
#[derive(Debug, Clone)]
pub struct CdnAuthTokenRequest {
    pub depot_id: Option<u32>,
    pub host_name: Option<String>,
    pub app_id: Option<u32>,
}

/// What the CM answers to a [`CdnAuthTokenRequest`].
#[derive(Debug, Clone)]
pub struct CdnAuthTokenResponse {
    pub token: Option<String>,
    pub expiration_time: Option<u32>,
}

/// The request for the code of a manifest.
pub fn manifest_code_request(app_id: u32, depot_id: u32, manifest_id: u64, branch: &str) -> (r:
    ManifestCodeRequest)
    ensures
        r.app_id == Some(app_id),
        r.depot_id == Some(depot_id),
        r.manifest_id == Some(manifest_id),
        text_of(r.app_branch) == Some(branch@),
        r.branch_password_hash is None,
{
    ManifestCodeRequest {
        app_id: Some(app_id),
        depot_id: Some(depot_id),
        manifest_id: Some(manifest_id),
        app_branch: Some(branch.to_string()),
        branch_password_hash: None,
    }
}

/// The request for the CDN servers near a cell.
pub fn servers_request(cell_id: u32) -> (r: SteamPipeRequest)
    ensures
        r.cell_id == Some(cell_id),
        r.max_servers == Some(MAX_SERVERS),
{
    SteamPipeRequest { cell_id: Some(cell_id), max_servers: Some(MAX_SERVERS) }
}

/// The request for a token that a CDN server wants for a depot.
pub fn auth_token_request(depot_id: u32, host: &str, app_id: u32) -> (r: CdnAuthTokenRequest)
    ensures
        r.depot_id == Some(depot_id),
        text_of(r.host_name) == Some(host@),
        r.app_id == Some(app_id),
{
    CdnAuthTokenRequest {
        depot_id: Some(depot_id),
        host_name: Some(host.to_string()),
        app_id: Some(app_id),
    }
}

/// What a code that the CM gave for a manifest means: zero, or none, says that
/// the manifest cannot be had.
pub open spec fn manifest_code(depot_id: u32, manifest_id: u64, code: Option<u64>) -> Result<
    u64,
    ErrorView,
> {
    if value_or(code, 0) == 0 {
        Err(
            ErrorView::Other(
                "manifest request code denied for depot "@ + decimal(depot_id as nat)
                    + " manifest "@ + decimal(manifest_id as nat),
            ),
        )
    } else {
        Ok(value_or(code, 0))
    }
}

/// A code other than zero is the code; zero, or none, is a refusal.
pub proof fn codes_other_than_zero_are_taken(depot_id: u32, manifest_id: u64, code: u64)
    ensures
        code != 0 ==> manifest_code(depot_id, manifest_id, Some(code)) == Ok::<u64, ErrorView>(
            code,
        ),
        manifest_code(depot_id, manifest_id, Some(0)) is Err,
        manifest_code(depot_id, manifest_id, None) is Err,
{
}

/// What to do after try `attempt` to get a manifest request code came out as
/// `outcome`, where the answer is the code that it names.
pub fn after_manifest_code(
    attempt: u32,
    depot_id: u32,
    manifest_id: u64,
    outcome: Result<Option<u64>, Error>,
) -> (step: CallStep<u64>)
    ensures
        match (step, outcome) {
            (CallStep::Done(r), Ok(code)) => viewed(r) == manifest_code(
                depot_id,
                manifest_id,
                code,
            ),
            (CallStep::Done(r), Err(e)) => !tried_again(attempt, e@) && r == Err::<u64, Error>(e),
            (CallStep::Again(retry), Err(e)) => tried_again(attempt, e@) && follows(
                retry,
                attempt,
                "GetManifestRequestCode for depot "@ + decimal(depot_id as nat),
            ),
            (CallStep::Again(_), Ok(_)) => false,
        },
{
    match outcome {
        Ok(code) => {
            let number: u64 = match code {
                Some(n) => n,
                None => 0,
            };
            if number == 0 {
                let mut text: String = numbered(
                    "manifest request code denied for depot ",
                    depot_id as u64,
                );
                text.append(" manifest ");
                push_decimal(&mut text, manifest_id);
                CallStep::Done(Err(Error::Other(text)))
            } else {
                CallStep::Done(Ok(number))
            }
        },
        Err(e) => {
            let call: String = numbered("GetManifestRequestCode for depot ", depot_id as u64);
            after_failure(attempt, e, call.as_str())
        },
    }
}

/// Whether a CDN server refused a request for want of a token: it answered
/// with status 403.
pub fn wants_token(e: &Error) -> (r: bool)
    ensures
        r == match e@ {
            ErrorView::Http(failure) => failure.status == Some(403u16),
            ErrorView::Status { status, .. } => status == 403,
            _ => false,
        },
{
    match e {
        Error::Http(failure) => match failure.status {
            Some(status) => status == 403,
            None => false,
        },
        Error::Status { status, .. } => *status == 403,
        _ => false,
    }
}

/// The server that the CM tells of, empty or zero where it leaves something
/// out.
pub open spec fn server_of(info: ServerInfo) -> CdnServerView {
    CdnServerView {
        host: value_or(text_of(info.host), Seq::empty()),
        vhost: value_or(text_of(info.vhost), Seq::empty()),
        server_type: value_or(text_of(info.server_type), Seq::empty()),
        load: value_or(info.load, 0),
        cell_id: value_or(info.cell_id, 0),
    }
}

/// A server is what the CM tells of it, field by field: empty or zero where it
/// tells nothing.
pub proof fn server_is_taken_field_by_field(info: ServerInfo, server: CdnServer)
    requires
        server@ == server_of(info),
    ensures
        match info.host {
            Some(host) => server.host@ == host@,
            None => server.host@.len() == 0,
        },
        match info.vhost {
            Some(vhost) => server.vhost@ == vhost@,
            None => server.vhost@.len() == 0,
        },
        match info.server_type {
            Some(server_type) => server.server_type@ == server_type@,
            None => server.server_type@.len() == 0,
        },
        match info.load {
            Some(load) => server.load == load,
            None => server.load == 0,
        },
        match info.cell_id {
            Some(cell_id) => server.cell_id == cell_id,
            None => server.cell_id == 0,
        },
{
}

fn server_from(info: ServerInfo) -> (server: CdnServer)
    ensures
        server@ == server_of(info),
{
    CdnServer {
        host: text_or_empty(info.host),
        vhost: text_or_empty(info.vhost),
        server_type: text_or_empty(info.server_type),
        load: match info.load {
            Some(n) => n,
            None => 0,
        },
        cell_id: match info.cell_id {
            Some(n) => n,
            None => 0,
        },
    }
}

/// The servers that the CM tells of, in its order.
pub fn servers_from(infos: Vec<ServerInfo>) -> (servers: Vec<CdnServer>)
    ensures
        servers@.len() == infos@.len(),
        forall|i: int|
            0 <= i < infos@.len() ==> (#[trigger] servers@[i])@ == server_of(infos@[i]),
{
    let mut servers: Vec<CdnServer> = Vec::new();
    for info in it: infos
        invariant
            it.seq() == infos@,
            servers@.len() == it.index(),
            forall|i: int|
                0 <= i < it.index() ==> (#[trigger] servers@[i])@ == server_of(infos@[i]),
    {
        servers.push(server_from(info));
    }
    servers
}

/// What to do after try `attempt` to list the CDN servers came out as
/// `outcome`.
pub fn after_servers(attempt: u32, outcome: Result<Vec<ServerInfo>, Error>) -> (step: CallStep<
    Vec<CdnServer>,
>)
    ensures
        match (step, outcome) {
            (CallStep::Done(r), Ok(infos)) => r is Ok && r->Ok_0@.len() == infos@.len() && forall|
                i: int,
            |
                0 <= i < infos@.len() ==> (#[trigger] r->Ok_0@[i])@ == server_of(infos@[i]),
            (CallStep::Done(r), Err(e)) => !tried_again(attempt, e@) && r == Err::<
                Vec<CdnServer>,
                Error,
            >(e),
            (CallStep::Again(retry), Err(e)) => tried_again(attempt, e@) && follows(
                retry,
                attempt,
                "GetServersForSteamPipe"@,
            ),
            (CallStep::Again(_), Ok(_)) => false,
        },
{
    match outcome {
        Ok(infos) => CallStep::Done(Ok(servers_from(infos))),
        Err(e) => after_failure(attempt, e, "GetServersForSteamPipe"),
    }
}

/// The token that the CM gave, empty or expired at the epoch where it leaves
/// something out.
pub open spec fn token_of(response: CdnAuthTokenResponse) -> CdnAuthTokenView {
    CdnAuthTokenView {
        token: value_or(text_of(response.token), Seq::empty()),
        expiration: value_or(response.expiration_time, 0),
    }
}

/// A token is what the CM gave, field by field: empty, or expired at the epoch,
/// where it gave nothing.
pub proof fn token_is_taken_field_by_field(response: CdnAuthTokenResponse, token: CdnAuthToken)
    requires
        token@ == token_of(response),
    ensures
        match response.token {
            Some(text) => token.token@ == text@,
            None => token.token@.len() == 0,
        },
        match response.expiration_time {
            Some(expiration) => token.expiration == expiration,
            None => token.expiration == 0,
        },
{
}

/// What to do after try `attempt` to get a token for a depot came out as
/// `outcome`.
pub fn after_auth_token(
    attempt: u32,
    depot_id: u32,
    outcome: Result<CdnAuthTokenResponse, Error>,
) -> (step: CallStep<CdnAuthToken>)
    ensures
        match (step, outcome) {
            (CallStep::Done(r), Ok(response)) => r is Ok && r->Ok_0@ == token_of(response),
            (CallStep::Done(r), Err(e)) => !tried_again(attempt, e@) && r == Err::<
                CdnAuthToken,
                Error,
            >(e),
            (CallStep::Again(retry), Err(e)) => tried_again(attempt, e@) && follows(
                retry,
                attempt,
                "GetCDNAuthToken for depot "@ + decimal(depot_id as nat),
            ),
            (CallStep::Again(_), Ok(_)) => false,
        },
{
    match outcome {
        Ok(response) => {
            let expiration: u32 = match response.expiration_time {
                Some(n) => n,
                None => 0,
            };
            CallStep::Done(Ok(CdnAuthToken { token: text_or_empty(response.token), expiration }))
        },
        Err(e) => {
            let call: String = numbered("GetCDNAuthToken for depot ", depot_id as u64);
            after_failure(attempt, e, call.as_str())
        },
    }
}

} // verus!
