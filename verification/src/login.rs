//! Logging on: anonymously, with a token, and the way to a token.

use vstd::prelude::*;
use vstd::utf8::encode_utf8;

use crate::connection::{CmConnection, CmMessage};
use crate::emsg::EMsg;
use crate::error::{label, labelled, Error, ErrorView};
use crate::jwt::{extract_steamid_from_jwt, token_steam_id};
use crate::outside::{
    base64_encode, base64_text, hex_number, is_rsa_cipher, parse_hex_number, random_hash,
    rsa_encrypt, rsa_key_fault, rsa_key_refused,
};
use crate::proto::{
    empty_header, items_of, items_or_empty, text_of, text_or_empty, value_or, CMsgProtoBufHeader,
    HeaderView,
};
use crate::session::SessionState;
use crate::wire::{be_value, byte_length, lemma_byte_length};

verus! {

/// The SteamID of an anonymous user: universe 1, account type 10.
pub const ANONYMOUS_STEAM_ID: u64 = 0x01A0_0000_0000_0000;

/// What a login ID is combined with before it goes out.
pub const LOGIN_ID_XOR: u32 = 0xBAADF00D;

/// The version of the protocol that is spoken.
pub const PROTOCOL_VERSION: u32 = 65580;

/// The number of the operating system that is reported.
pub const CLIENT_OS_TYPE: u32 = 20;

/// A login ID at random.
pub fn rand_login_id() -> (id: u32)
    ensures
        exists|hash: u64| id == #[trigger] (hash as int % 0x1_0000_0000),
{
    login_id_from(random_hash())
}

/// The low half of a hash.
pub fn login_id_from(hash: u64) -> (id: u32)
    ensures
        id == hash as int % 0x1_0000_0000,
{
    (hash % 0x1_0000_0000) as u32
}

/// What a logon sends.
#[derive(Debug, Clone)]
pub struct LogonRequest {
    pub protocol_version: Option<u32>,
    pub client_os_type: Option<u32>,
    /// The login ID, in the shape of an address.
    pub obfuscated_private_ip: Option<u32>,
    pub account_name: Option<String>,
    pub access_token: Option<String>,
    pub should_remember_password: Option<bool>,
}

/// A logon: header and body.
#[derive(Debug, Clone)]
pub struct Logon {
    pub header: CMsgProtoBufHeader,
    pub body: LogonRequest,
}

/// The logon of an anonymous user.
pub fn anonymous_logon(login_id: u32) -> (logon: Logon)
    ensures
        logon.header@ == (HeaderView { steamid: Some(ANONYMOUS_STEAM_ID), ..empty_header() }),
        logon.body == (LogonRequest {
            protocol_version: Some(PROTOCOL_VERSION),
            client_os_type: Some(CLIENT_OS_TYPE),
            obfuscated_private_ip: Some(login_id ^ LOGIN_ID_XOR),
            account_name: None,
            access_token: None,
            should_remember_password: None,
        }),
{
    Logon {
        header: CMsgProtoBufHeader {
            steamid: Some(ANONYMOUS_STEAM_ID),
            ..CMsgProtoBufHeader::empty()
        },
        body: LogonRequest {
            protocol_version: Some(PROTOCOL_VERSION),
            client_os_type: Some(CLIENT_OS_TYPE),
            obfuscated_private_ip: Some(login_id ^ LOGIN_ID_XOR),
            account_name: None,
            access_token: None,
            should_remember_password: None,
        },
    }
}

/// The SteamID that a logon with a token names in its header: the one in the
/// token, unless there is none or it is zero.
pub open spec fn logon_steam_id(token: Seq<char>) -> Option<u64> {
    if value_or(token_steam_id(token), 0) == 0 {
        None
    } else {
        token_steam_id(token)
    }
}

/// The logon of an account with a refresh token.
pub fn token_logon(account_name: &str, refresh_token: &str, login_id: u32) -> (logon: Logon)
    ensures
        logon.header@ == (HeaderView {
            steamid: logon_steam_id(refresh_token@),
            ..empty_header()
        }),
        logon.body.protocol_version == Some(PROTOCOL_VERSION),
        logon.body.client_os_type == Some(CLIENT_OS_TYPE),
        logon.body.obfuscated_private_ip == Some(login_id ^ LOGIN_ID_XOR),
        text_of(logon.body.account_name) == Some(account_name@),
        text_of(logon.body.access_token) == Some(refresh_token@),
        logon.body.should_remember_password == Some(true),
{
    let steamid: Option<u64> = match extract_steamid_from_jwt(refresh_token) {
        Some(steam_id) => if steam_id != 0 {
            Some(steam_id)
        } else {
            None
        },
        None => None,
    };
    Logon {
        header: CMsgProtoBufHeader { steamid, ..CMsgProtoBufHeader::empty() },
        body: LogonRequest {
            protocol_version: Some(PROTOCOL_VERSION),
            client_os_type: Some(CLIENT_OS_TYPE),
            obfuscated_private_ip: Some(login_id ^ LOGIN_ID_XOR),
            account_name: Some(account_name.to_string()),
            access_token: Some(refresh_token.to_string()),
            should_remember_password: Some(true),
        },
    }
}

/// Two logons with different login IDs go out with different addresses, so
/// that neither ends the other's session.
pub proof fn login_ids_stay_distinct(a: u32, b: u32)
    requires
        a != b,
    ensures
        a ^ LOGIN_ID_XOR != b ^ LOGIN_ID_XOR,
{
    assert(a != b ==> a ^ 0xBAADF00Du32 != b ^ 0xBAADF00Du32) by (bit_vector);
}

/// A logon with a token names the SteamID in the token, unless there is none
/// or it is zero: then it names none.
pub proof fn logon_names_the_steam_id_of_its_token(token: Seq<char>)
    ensures
        match token_steam_id(token) {
            Some(id) => if id != 0 {
                logon_steam_id(token) == Some(id)
            } else {
                logon_steam_id(token) is None
            },
            None => logon_steam_id(token) is None,
        },
{
}

/// What the CM answers to a logon.
#[derive(Debug, Clone, Copy)]
pub struct LogonResponse {
    pub eresult: Option<i32>,
    pub cell_id: Option<u32>,
    pub heartbeat_seconds: Option<i32>,
}

/// The session that a logon begins.
pub open spec fn session_of(
    header: CMsgProtoBufHeader,
    response: LogonResponse,
    session: SessionState,
) -> bool {
    &&& session.steam_id == value_or(header.steamid, 0)
    &&& session.session_id == value_or(header.client_sessionid, 0)
    &&& session.cell_id == value_or(response.cell_id, 0)
    &&& session.heartbeat_seconds == value_or(response.heartbeat_seconds, 0)
    &&& !session.authenticated
    &&& session.licensed_appids@ == Seq::<u32>::empty()
}

/// A session is what the answer to the logon says, field by field: who and
/// which session by its header, where and how often to send heartbeats by its
/// body, zero where it says nothing. It begins unauthenticated and without
/// licenses.
pub proof fn session_is_taken_field_by_field(
    header: CMsgProtoBufHeader,
    response: LogonResponse,
    session: SessionState,
)
    requires
        session_of(header, response, session),
    ensures
        match header.steamid {
            Some(id) => session.steam_id == id,
            None => session.steam_id == 0,
        },
        match header.client_sessionid {
            Some(id) => session.session_id == id,
            None => session.session_id == 0,
        },
        match response.cell_id {
            Some(id) => session.cell_id == id,
            None => session.cell_id == 0,
        },
        match response.heartbeat_seconds {
            Some(seconds) => session.heartbeat_seconds == seconds,
            None => session.heartbeat_seconds == 0,
        },
        !session.authenticated,
        session.licensed_appids@.len() == 0,
{
}

/// Refuses a message that does not answer a logon.
pub fn expect_logon_response(message: &CmMessage) -> (r: Result<(), Error>)
    ensures
        match r {
            Ok(_) => message.emsg == EMsg::ClientLogOnResponse,
            Err(e) => message.emsg != EMsg::ClientLogOnResponse && e@
                == (ErrorView::UnexpectedEMsg {
                expected: EMsg::ClientLogOnResponse,
                got: message.emsg,
            }),
        },
{
    if message.emsg != EMsg::ClientLogOnResponse {
        return Err(
            Error::UnexpectedEMsg { expected: EMsg::ClientLogOnResponse, got: message.emsg },
        );
    }
    Ok(())
}

/// Begins the session that the CM's answer to a logon grants, or says with
/// which result code the logon was refused. The connection keeps one copy of
/// the session and the caller gets another.
pub fn accept_logon(
    connection: &mut CmConnection,
    header: &CMsgProtoBufHeader,
    response: LogonResponse,
) -> (r: Result<SessionState, Error>)
    ensures
        final(connection).waiting() == old(connection).waiting(),
        match r {
            Ok(session) => response.eresult == Some(1i32) && session_of(*header, response, session)
                && final(connection).state() is Some && session_of(
                *header,
                response,
                final(connection).state()->0,
            ),
            Err(e) => response.eresult != Some(1i32) && e@ == (ErrorView::EResult {
                code: value_or(response.eresult, 2),
                context: "logon failed"@,
            }) && final(connection).state() == old(connection).state(),
        },
{
    let code: i32 = match response.eresult {
        Some(code) => code,
        None => 2,
    };
    if code != 1 {
        return Err(Error::eresult(code, "logon failed".to_string()));
    }
    connection.set_session(begin_session(header, response));
    Ok(begin_session(header, response))
}

fn begin_session(header: &CMsgProtoBufHeader, response: LogonResponse) -> (session: SessionState)
    ensures
        session_of(*header, response, session),
{
    SessionState {
        steam_id: match header.steamid {
            Some(id) => id,
            None => 0,
        },
        session_id: match header.client_sessionid {
            Some(id) => id,
            None => 0,
        },
        cell_id: match response.cell_id {
            Some(id) => id,
            None => 0,
        },
        heartbeat_seconds: match response.heartbeat_seconds {
            Some(seconds) => seconds,
            None => 0,
        },
        authenticated: false,
        licensed_appids: Vec::new(),
    }
}

/// Marks the session of the connection, if there is one, as that of an
/// account.
pub fn mark_authenticated(connection: &mut CmConnection)
    ensures
        final(connection).waiting() == old(connection).waiting(),
        match old(connection).state() {
            Some(session) => final(connection).state() == Some(
                (SessionState { authenticated: true, ..session }),
            ),
            None => final(connection).state() is None,
        },
{
    match connection.session_mut() {
        Some(session) => {
            session.authenticated = true;
        },
        None => {},
    }
}

/// The service method that gives the key to encrypt a password with.
pub const RSA_KEY_METHOD: &'static str = "Authentication.GetPasswordRSAPublicKey#1";

/// The service method that begins an auth session.
pub const BEGIN_AUTH_METHOD: &'static str = "Authentication.BeginAuthSessionViaCredentials#1";

/// The service method that takes a Steam Guard code.
pub const GUARD_CODE_METHOD: &'static str = "Authentication.UpdateAuthSessionWithSteamGuardCode#1";

/// The service method that says how an auth session stands.
pub const POLL_AUTH_METHOD: &'static str = "Authentication.PollAuthSessionStatus#1";

/// The RSA public key to encrypt a password with, in hexadecimal.
#[derive(Debug, Clone)]
pub struct RsaKey {
    pub modulus: String,
    pub exponent: String,
    pub timestamp: u64,
}

/// The key that the CM gave, empty or zero where it leaves something out.
pub fn rsa_key_from(
    publickey_mod: Option<String>,
    publickey_exp: Option<String>,
    timestamp: Option<u64>,
) -> (key: RsaKey)
    ensures
        key.modulus@ == value_or(text_of(publickey_mod), Seq::empty()),
        key.exponent@ == value_or(text_of(publickey_exp), Seq::empty()),
        key.timestamp == value_or(timestamp, 0),
{
    RsaKey {
        modulus: text_or_empty(publickey_mod),
        exponent: text_or_empty(publickey_exp),
        timestamp: match timestamp {
            Some(timestamp) => timestamp,
            None => 0,
        },
    }
}

/// Why a password cannot be encrypted with a key, if it cannot be.
pub open spec fn encryption_fault(password: Seq<char>, modulus: Seq<char>, exponent: Seq<char>) -> Option<
    ErrorView,
> {
    match hex_number(encode_utf8(modulus)) {
        None => Some(ErrorView::Other("invalid RSA modulus"@)),
        Some(n) => match hex_number(encode_utf8(exponent)) {
            None => Some(ErrorView::Other("invalid RSA exponent"@)),
            Some(e) => match rsa_key_fault(n, e) {
                Some(text) => Some(ErrorView::Other(labelled("invalid RSA key"@, text))),
                None => if encode_utf8(password).len() + 11 > byte_length(n) {
                    Some(ErrorView::Other(labelled("RSA encrypt failed"@, "message too long"@)))
                } else {
                    None
                },
            },
        },
    }
}

/// A password can be encrypted exactly where the modulus and the exponent are
/// hexadecimal numbers that make a key, and the password leaves the eleven
/// bytes of the modulus free that the padding takes.
pub proof fn password_is_encrypted_where_it_fits(
    password: Seq<char>,
    modulus: Seq<char>,
    exponent: Seq<char>,
)
    ensures
        encryption_fault(password, modulus, exponent) is None <==> {
            &&& hex_number(encode_utf8(modulus)) is Some
            &&& hex_number(encode_utf8(exponent)) is Some
            &&& rsa_key_fault(
                hex_number(encode_utf8(modulus))->0,
                hex_number(encode_utf8(exponent))->0,
            ) is None
            &&& encode_utf8(password).len() + 11 <= byte_length(
                hex_number(encode_utf8(modulus))->0,
            )
        },
{
}

/// Encrypts a password with a key. The padding is random, so that two calls
/// differ: the result is the base64 text of one of the ciphers that there are.
pub fn encrypt_password(password: &str, rsa_key: &RsaKey) -> (r: Result<String, Error>)
    ensures
        match r {
            Err(e) => encryption_fault(password@, rsa_key.modulus@, rsa_key.exponent@) == Some(e@),
            Ok(text) => encryption_fault(password@, rsa_key.modulus@, rsa_key.exponent@) is None
                && exists|cipher: Seq<u8>|
                is_password_cipher(password@, rsa_key.modulus@, rsa_key.exponent@, cipher) && text@
                    == #[trigger] base64_text(cipher),
        },
{
    let n: Vec<u8> = match parse_hex_number(rsa_key.modulus.as_str().as_bytes()) {
        Some(n) => n,
        None => return Err(Error::other("invalid RSA modulus")),
    };
    let e: Vec<u8> = match parse_hex_number(rsa_key.exponent.as_str().as_bytes()) {
        Some(e) => e,
        None => return Err(Error::other("invalid RSA exponent")),
    };
    match rsa_key_refused(n.as_slice(), e.as_slice()) {
        Some(text) => return Err(Error::Other(label("invalid RSA key", text.as_str()))),
        None => {},
    }
    proof {
        if n@[0] == 0 {
            assert(be_value(n@.drop_last()) == 0);
            assert(be_value(n@) == 0);
        }
        lemma_byte_length(n@);
    }
    match rsa_encrypt(n.as_slice(), e.as_slice(), password.as_bytes()) {
        Ok(encrypted) => {
            assert(is_password_cipher(
                password@,
                rsa_key.modulus@,
                rsa_key.exponent@,
                encrypted@,
            ));
            Ok(base64_encode(encrypted.as_slice()))
        },
        Err(text) => Err(Error::Other(label("RSA encrypt failed", text.as_str()))),
    }
}

/// `cipher` is a password encrypted with a key.
pub open spec fn is_password_cipher(
    password: Seq<char>,
    modulus: Seq<char>,
    exponent: Seq<char>,
    cipher: Seq<u8>,
) -> bool {
    let n = hex_number(encode_utf8(modulus))->0;
    let e = hex_number(encode_utf8(exponent))->0;
    is_rsa_cipher(n, e, byte_length(n), encode_utf8(password), cipher)
}

/// What an auth session tells of the device.
#[derive(Debug, Clone)]
pub struct DeviceDetails {
    pub device_friendly_name: Option<String>,
    pub platform_type: Option<i32>,
    pub os_type: Option<i32>,
}

/// Begins an auth session.
#[derive(Debug, Clone)]
pub struct BeginAuthRequest {
    pub account_name: Option<String>,
    pub encrypted_password: Option<String>,
    pub encryption_timestamp: Option<u64>,
    pub remember_login: Option<bool>,
    pub platform_type: Option<i32>,
    pub persistence: Option<i32>,
    pub website_id: Option<String>,
    pub device_details: Option<DeviceDetails>,
}

/// `request` begins a session of a Steam client that is remembered, for this
/// account and from this program.
pub open spec fn begins_auth(request: BeginAuthRequest, account_name: Seq<char>) -> bool {
    &&& text_of(request.account_name) == Some(account_name)
    &&& request.remember_login == Some(true)
    &&& request.platform_type == Some(1i32)
    &&& request.persistence == Some(1i32)
    &&& text_of(request.website_id) == Some("Client"@)
    &&& request.device_details matches Some(device) && {
        &&& text_of(device.device_friendly_name) == Some("steamdepot-rs"@)
        &&& device.platform_type == Some(1i32)
        &&& device.os_type == Some(20i32)
    }
}

/// A request that begins an auth session is for the account, as a client that
/// is remembered.
pub proof fn auth_begins_for_the_account(request: BeginAuthRequest, account_name: Seq<char>)
    requires
        begins_auth(request, account_name),
    ensures
        request.account_name is Some && request.account_name->0@ == account_name,
        request.remember_login == Some(true),
        request.persistence == Some(1i32),
        request.platform_type == Some(1i32),
        request.website_id is Some && request.website_id->0@ == seq!['C', 'l', 'i', 'e', 'n', 't'],
        request.device_details is Some && request.device_details->0.platform_type == Some(1i32)
            && request.device_details->0.os_type == Some(20i32),
{
    reveal_strlit("Client");
    assert("Client"@ =~= seq!['C', 'l', 'i', 'e', 'n', 't']);
}

/// The request that begins an auth session with a password.
pub fn begin_auth_request(account_name: &str, encrypted_password: &str, timestamp: u64) -> (r:
    BeginAuthRequest)
    ensures
        begins_auth(r, account_name@),
        text_of(r.encrypted_password) == Some(encrypted_password@),
        r.encryption_timestamp == Some(timestamp),
{
    BeginAuthRequest {
        encrypted_password: Some(encrypted_password.to_string()),
        encryption_timestamp: Some(timestamp),
        ..begin_passwordless_request(account_name)
    }
}

/// The request that begins an auth session of an account with no password.
pub fn begin_passwordless_request(account_name: &str) -> (r: BeginAuthRequest)
    ensures
        begins_auth(r, account_name@),
        r.encrypted_password is None,
        r.encryption_timestamp is None,
{
    BeginAuthRequest {
        account_name: Some(account_name.to_string()),
        encrypted_password: None,
        encryption_timestamp: None,
        remember_login: Some(true),
        platform_type: Some(1),
        persistence: Some(1),
        website_id: Some("Client".to_string()),
        device_details: Some(
            DeviceDetails {
                device_friendly_name: Some("steamdepot-rs".to_string()),
                platform_type: Some(1),
                os_type: Some(20),
            },
        ),
    }
}

/// A kind of Steam Guard code.
#[derive(Debug, Clone, Copy, PartialEq, Eq, Structural)]
pub enum GuardType {
    EmailCode,
    DeviceCode,
}

/// The number of a kind of Steam Guard code.
pub open spec fn guard_number(guard_type: GuardType) -> i32 {
    match guard_type {
        GuardType::EmailCode => 2,
        GuardType::DeviceCode => 3,
    }
}

/// A code from an email has the number 2, one from a device the number 3, and
/// there are no others.
pub proof fn guard_numbers_are_these(guard_type: GuardType)
    ensures
        guard_number(guard_type) == 2 <==> guard_type == GuardType::EmailCode,
        guard_number(guard_type) == 3 <==> guard_type == GuardType::DeviceCode,
        guard_number(guard_type) == 2 || guard_number(guard_type) == 3,
{
}

impl GuardType {
    /// The number of this kind.
    pub fn code(self) -> (n: i32)
        ensures
            n == guard_number(self),
    {
        match self {
            GuardType::EmailCode => 2,
            GuardType::DeviceCode => 3,
        }
    }
}

/// An auth session that has begun.
#[derive(Debug, Clone)]
pub struct AuthSession {
    pub client_id: u64,
    pub request_id: Vec<u8>,
    pub steam_id: u64,
    pub allowed_confirmations: Vec<i32>,
}

/// What the CM answers to the request that begins an auth session.
#[derive(Debug, Clone)]
pub struct BeginAuthResponse {
    pub client_id: Option<u64>,
    pub request_id: Option<Vec<u8>>,
    pub steamid: Option<u64>,
    /// The kinds of confirmation, of which some may be left out.
    pub allowed_confirmations: Vec<Option<i32>>,
}

/// The numbers that are there, in their order.
pub open spec fn present(items: Seq<Option<i32>>) -> Seq<i32>
    decreases items.len(),
{
    if items.len() == 0 {
        Seq::empty()
    } else {
        match items.last() {
            Some(n) => present(items.drop_last()).push(n),
            None => present(items.drop_last()),
        }
    }
}

/// The auth session that the CM began.
pub fn auth_session_from(response: BeginAuthResponse) -> (session: AuthSession)
    ensures
        session.client_id == value_or(response.client_id, 0),
        session.request_id@ == value_or(items_of(response.request_id), Seq::empty()),
        session.steam_id == value_or(response.steamid, 0),
        session.allowed_confirmations@ == present(response.allowed_confirmations@),
{
    let ghost items = response.allowed_confirmations@;
    let mut allowed: Vec<i32> = Vec::new();
    let count: usize = response.allowed_confirmations.len();
    for i in 0..count
        invariant
            count == response.allowed_confirmations@.len(),
            items == response.allowed_confirmations@,
            allowed@ == present(items.take(i as int)),
    {
        proof {
            assert(items.take(i + 1).drop_last() =~= items.take(i as int));
            assert(items.take(i + 1).last() == items[i as int]);
        }
        match response.allowed_confirmations[i] {
            Some(n) => allowed.push(n),
            None => {},
        }
    }
    assert(items.take(count as int) =~= items);
    AuthSession {
        client_id: match response.client_id {
            Some(id) => id,
            None => 0,
        },
        request_id: items_or_empty(response.request_id),
        steam_id: match response.steamid {
            Some(id) => id,
            None => 0,
        },
        allowed_confirmations: allowed,
    }
}

impl AuthSession {
    /// Whether the CM asks for a code of this kind.
    pub fn needs_guard(&self, guard_type: GuardType) -> (r: bool)
        ensures
            r == self.allowed_confirmations@.contains(guard_number(guard_type)),
    {
        let wanted: i32 = guard_type.code();
        for i in 0..self.allowed_confirmations.len()
            invariant
                wanted == guard_number(guard_type),
                forall|j: int| 0 <= j < i ==> #[trigger] self.allowed_confirmations@[j] != wanted,
        {
            if self.allowed_confirmations[i] == wanted {
                assert(self.allowed_confirmations@[i as int] == wanted);
                return true;
            }
        }
        false
    }
}

/// A kind of confirmation that the CM names is asked for.
pub proof fn named_confirmation_is_present(items: Seq<Option<i32>>, n: i32)
    ensures
        present(items).contains(n) == items.contains(Some(n)),
    decreases items.len(),
{
    if items.len() > 0 {
        let fewer = items.drop_last();
        named_confirmation_is_present(fewer, n);
        if items.contains(Some(n)) {
            let i = choose|i: int| 0 <= i < items.len() && items[i] == Some(n);
            if i < fewer.len() {
                assert(fewer[i] == Some(n));
            }
        }
        if fewer.contains(Some(n)) {
            let i = choose|i: int| 0 <= i < fewer.len() && fewer[i] == Some(n);
            assert(items[i] == Some(n));
        }
        if items.last() == Some(n) {
            assert(present(items).last() == n);
            assert(items[items.len() - 1] == Some(n));
        }
        if present(fewer).contains(n) {
            let i = choose|i: int| 0 <= i < present(fewer).len() && present(fewer)[i] == n;
            assert(present(items)[i] == n);
        }
        if present(items).contains(n) {
            let i = choose|i: int| 0 <= i < present(items).len() && present(items)[i] == n;
            if i < present(fewer).len() {
                assert(present(fewer)[i] == n);
            }
        }
    }
}

/// The kinds of confirmation stay in their order: those of two lists, one
/// behind the other, are those of the first and then those of the second.
pub proof fn confirmations_keep_their_order(a: Seq<Option<i32>>, b: Seq<Option<i32>>)
    ensures
        present(a + b) == present(a) + present(b),
        present(a).len() <= a.len(),
        (forall|i: int| 0 <= i < a.len() ==> (#[trigger] a[i]) is Some) ==> present(a).len()
            == a.len(),
    decreases b.len(), a.len(),
{
    if b.len() == 0 {
        assert(a + b =~= a);
        assert(present(a) + present(b) =~= present(a));
    } else {
        confirmations_keep_their_order(a, b.drop_last());
        assert((a + b).drop_last() =~= a + b.drop_last());
        assert(present(a + b) =~= present(a) + present(b));
    }
    if a.len() > 0 {
        let fewer = a.drop_last();
        confirmations_keep_their_order(fewer, Seq::empty());
        if forall|i: int| 0 <= i < a.len() ==> (#[trigger] a[i]) is Some {
            assert forall|i: int| 0 <= i < fewer.len() implies (#[trigger] fewer[i]) is Some by {
                assert(a[i] is Some);
            }
            assert(a[a.len() - 1] is Some);
        }
    }
}

/// Hands in a Steam Guard code.
#[derive(Debug, Clone)]
pub struct GuardCodeRequest {
    pub client_id: Option<u64>,
    pub steamid: Option<u64>,
    pub code: Option<String>,
    pub code_type: Option<i32>,
}

/// The request that hands in a Steam Guard code.
pub fn guard_code_request(session: &AuthSession, code: &str, code_type: GuardType) -> (r:
    GuardCodeRequest)
    ensures
        r.client_id == Some(session.client_id),
        r.steamid == Some(session.steam_id),
        text_of(r.code) == Some(code@),
        r.code_type == Some(guard_number(code_type)),
{
    GuardCodeRequest {
        client_id: Some(session.client_id),
        steamid: Some(session.steam_id),
        code: Some(code.to_string()),
        code_type: Some(code_type.code()),
    }
}

/// Asks how an auth session stands.
#[derive(Debug, Clone)]
pub struct PollAuthRequest {
    pub client_id: Option<u64>,
    pub request_id: Option<Vec<u8>>,
}

/// The request that asks how an auth session stands.
pub fn poll_auth_request(session: &AuthSession) -> (r: PollAuthRequest)
    ensures
        r.client_id == Some(session.client_id),
        items_of(r.request_id) == Some(session.request_id@),
{
    PollAuthRequest {
        client_id: Some(session.client_id),
        request_id: Some(session.request_id.clone()),
    }
}

/// What a confirmed auth session gives.
#[derive(Debug, Clone)]
pub struct AuthTokens {
    pub refresh_token: String,
    pub access_token: String,
}

/// The tokens of an auth session, once it is confirmed: there is a refresh
/// token then, and it is not empty.
pub fn poll_outcome(refresh_token: Option<String>, access_token: Option<String>) -> (r: Option<
    AuthTokens,
>)
    ensures
        match r {
            Some(tokens) => text_of(refresh_token) == Some(tokens.refresh_token@)
                && tokens.refresh_token@.len() > 0 && tokens.access_token@ == value_or(
                text_of(access_token),
                Seq::empty(),
            ),
            None => value_or(text_of(refresh_token), Seq::empty()).len() == 0,
        },
{
    match refresh_token {
        Some(refresh_token) => if refresh_token.as_str().unicode_len() > 0 {
            Some(AuthTokens { refresh_token, access_token: text_or_empty(access_token) })
        } else {
            None
        },
        None => None,
    }
}

/// A way to talk to a CM.
#[derive(Debug, Clone, Copy, PartialEq, Eq, Structural)]
pub enum CmServerType {
    Websockets,
    Other,
}

/// A CM.
#[derive(Debug, Clone)]
pub struct CmServer {
    pub endpoint: String,
    pub server_type: CmServerType,
}

/// The first CM that speaks WebSocket.
pub fn websocket_server(servers: &Vec<CmServer>) -> (r: Result<&CmServer, Error>)
    ensures
        match r {
            Ok(server) => exists|i: int|
                0 <= i < servers@.len() && *server == #[trigger] servers@[i] && server.server_type
                    == CmServerType::Websockets && forall|j: int|
                    0 <= j < i ==> (#[trigger] servers@[j]).server_type != CmServerType::Websockets,
            Err(e) => e@ == ErrorView::Other("no websocket CM server found"@) && forall|i: int|
                0 <= i < servers@.len() ==> (#[trigger] servers@[i]).server_type
                    != CmServerType::Websockets,
        },
{
    for i in 0..servers.len()
        invariant
            forall|j: int|
                0 <= j < i ==> (#[trigger] servers@[j]).server_type != CmServerType::Websockets,
    {
        if servers[i].server_type == CmServerType::Websockets {
            return Ok(&servers[i]);
        }
    }
    Err(Error::other("no websocket CM server found"))
}

/// How to log on.
#[derive(Debug, Clone)]
pub enum Credentials {
    Anonymous { login_id: Option<u32> },
    Token { username: String, token: String },
}

/// How to log on with what the user gave: a name and a token go together, and
/// with neither the user is anonymous.
pub fn choose_credentials(
    username: Option<String>,
    token: Option<String>,
    login_id: Option<u32>,
) -> (r: Result<Credentials, Error>)
    ensures
        match (r, username, token) {
            (Ok(Credentials::Token { username: u, token: t }), Some(username), Some(token)) => u
                == username && t == token,
            (Err(e), Some(_), None) => e@ == ErrorView::Other("--username requires --token"@),
            (Err(e), None, Some(_)) => e@ == ErrorView::Other("--token requires --username"@),
            (Ok(Credentials::Anonymous { login_id: id }), None, None) => id == login_id,
            _ => false,
        },
{
    match (username, token) {
        (Some(username), Some(token)) => Ok(Credentials::Token { username, token }),
        (Some(_), None) => Err(Error::other("--username requires --token")),
        (None, Some(_)) => Err(Error::other("--token requires --username")),
        (None, None) => Ok(Credentials::Anonymous { login_id }),
    }
}

} // verus!
