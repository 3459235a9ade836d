//! Laws of the connection to a CM, of its messages and of logging on.

use bytes::Bytes;
use vstd::prelude::*;

use crate::connection::{
    classify, envelope_is_unpacked_where_it_says_so, frame_is_laid_out_like_this,
    frame_is_read_back, frame_message, message_cut_short_is_passed_over,
    other_plain_frames_name_nothing, packed_messages, parse_raw_frame, plain_frame_is_read_back,
    service_response, socket_step, socket_url, CmConnection, CmMessage, FrameHeader, Heartbeat,
    Incoming, RawFrame, ServiceCall, SocketEvent, SocketStep,
};
use crate::emsg::EMsg;
use crate::error::Error;
use crate::jwt::extract_steamid_from_jwt;
use crate::login::{
    accept_logon, anonymous_logon, auth_begins_for_the_account, auth_session_from,
    begin_auth_request, begin_passwordless_request, choose_credentials,
    confirmations_keep_their_order, expect_logon_response, guard_code_request, login_id_from,
    login_ids_stay_distinct, mark_authenticated, named_confirmation_is_present, poll_auth_request,
    poll_outcome, rsa_key_from, session_is_taken_field_by_field, token_logon, websocket_server,
    AuthSession, AuthTokens, BeginAuthRequest, BeginAuthResponse, CmServer, CmServerType,
    Credentials, GuardCodeRequest, GuardType, Logon, LogonResponse, PollAuthRequest, RsaKey,
};
use crate::outside::{gzip_inflated, held};
use crate::proto::CMsgProtoBufHeader;
use crate::session::SessionState;
use crate::wire::{le_bytes, le_value};

verus! {

// ---------------------------------------------------------------------------
// Messages
// ---------------------------------------------------------------------------

/// A message kind goes out as a number and comes back from it; no two kinds
/// have one number.
pub proof fn message_kinds_come_back(emsg: EMsg, n: u32, r: Option<EMsg>, other: EMsg, m: u32)
    requires
        call_ensures(EMsg::to_u32, (emsg,), n),
        call_ensures(EMsg::from_u32, (n,), r),
        call_ensures(EMsg::to_u32, (other,), m),
    ensures
        r == Some(emsg),
        n == m ==> emsg == other,
        n == 1 <==> emsg == EMsg::Multi,
        n == 147 <==> emsg == EMsg::ServiceMethodResponse,
        n == 151 <==> emsg == EMsg::ServiceMethodCallFromClient,
        n == 152 <==> emsg == EMsg::ServiceMethodSendToClient,
        n == 703 <==> emsg == EMsg::ClientHeartBeat,
        n == 706 <==> emsg == EMsg::ClientLogOff,
        n == 751 <==> emsg == EMsg::ClientLogOnResponse,
        n == 5438 <==> emsg == EMsg::ClientGetDepotDecryptionKey,
        n == 5439 <==> emsg == EMsg::ClientGetDepotDecryptionKeyResponse,
        n == 5514 <==> emsg == EMsg::ClientLogon,
        n == 5572 <==> emsg == EMsg::ClientRequestFreeLicense,
        n == 5573 <==> emsg == EMsg::ClientRequestFreeLicenseResponse,
        n == 8903 <==> emsg == EMsg::ClientPICSProductInfoRequest,
        n == 8904 <==> emsg == EMsg::ClientPICSProductInfoResponse,
        n == 8905 <==> emsg == EMsg::ClientPICSAccessTokenRequest,
        n == 8906 <==> emsg == EMsg::ClientPICSAccessTokenResponse,
        n == 9804 <==> emsg == EMsg::ServiceMethodCallFromClientNonAuthed,
{
}

/// A frame that is written is read back: the number of its kind, its header
/// and its body.
pub proof fn written_frame_is_read_back(
    emsg: EMsg,
    n: u32,
    header: &[u8],
    body: &[u8],
    frame: Vec<u8>,
    data: &Bytes,
    r: Result<RawFrame, Error>,
)
    requires
        header@.len() < 0x1_0000_0000,
        call_ensures(EMsg::to_u32, (emsg,), n),
        call_ensures(frame_message, (emsg, header, body), frame),
        held(*data) == frame@,
        call_ensures(parse_raw_frame, (data,), r),
    ensures
        r is Ok,
        r->Ok_0.emsg_val == n,
        held(r->Ok_0.body) == body@,
        match r->Ok_0.header {
            FrameHeader::Encoded(bytes) => held(bytes) == header@,
            FrameHeader::Plain(_) => false,
        },
        frame@.len() == 8 + header@.len() + body@.len(),
        frame@[0] + 256 * frame@[1] + 65536 * frame@[2] + 16777216 * frame@[3] == n + 0x8000_0000,
        frame@[4] + 256 * frame@[5] + 65536 * frame@[6] + 16777216 * frame@[7] == header@.len(),
{
    frame_is_read_back(emsg, header@, body@);
    frame_is_laid_out_like_this(emsg, header@, body@);
    let read = r->Ok_0;
    assert(read@.body == held(read.body));
}

/// Where a header of 36 bytes names who and what the message is for, reading
/// the frame tells it.
pub proof fn fixed_header_is_read(
    kind: u32,
    version: Seq<u8>,
    target: u64,
    source: u64,
    canary: u8,
    steamid: u64,
    session: u32,
    body: Seq<u8>,
    data: &Bytes,
    r: Result<RawFrame, Error>,
)
    requires
        kind < 0x8000_0000,
        version.len() == 2,
        held(*data) == le_bytes(kind as nat, 4) + seq![36u8] + version + le_bytes(target as nat, 8)
            + le_bytes(source as nat, 8) + seq![canary] + le_bytes(steamid as nat, 8) + le_bytes(
            session as nat,
            4,
        ) + body,
        call_ensures(parse_raw_frame, (data,), r),
    ensures
        r is Ok,
        r->Ok_0.emsg_val == kind,
        held(r->Ok_0.body) == body,
        match r->Ok_0.header {
            FrameHeader::Encoded(_) => false,
            FrameHeader::Plain(header) => {
                &&& header.steamid == Some(steamid)
                &&& header.client_sessionid is Some
                &&& session < 0x8000_0000 ==> header.client_sessionid->0 == session
                &&& session >= 0x8000_0000 ==> header.client_sessionid->0 == session - 0x1_0000_0000
                &&& header.jobid_target == if target == 0xFFFF_FFFF_FFFF_FFFF {
                    None
                } else {
                    Some(target)
                }
                &&& header.jobid_source == if source == 0xFFFF_FFFF_FFFF_FFFF {
                    None
                } else {
                    Some(source)
                }
                &&& header.target_job_name is None
                &&& header.eresult is None
            },
        },
{
    plain_frame_is_read_back(kind, version, target, source, canary, steamid, session, body);
    let read = r->Ok_0;
    assert(read@.body == held(read.body));
}

/// A header of another length names nobody. A frame of fewer than eight bytes,
/// or one that ends before its header does, is refused.
pub proof fn other_frames_name_nobody(data: &Bytes, r: Result<RawFrame, Error>)
    requires
        call_ensures(parse_raw_frame, (data,), r),
    ensures
        held(*data).len() < 8 ==> match r {
            Err(Error::MessageTooShort(_)) => true,
            _ => false,
        },
        8 <= held(*data).len() && held(*data)[3] >= 128 ==> match r {
            Ok(frame) => held(*data).len() >= 8 + le_value(held(*data).subrange(4, 8)),
            Err(Error::MessageTruncated) => held(*data).len() < 8 + le_value(
                held(*data).subrange(4, 8),
            ),
            Err(_) => false,
        },
        8 <= held(*data).len() < 20 && held(*data)[3] < 128 ==> match r {
            Err(Error::MessageTruncated) => true,
            _ => false,
        },
        held(*data).len() >= 20 && held(*data)[3] < 128 && (held(*data)[4] != 36 || held(*data).len()
            < 36) ==> match r {
            Ok(frame) => {
                &&& match frame.header {
                    FrameHeader::Encoded(_) => false,
                    FrameHeader::Plain(header) => header.steamid is None && header.client_sessionid
                        is None && header.jobid_source is None && header.jobid_target is None,
                }
                &&& held(frame.body) == if 20 <= held(*data)[4] && held(*data)[4] <= held(
                    *data,
                ).len() {
                    held(*data).skip(held(*data)[4] as int)
                } else {
                    held(*data).skip(20)
                }
            },
            Err(_) => false,
        },
{
    let bytes = held(*data);
    if bytes.len() >= 8 {
        let first = bytes.subrange(0, 4);
        crate::wire::lemma_le_value_4(first);
        assert(first[3] == bytes[3]);
    }
    if bytes.len() >= 20 && bytes[3] < 128 && (bytes[4] != 36 || bytes.len() < 36) {
        other_plain_frames_name_nothing(bytes);
        let read = r->Ok_0;
        assert(read@.body == held(read.body));
    }
}

/// Messages that are packed one behind the other wait in their order behind
/// those that waited before; one that is cut short is passed over.
pub proof fn packed_messages_wait_in_order(
    connection: &mut CmConnection,
    messages: Seq<Seq<u8>>,
    rest: Seq<u8>,
    payload: Bytes,
    nothing: (),
)
    requires
        forall|i: int| 0 <= i < messages.len() ==> (#[trigger] messages[i]).len() < 0x1_0000_0000,
        rest.len() < 4 || rest.len() < 4 + le_value(rest.take(4)),
        held(payload) == packed_messages(messages) + rest,
        call_ensures(CmConnection::queue_messages, (connection, payload), nothing),
    ensures
        final(connection).waiting() == old(connection).waiting() + messages,
        final(connection).state() == old(connection).state(),
{
    message_cut_short_is_passed_over(messages, rest);
}

/// An envelope gives the messages that are packed in it; they are inflated
/// first where the envelope names a size other than zero.
pub proof fn envelope_gives_its_messages(
    connection: &mut CmConnection,
    body: Vec<u8>,
    size: Option<u32>,
    messages: Seq<Seq<u8>>,
    rest: Seq<u8>,
    r: Result<(), Error>,
)
    requires
        forall|i: int| 0 <= i < messages.len() ==> (#[trigger] messages[i]).len() < 0x1_0000_0000,
        rest.len() < 4 || rest.len() < 4 + le_value(rest.take(4)),
        if size is Some && size->0 != 0 {
            gzip_inflated(body@) == Ok::<Seq<u8>, Seq<char>>(packed_messages(messages) + rest)
        } else {
            body@ == packed_messages(messages) + rest
        },
        call_ensures(CmConnection::unpack_multi, (connection, Some(body), size), r),
    ensures
        r is Ok,
        final(connection).waiting() == old(connection).waiting() + messages,
        final(connection).state() == old(connection).state(),
{
    message_cut_short_is_passed_over(messages, rest);
    envelope_is_unpacked_where_it_says_so(
        body@,
        if size is Some {
            size->0
        } else {
            0
        },
    );
}

/// An envelope without a body gives nothing; one that cannot be inflated is
/// refused and gives nothing.
pub proof fn other_envelopes_give_nothing(
    connection: &mut CmConnection,
    body: Option<Vec<u8>>,
    size: Option<u32>,
    r: Result<(), Error>,
)
    requires
        body is Some ==> size is Some && size->0 != 0 && gzip_inflated(body->0@) is Err,
        call_ensures(CmConnection::unpack_multi, (connection, body, size), r),
    ensures
        final(connection).waiting() == old(connection).waiting(),
        final(connection).state() == old(connection).state(),
        r is Ok <==> body is None,
        match r {
            Ok(_) => true,
            Err(Error::Io(text)) => gzip_inflated(body->0@) == Err::<Seq<u8>, Seq<char>>(text@),
            Err(_) => false,
        },
{
}

/// The frame that has waited longest is handed out, and the others stay.
pub proof fn frames_are_handed_out_in_order(connection: &mut CmConnection, r: Option<Bytes>)
    requires
        call_ensures(CmConnection::next_frame, (connection,), r),
    ensures
        final(connection).state() == old(connection).state(),
        match r {
            Some(frame) => old(connection).waiting() == seq![held(frame)]
                + final(connection).waiting(),
            None => old(connection).waiting().len() == 0 && final(connection).waiting().len() == 0,
        },
{
}

/// A message is known by its number: an envelope is unpacked, any other kind
/// that has a name is handed on with its header and body, and the rest is
/// passed over.
pub proof fn messages_are_known_by_their_number(
    emsg: EMsg,
    n: u32,
    header: CMsgProtoBufHeader,
    body: Bytes,
    incoming: Incoming,
    unknown: u32,
    skipped: Incoming,
    known: Option<EMsg>,
)
    requires
        call_ensures(EMsg::to_u32, (emsg,), n),
        call_ensures(classify, (n, header, body), incoming),
        call_ensures(EMsg::from_u32, (unknown,), known),
        known is None,
        call_ensures(classify, (unknown, header, body), skipped),
    ensures
        match incoming {
            Incoming::Multi(bytes) => emsg == EMsg::Multi && bytes == body,
            Incoming::Message(message) => emsg != EMsg::Multi && message.emsg == emsg
                && message.header == header && message.body == body,
            Incoming::Skip => false,
        },
        skipped is Skip,
{
    match incoming {
        Incoming::Message(message) => {
            crate::emsg::emsg_numbers_are_distinct(emsg, message.emsg);
        },
        Incoming::Multi(_) => {
            crate::emsg::emsg_numbers_are_distinct(emsg, EMsg::Multi);
        },
        Incoming::Skip => {},
    }
}

/// Binary data is a frame, a socket that closes or ends is a connection that
/// was closed, and anything else on it is passed over.
pub proof fn socket_is_read_like_this(event: SocketEvent, step: SocketStep)
    requires
        call_ensures(socket_step, (event,), step),
    ensures
        match (event, step) {
            (SocketEvent::Binary(data), SocketStep::Frame(frame)) => frame == data,
            (SocketEvent::Close, SocketStep::Failed(Error::ConnectionClosed)) => true,
            (SocketEvent::End, SocketStep::Failed(Error::ConnectionClosed)) => true,
            (SocketEvent::Other, SocketStep::Again) => true,
            (SocketEvent::Failed(text), SocketStep::Failed(Error::WebSocket(told))) => told@
                == text@,
            _ => false,
        },
{
}

/// The address of a CM's socket is its endpoint between scheme and path.
pub proof fn socket_address_names_the_endpoint(endpoint: &str, url: String)
    requires
        call_ensures(socket_url, (endpoint,), url),
    ensures
        url@ == seq!['w', 's', 's', ':', '/', '/'] + endpoint@ + seq![
            '/',
            'c',
            'm',
            's',
            'o',
            'c',
            'k',
            'e',
            't',
            '/',
        ],
{
    reveal_strlit("wss://");
    reveal_strlit("/cmsocket/");
    assert("wss://"@ =~= seq!['w', 's', 's', ':', '/', '/']);
    assert("/cmsocket/"@ =~= seq!['/', 'c', 'm', 's', 'o', 'c', 'k', 'e', 't', '/']);
}

// ---------------------------------------------------------------------------
// The session
// ---------------------------------------------------------------------------

/// A new connection has no session and nothing that waits; without a session
/// nothing can be sent that needs one.
pub proof fn new_connection_has_no_session(
    connection: &CmConnection,
    session: Option<&SessionState>,
    header: Result<CMsgProtoBufHeader, Error>,
    beat: Option<Heartbeat>,
    logoff: Option<CMsgProtoBufHeader>,
    method: &str,
    job_id: u64,
    call: Result<ServiceCall, Error>,
)
    requires
        call_ensures(CmConnection::new, (), *connection),
        call_ensures(CmConnection::session, (connection,), session),
        call_ensures(CmConnection::session_header, (connection,), header),
        call_ensures(CmConnection::heartbeat, (connection,), beat),
        call_ensures(CmConnection::logoff_header, (connection,), logoff),
        call_ensures(CmConnection::service_method_call, (connection, method, job_id), call),
    ensures
        connection.waiting().len() == 0,
        session is None,
        match header {
            Err(Error::NoSession) => true,
            _ => false,
        },
        beat is None,
        logoff is None,
        match call {
            Err(Error::NoSession) => true,
            _ => false,
        },
{
}

/// `header` names the session, and no job.
pub open spec fn names_session(header: CMsgProtoBufHeader, session: SessionState) -> bool {
    &&& header.steamid == Some(session.steam_id)
    &&& header.client_sessionid == Some(session.session_id)
    &&& header.jobid_source is None
    &&& header.jobid_target is None
    &&& header.target_job_name is None
    &&& header.eresult is None
}

/// In a session every header names it: that of a message, that of a heartbeat
/// and that of the logoff. Heartbeats go out as often as the session says,
/// and never where it names no positive number of seconds.
pub proof fn headers_name_their_session(
    connection: &mut CmConnection,
    after: &CmConnection,
    session: SessionState,
    nothing: (),
    held_session: Option<&SessionState>,
    header: Result<CMsgProtoBufHeader, Error>,
    beat: Option<Heartbeat>,
    logoff: Option<CMsgProtoBufHeader>,
)
    requires
        call_ensures(CmConnection::set_session, (connection, session), nothing),
        *after == *final(connection),
        call_ensures(CmConnection::session, (after,), held_session),
        call_ensures(CmConnection::session_header, (after,), header),
        call_ensures(CmConnection::heartbeat, (after,), beat),
        call_ensures(CmConnection::logoff_header, (after,), logoff),
    ensures
        after.waiting() == old(connection).waiting(),
        held_session is Some && *held_session->0 == session,
        header is Ok && names_session(header->Ok_0, session),
        beat is Some <==> session.heartbeat_seconds > 0,
        beat is Some ==> beat->0.seconds == session.heartbeat_seconds && names_session(
            beat->0.header,
            session,
        ),
        logoff is Some && names_session(logoff->0, session),
{
    if let Ok(given) = header {
        assert(given@.steamid == given.steamid);
        assert(given@.target_job_name is None);
    }
    if let Some(beat) = beat {
        assert(beat.header@.target_job_name is None);
    }
    if let Some(given) = logoff {
        assert(given@.target_job_name is None);
    }
}

/// A call names its method and its job; one of an account names the session
/// too, and one before the logon names nobody.
pub proof fn calls_name_their_method_and_job(
    connection: &mut CmConnection,
    after: &CmConnection,
    session: SessionState,
    nothing: (),
    method: &str,
    job_id: u64,
    call: Result<ServiceCall, Error>,
    unauthed: ServiceCall,
)
    requires
        call_ensures(CmConnection::set_session, (connection, session), nothing),
        *after == *final(connection),
        call_ensures(CmConnection::service_method_call, (after, method, job_id), call),
        call_ensures(CmConnection::service_method_call_unauthed, (after, method, job_id), unauthed),
    ensures
        match call {
            Ok(call) => {
                &&& call.emsg == EMsg::ServiceMethodCallFromClient
                &&& call.header.steamid == Some(session.steam_id)
                &&& call.header.client_sessionid == Some(session.session_id)
                &&& call.header.jobid_source == Some(job_id)
                &&& call.header.jobid_target is None
                &&& call.header.target_job_name is Some && call.header.target_job_name->0@
                    == method@
                &&& call.header.eresult is None
            },
            Err(_) => false,
        },
        unauthed.emsg == EMsg::ServiceMethodCallFromClientNonAuthed,
        unauthed.header.steamid is None,
        unauthed.header.client_sessionid is None,
        unauthed.header.jobid_source == Some(job_id),
        unauthed.header.jobid_target is None,
        unauthed.header.target_job_name is Some && unauthed.header.target_job_name->0@ == method@,
        unauthed.header.eresult is None,
{
    if let Ok(call) = call {
        assert(call.header@.target_job_name == Some(method@));
    }
    assert(unauthed.header@.target_job_name == Some(method@));
}

/// Of the messages that come, the call of a job is answered by a response or a
/// notice for that job and by no other. The result 1 is success; any other is
/// the code of the error, and a missing one counts as 2.
pub proof fn call_is_answered_by_its_own(
    method: &str,
    job_id: u64,
    message: CmMessage,
    r: Option<Result<Bytes, Error>>,
)
    requires
        call_ensures(service_response, (method, job_id, message), r),
    ensures
        r is Some <==> message.header.jobid_target == Some(job_id) && (message.emsg
            == EMsg::ServiceMethodResponse || message.emsg == EMsg::ServiceMethodSendToClient),
        match r {
            Some(Ok(body)) => message.header.eresult == Some(1i32) && body == message.body,
            Some(Err(Error::EResult { code, context })) => {
                &&& message.header.eresult != Some(1i32)
                &&& match message.header.eresult {
                    Some(given) => code == given,
                    None => code == 2,
                }
                &&& context@ == "service method "@ + method@
            },
            Some(Err(_)) => false,
            None => true,
        },
{
}

// ---------------------------------------------------------------------------
// Logging on
// ---------------------------------------------------------------------------

/// The anonymous user has the SteamID of an anonymous account of the public
/// universe. Two logons with different login IDs tell different addresses.
pub proof fn anonymous_users_stay_apart(a: u32, b: u32, first: Logon, second: Logon)
    requires
        call_ensures(anonymous_logon, (a,), first),
        call_ensures(anonymous_logon, (b,), second),
    ensures
        first.header.steamid == Some(0x01A0_0000_0000_0000u64),
        first.header.client_sessionid is None,
        first.body.protocol_version == Some(65580u32),
        first.body.client_os_type == Some(20u32),
        first.body.account_name is None,
        first.body.access_token is None,
        first.body.obfuscated_private_ip is Some,
        first.body.obfuscated_private_ip == second.body.obfuscated_private_ip <==> a == b,
        first.body.obfuscated_private_ip == Some(a ^ 0xBAADF00Du32),
{
    if a != b {
        login_ids_stay_distinct(a, b);
    }
}

/// A logon with a token names the account, carries the token, and names the
/// SteamID that is read from the token, if there is one other than zero.
pub proof fn logon_carries_its_token(
    account_name: &str,
    refresh_token: &str,
    login_id: u32,
    logon: Logon,
    steam_id: Option<u64>,
)
    requires
        call_ensures(token_logon, (account_name, refresh_token, login_id), logon),
        call_ensures(extract_steamid_from_jwt, (refresh_token,), steam_id),
    ensures
        logon.header.steamid == if steam_id == Some(0u64) {
            None
        } else {
            steam_id
        },
        logon.header.client_sessionid is None,
        logon.body.account_name is Some && logon.body.account_name->0@ == account_name@,
        logon.body.access_token is Some && logon.body.access_token->0@ == refresh_token@,
        logon.body.should_remember_password == Some(true),
        logon.body.protocol_version == Some(65580u32),
        logon.body.client_os_type == Some(20u32),
        logon.body.obfuscated_private_ip == Some(login_id ^ 0xBAADF00Du32),
{
    assert(logon.header@.steamid == logon.header.steamid);
}

/// The low half of a hash is the login ID: what stands above it makes no
/// difference.
pub proof fn login_id_is_the_low_half(hash: u64, more: u64, id: u32, same: u32)
    requires
        hash + more * 0x1_0000_0000 <= u64::MAX,
        call_ensures(login_id_from, (hash,), id),
        call_ensures(login_id_from, ((hash + more * 0x1_0000_0000) as u64,), same),
    ensures
        hash < 0x1_0000_0000 ==> id == hash,
        same == id,
{
}

/// Only the answer to a logon is taken for one.
pub proof fn only_a_logon_answer_is_taken(message: &CmMessage, r: Result<(), Error>)
    requires
        call_ensures(expect_logon_response, (message,), r),
    ensures
        match r {
            Ok(_) => message.emsg == EMsg::ClientLogOnResponse,
            Err(Error::UnexpectedEMsg { expected, got }) => message.emsg
                != EMsg::ClientLogOnResponse && expected == EMsg::ClientLogOnResponse && got
                == message.emsg,
            Err(_) => false,
        },
{
}

/// The session that the answer to a logon grants.
pub open spec fn is_granted(
    session: SessionState,
    header: CMsgProtoBufHeader,
    response: LogonResponse,
) -> bool {
    &&& match header.steamid {
        Some(id) => session.steam_id == id,
        None => session.steam_id == 0,
    }
    &&& match header.client_sessionid {
        Some(id) => session.session_id == id,
        None => session.session_id == 0,
    }
    &&& match response.cell_id {
        Some(id) => session.cell_id == id,
        None => session.cell_id == 0,
    }
    &&& match response.heartbeat_seconds {
        Some(seconds) => session.heartbeat_seconds == seconds,
        None => session.heartbeat_seconds == 0,
    }
    &&& !session.authenticated
    &&& session.licensed_appids@.len() == 0
}

/// A logon that succeeds begins the session that the answer grants, for the
/// caller and for the connection; one that fails changes nothing.
pub proof fn logon_begins_its_session(
    connection: &mut CmConnection,
    header: &CMsgProtoBufHeader,
    response: LogonResponse,
    r: Result<SessionState, Error>,
)
    requires
        call_ensures(accept_logon, (connection, header, response), r),
    ensures
        final(connection).waiting() == old(connection).waiting(),
        match r {
            Ok(session) => {
                &&& response.eresult == Some(1i32)
                &&& is_granted(session, *header, response)
                &&& final(connection).state() is Some
                &&& is_granted(final(connection).state()->0, *header, response)
            },
            Err(Error::EResult { code, .. }) => {
                &&& response.eresult != Some(1i32)
                &&& match response.eresult {
                    Some(given) => code == given,
                    None => code == 2,
                }
                &&& final(connection).state() == old(connection).state()
            },
            Err(_) => false,
        },
{
    if let Ok(session) = r {
        session_is_taken_field_by_field(*header, response, session);
        session_is_taken_field_by_field(*header, response, final(connection).state()->0);
    }
}

/// Marking a session as that of an account changes nothing else of it.
pub proof fn marking_changes_nothing_else(connection: &mut CmConnection, nothing: ())
    requires
        call_ensures(mark_authenticated, (connection,), nothing),
    ensures
        final(connection).waiting() == old(connection).waiting(),
        match (old(connection).state(), final(connection).state()) {
            (Some(before), Some(after)) => {
                &&& after.authenticated
                &&& after.steam_id == before.steam_id
                &&& after.session_id == before.session_id
                &&& after.cell_id == before.cell_id
                &&& after.heartbeat_seconds == before.heartbeat_seconds
                &&& after.licensed_appids == before.licensed_appids
            },
            (None, None) => true,
            _ => false,
        },
{
}

/// The key to a password is what the CM gave, each part in its place.
pub proof fn rsa_key_is_taken_part_by_part(
    publickey_mod: Option<String>,
    publickey_exp: Option<String>,
    timestamp: Option<u64>,
    key: RsaKey,
)
    requires
        call_ensures(rsa_key_from, (publickey_mod, publickey_exp, timestamp), key),
    ensures
        match publickey_mod {
            Some(text) => key.modulus@ == text@,
            None => key.modulus@.len() == 0,
        },
        match publickey_exp {
            Some(text) => key.exponent@ == text@,
            None => key.exponent@.len() == 0,
        },
        match timestamp {
            Some(time) => key.timestamp == time,
            None => key.timestamp == 0,
        },
{
}

/// `request` is that of a client of the account that is to be remembered.
pub open spec fn is_remembered_client(request: BeginAuthRequest, account_name: Seq<char>) -> bool {
    &&& request.account_name is Some
    &&& request.account_name->0@ == account_name
    &&& request.remember_login == Some(true)
    &&& request.persistence == Some(1i32)
    &&& request.platform_type == Some(1i32)
    &&& request.website_id is Some
    &&& request.website_id->0@ == seq!['C', 'l', 'i', 'e', 'n', 't']
    &&& request.device_details is Some
    &&& request.device_details->0.platform_type == Some(1i32)
    &&& request.device_details->0.os_type == Some(20i32)
    &&& request.device_details->0.device_friendly_name is Some
    &&& request.device_details->0.device_friendly_name->0@ == "steamdepot-rs"@
}

/// An auth session begins for the account; with a password it carries the
/// password as it was encrypted and when, and without one it carries neither.
pub proof fn auth_session_begins_for_the_account(
    account_name: &str,
    encrypted_password: &str,
    timestamp: u64,
    with: BeginAuthRequest,
    without: BeginAuthRequest,
)
    requires
        call_ensures(begin_auth_request, (account_name, encrypted_password, timestamp), with),
        call_ensures(begin_passwordless_request, (account_name,), without),
    ensures
        is_remembered_client(with, account_name@),
        with.encrypted_password is Some && with.encrypted_password->0@ == encrypted_password@,
        with.encryption_timestamp == Some(timestamp),
        is_remembered_client(without, account_name@),
        without.encrypted_password is None,
        without.encryption_timestamp is None,
{
    auth_begins_for_the_account(with, account_name@);
    auth_begins_for_the_account(without, account_name@);
}

/// An auth session is what the CM answers, each part in its place; it needs a
/// code of a kind exactly where the CM names that kind.
pub proof fn auth_session_needs_what_is_named(
    response: BeginAuthResponse,
    session: &AuthSession,
    email: bool,
    device: bool,
)
    requires
        call_ensures(auth_session_from, (response,), *session),
        call_ensures(AuthSession::needs_guard, (session, GuardType::EmailCode), email),
        call_ensures(AuthSession::needs_guard, (session, GuardType::DeviceCode), device),
    ensures
        match response.client_id {
            Some(id) => session.client_id == id,
            None => session.client_id == 0,
        },
        match response.request_id {
            Some(id) => session.request_id@ == id@,
            None => session.request_id@.len() == 0,
        },
        match response.steamid {
            Some(id) => session.steam_id == id,
            None => session.steam_id == 0,
        },
        session.allowed_confirmations@.len() <= response.allowed_confirmations@.len(),
        (forall|i: int|
            0 <= i < response.allowed_confirmations@.len() ==> (
            #[trigger] response.allowed_confirmations@[i]) is Some)
            ==> session.allowed_confirmations@.len() == response.allowed_confirmations@.len(),
        email <==> response.allowed_confirmations@.contains(Some(2i32)),
        device <==> response.allowed_confirmations@.contains(Some(3i32)),
{
    named_confirmation_is_present(response.allowed_confirmations@, 2);
    named_confirmation_is_present(response.allowed_confirmations@, 3);
    confirmations_keep_their_order(response.allowed_confirmations@, Seq::empty());
}

/// What is handed in or asked for an auth session names that session.
pub proof fn auth_requests_name_their_session(
    session: &AuthSession,
    code: &str,
    email: GuardCodeRequest,
    device: GuardCodeRequest,
    poll: PollAuthRequest,
)
    requires
        call_ensures(guard_code_request, (session, code, GuardType::EmailCode), email),
        call_ensures(guard_code_request, (session, code, GuardType::DeviceCode), device),
        call_ensures(poll_auth_request, (session,), poll),
    ensures
        email.client_id == Some(session.client_id),
        email.steamid == Some(session.steam_id),
        email.code is Some && email.code->0@ == code@,
        email.code_type == Some(2i32),
        device.client_id == Some(session.client_id),
        device.steamid == Some(session.steam_id),
        device.code is Some && device.code->0@ == code@,
        device.code_type == Some(3i32),
        poll.client_id == Some(session.client_id),
        poll.request_id is Some && poll.request_id->0@ == session.request_id@,
{
}

/// An auth session is confirmed exactly where the CM gives a refresh token;
/// that token and the access token are handed on as they came.
pub proof fn confirmed_session_gives_its_tokens(
    refresh_token: Option<String>,
    access_token: Option<String>,
    r: Option<AuthTokens>,
)
    requires
        call_ensures(poll_outcome, (refresh_token, access_token), r),
    ensures
        r is Some <==> refresh_token is Some && refresh_token->0@.len() > 0,
        r is Some ==> r->0.refresh_token@ == refresh_token->0@ && match access_token {
            Some(token) => r->0.access_token@ == token@,
            None => r->0.access_token@.len() == 0,
        },
{
}

/// The first CM that speaks WebSocket is taken, and one is found wherever
/// there is one.
pub proof fn first_websocket_server_is_taken(
    servers: &Vec<CmServer>,
    r: Result<&CmServer, Error>,
    i: int,
)
    requires
        call_ensures(websocket_server, (servers,), r),
        0 <= i < servers@.len(),
        servers@[i].server_type == CmServerType::Websockets,
    ensures
        r is Ok,
        r->Ok_0.server_type == CmServerType::Websockets,
        exists|k: int| 0 <= k <= i && *r->Ok_0 == #[trigger] servers@[k],
{
    if let Ok(server) = r {
        let k = choose|k: int|
            0 <= k < servers@.len() && *server == #[trigger] servers@[k] && server.server_type
                == CmServerType::Websockets && forall|j: int|
                0 <= j < k ==> (#[trigger] servers@[j]).server_type != CmServerType::Websockets;
        assert(servers@[k] == *server);
    }
}

/// A name and a token go together; with neither the user is anonymous.
pub proof fn name_and_token_go_together(
    username: Option<String>,
    token: Option<String>,
    login_id: Option<u32>,
    r: Result<Credentials, Error>,
)
    requires
        call_ensures(choose_credentials, (username, token, login_id), r),
    ensures
        r is Err <==> username is Some != token is Some,
        match r {
            Ok(Credentials::Anonymous { login_id: id }) => username is None && id == login_id,
            Ok(Credentials::Token { username: name, token: given }) => username == Some(name)
                && token == Some(given),
            Err(_) => true,
        },
{
}

} // verus!
