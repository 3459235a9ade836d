//! A connection to a CM: frames, the messages in them, and the session.

use std::collections::VecDeque;

use bytes::Bytes;
use vstd::prelude::*;

use crate::emsg::{emsg_number, EMsg};
use crate::error::{viewed, Error, ErrorView};
use crate::outside::{
    gzip_inflate, gzip_inflated, held, share, shared_bytes, shared_range,
};
use crate::proto::{empty_header, value_or, CMsgProtoBufHeader, HeaderView};
use crate::session::SessionState;
use crate::wire::{
    byte_power, i32_at, le_bytes, le_value, lemma_le_round_trip, lemma_le_value_4, push_bytes,
    push_le, signed_32, u32_at, u64_at,
};

verus! {

/// The bit that marks a frame whose header is a protobuf message.
pub const PROTO_MASK: u32 = 0x80000000;

/// How many seconds to wait for the answer to a service method call.
pub const SERVICE_METHOD_TIMEOUT_SECONDS: u64 = 30;

/// A message of a CM.
pub struct CmMessage {
    pub emsg: EMsg,
    pub header: CMsgProtoBufHeader,
    pub body: Bytes,
}

/// The header of a frame.
pub enum FrameHeader {
    /// A protobuf message, not decoded yet.
    Encoded(Bytes),
    /// The fields of a header of fixed layout.
    Plain(CMsgProtoBufHeader),
}

/// A frame, before its kind is looked up.
pub struct RawFrame {
    pub emsg_val: u32,
    pub header: FrameHeader,
    pub body: Bytes,
}

/// A [`FrameHeader`] over mathematical values.
pub enum FrameHeaderView {
    Encoded(Seq<u8>),
    Plain(HeaderView),
}

/// A [`RawFrame`] over mathematical values.
pub struct FrameView {
    pub emsg_val: int,
    pub header: FrameHeaderView,
    pub body: Seq<u8>,
}

impl View for RawFrame {
    type V = FrameView;

    open spec fn view(&self) -> FrameView {
        FrameView {
            emsg_val: self.emsg_val as int,
            header: match self.header {
                FrameHeader::Encoded(bytes) => FrameHeaderView::Encoded(held(bytes)),
                FrameHeader::Plain(header) => FrameHeaderView::Plain(header@),
            },
            body: held(self.body),
        }
    }
}

/// The bytes from `from` up to `to`, as a number.
pub open spec fn number_in(data: Seq<u8>, from: int, to: int) -> nat {
    le_value(data.subrange(from, to))
}

/// A job number of which all bits set says that there is none.
pub open spec fn job_in(data: Seq<u8>, from: int) -> Option<u64> {
    let job = number_in(data, from, from + 8);
    if job == u64::MAX {
        None
    } else {
        Some(job as u64)
    }
}

/// How long a header of fixed layout is: what its fifth byte says, unless that
/// is less than 20 or more than the frame has, in which case it is 20.
pub open spec fn plain_header_length(data: Seq<u8>) -> int {
    if data[4] >= 20 && data[4] <= data.len() {
        data[4] as int
    } else {
        20
    }
}

/// The fields of a header of fixed layout: only one of 36 bytes has any.
pub open spec fn plain_header(data: Seq<u8>) -> HeaderView {
    if data[4] == 36 && data.len() >= 36 {
        HeaderView {
            steamid: Some(number_in(data, 24, 32) as u64),
            client_sessionid: Some(signed_32(number_in(data, 32, 36)) as i32),
            jobid_target: job_in(data, 7),
            jobid_source: job_in(data, 15),
            ..empty_header()
        }
    } else {
        empty_header()
    }
}

/// The frame that the data holds.
///
/// The first four bytes are the kind of message and, in the highest bit,
/// whether the header is a protobuf message. If it is, four bytes of header
/// length, the header and the body follow; if not, a header of fixed layout
/// and the body.
pub open spec fn frame_of(data: Seq<u8>) -> Result<FrameView, ErrorView> {
    if data.len() < 8 {
        Err(ErrorView::MessageTooShort(data.len() as usize))
    } else {
        let kind = number_in(data, 0, 4) as int;
        if kind >= 0x8000_0000 {
            let length = number_in(data, 4, 8) as int;
            if data.len() < 8 + length {
                Err(ErrorView::MessageTruncated)
            } else {
                Ok(
                    FrameView {
                        emsg_val: kind - 0x8000_0000,
                        header: FrameHeaderView::Encoded(data.subrange(8, 8 + length)),
                        body: data.skip(8 + length),
                    },
                )
            }
        } else if data.len() < plain_header_length(data) {
            Err(ErrorView::MessageTruncated)
        } else {
            Ok(
                FrameView {
                    emsg_val: kind,
                    header: FrameHeaderView::Plain(plain_header(data)),
                    body: data.skip(plain_header_length(data)),
                },
            )
        }
    }
}

/// Parts a frame into kind, header and body.
pub fn parse_raw_frame(data: &Bytes) -> (r: Result<RawFrame, Error>)
    ensures
        viewed(r) == frame_of(held(*data)),
{
    let bytes: &[u8] = shared_bytes(data);
    let size: usize = bytes.len();
    if size < 8 {
        return Err(Error::MessageTooShort(size));
    }
    let raw: u32 = u32_at(bytes, 0);
    let emsg_val: u32 = raw & !PROTO_MASK;
    let is_proto: bool = raw & PROTO_MASK != 0;
    assert(raw & !0x80000000u32 == if raw >= 0x80000000u32 {
        raw - 0x80000000u32
    } else {
        raw as int
    } && (raw & 0x80000000u32 != 0) == (raw >= 0x80000000u32)) by (bit_vector);
    if is_proto {
        let length: usize = u32_at(bytes, 4) as usize;
        if size - 8 < length {
            return Err(Error::MessageTruncated);
        }
        let header: Bytes = shared_range(data, 8, 8 + length);
        let body: Bytes = shared_range(data, 8 + length, size);
        assert(held(body) =~= bytes@.skip(8 + length));
        Ok(RawFrame { emsg_val, header: FrameHeader::Encoded(header), body })
    } else {
        let named: usize = bytes[4] as usize;
        let skip: usize = if named >= 20 && named <= size {
            named
        } else {
            20
        };
        if size < skip {
            return Err(Error::MessageTruncated);
        }
        let header: CMsgProtoBufHeader = if named == 36 && size >= 36 {
            let steamid: u64 = u64_at(bytes, 24);
            let session_id: i32 = i32_at(bytes, 32);
            let target: u64 = u64_at(bytes, 7);
            let source: u64 = u64_at(bytes, 15);
            CMsgProtoBufHeader {
                steamid: Some(steamid),
                client_sessionid: Some(session_id),
                jobid_source: job_number(source),
                jobid_target: job_number(target),
                target_job_name: None,
                eresult: None,
            }
        } else {
            CMsgProtoBufHeader::empty()
        };
        let body: Bytes = shared_range(data, skip, size);
        assert(held(body) =~= bytes@.skip(skip as int));
        Ok(RawFrame { emsg_val, header: FrameHeader::Plain(header), body })
    }
}

fn job_number(n: u64) -> (job: Option<u64>)
    ensures
        job == if n == u64::MAX {
            None::<u64>
        } else {
            Some(n)
        },
{
    if n != u64::MAX {
        Some(n)
    } else {
        None
    }
}

/// A message as a frame with a protobuf header: kind, header length, header
/// and body.
pub open spec fn frame_bytes(emsg: EMsg, header: Seq<u8>, body: Seq<u8>) -> Seq<u8> {
    le_bytes((emsg_number(emsg) + 0x8000_0000) as nat, 4) + le_bytes(header.len(), 4) + header
        + body
}

/// Puts a message into a frame. The length of the header goes in as its low 32
/// bits.
pub fn frame_message(emsg: EMsg, header: &[u8], body: &[u8]) -> (frame: Vec<u8>)
    ensures
        frame@ == frame_bytes(emsg, header@, body@),
{
    let kind: u32 = emsg.to_u32();
    assert(kind | 0x80000000u32 == kind + 0x80000000u32) by (bit_vector)
        requires
            kind < 0x80000000u32,
    ;
    let mut frame: Vec<u8> = Vec::new();
    push_le(&mut frame, (kind | PROTO_MASK) as u64, 4);
    push_le(&mut frame, header.len() as u64, 4);
    push_bytes(&mut frame, header);
    push_bytes(&mut frame, body);
    assert(frame@ =~= frame_bytes(emsg, header@, body@));
    frame
}

/// Parting the frame of a message gives back its kind, header and body.
pub proof fn frame_is_read_back(emsg: EMsg, header: Seq<u8>, body: Seq<u8>)
    requires
        header.len() < 0x1_0000_0000,
    ensures
        frame_of(frame_bytes(emsg, header, body)) == Ok::<FrameView, ErrorView>(
            FrameView {
                emsg_val: emsg_number(emsg) as int,
                header: FrameHeaderView::Encoded(header),
                body,
            },
        ),
{
    let kind = (emsg_number(emsg) + 0x8000_0000) as nat;
    let data = frame_bytes(emsg, header, body);
    reveal_with_fuel(byte_power, 5);
    lemma_le_round_trip(kind, 4);
    lemma_le_round_trip(header.len(), 4);
    assert(data.subrange(0, 4) =~= le_bytes(kind, 4));
    assert(data.subrange(4, 8) =~= le_bytes(header.len(), 4));
    assert(data.subrange(8, (8 + header.len()) as int) =~= header);
    assert(data.skip((8 + header.len()) as int) =~= body);
}

/// A frame begins with the number of its kind, the highest bit set, and the
/// length of its header, both least significant byte first; header and body
/// follow as they are.
pub proof fn frame_is_laid_out_like_this(emsg: EMsg, header: Seq<u8>, body: Seq<u8>)
    requires
        header.len() < 0x1_0000_0000,
    ensures
        ({
            let frame = frame_bytes(emsg, header, body);
            &&& frame.len() == 8 + header.len() + body.len()
            &&& frame[0] + 256 * frame[1] + 65536 * frame[2] + 16777216 * frame[3] == emsg_number(
                emsg,
            ) + 0x8000_0000
            &&& frame[4] + 256 * frame[5] + 65536 * frame[6] + 16777216 * frame[7] == header.len()
            &&& frame.subrange(8, (8 + header.len()) as int) == header
            &&& frame.skip((8 + header.len()) as int) == body
        }),
{
    let frame = frame_bytes(emsg, header, body);
    let kind = (emsg_number(emsg) + 0x8000_0000) as nat;
    reveal_with_fuel(byte_power, 5);
    lemma_le_round_trip(kind, 4);
    lemma_le_round_trip(header.len(), 4);
    lemma_le_value_4(le_bytes(kind, 4));
    lemma_le_value_4(le_bytes(header.len(), 4));
    assert(frame.subrange(0, 4) =~= le_bytes(kind, 4));
    assert(frame.subrange(4, 8) =~= le_bytes(header.len(), 4));
    assert(frame.subrange(0, 4)[0] == frame[0] && frame.subrange(0, 4)[1] == frame[1]
        && frame.subrange(0, 4)[2] == frame[2] && frame.subrange(0, 4)[3] == frame[3]);
    assert(frame.subrange(4, 8)[0] == frame[4] && frame.subrange(4, 8)[1] == frame[5]
        && frame.subrange(4, 8)[2] == frame[6] && frame.subrange(4, 8)[3] == frame[7]);
    assert(frame.subrange(8, (8 + header.len()) as int) =~= header);
    assert(frame.skip((8 + header.len()) as int) =~= body);
}

/// A frame with a header of fixed layout gives back what it was made of: the
/// kind; and, where the header has 36 bytes, the job that it is for, the job
/// that it comes from, the SteamID and the session.
pub proof fn plain_frame_is_read_back(
    kind: u32,
    version: Seq<u8>,
    target: u64,
    source: u64,
    canary: u8,
    steamid: u64,
    session: u32,
    body: Seq<u8>,
)
    requires
        kind < 0x8000_0000,
        version.len() == 2,
    ensures
        ({
            let data = le_bytes(kind as nat, 4) + seq![36u8] + version + le_bytes(
                target as nat,
                8,
            ) + le_bytes(source as nat, 8) + seq![canary] + le_bytes(steamid as nat, 8) + le_bytes(
                session as nat,
                4,
            ) + body;
            &&& frame_of(data) matches Ok(frame) && {
                &&& frame.emsg_val == kind
                &&& frame.body == body
                &&& frame.header matches FrameHeaderView::Plain(header) && {
                    &&& header.steamid == Some(steamid)
                    &&& header.client_sessionid is Some
                    &&& session < 0x8000_0000 ==> header.client_sessionid->0 == session
                    &&& session >= 0x8000_0000 ==> header.client_sessionid->0 == session
                        - 0x1_0000_0000
                    &&& header.jobid_target == if target == 0xFFFF_FFFF_FFFF_FFFF {
                        None
                    } else {
                        Some(target)
                    }
                    &&& header.jobid_source == if source == 0xFFFF_FFFF_FFFF_FFFF {
                        None
                    } else {
                        Some(source)
                    }
                    &&& header.target_job_name is None
                    &&& header.eresult is None
                }
            }
        }),
{
    let data = le_bytes(kind as nat, 4) + seq![36u8] + version + le_bytes(target as nat, 8)
        + le_bytes(source as nat, 8) + seq![canary] + le_bytes(steamid as nat, 8) + le_bytes(
        session as nat,
        4,
    ) + body;
    reveal_with_fuel(byte_power, 9);
    lemma_le_round_trip(kind as nat, 4);
    lemma_le_round_trip(target as nat, 8);
    lemma_le_round_trip(source as nat, 8);
    lemma_le_round_trip(steamid as nat, 8);
    lemma_le_round_trip(session as nat, 4);
    assert(data[4] == 36);
    assert(data.subrange(0, 4) =~= le_bytes(kind as nat, 4));
    assert(data.subrange(7, 15) =~= le_bytes(target as nat, 8));
    assert(data.subrange(15, 23) =~= le_bytes(source as nat, 8));
    assert(data.subrange(24, 32) =~= le_bytes(steamid as nat, 8));
    assert(data.subrange(32, 36) =~= le_bytes(session as nat, 4));
    assert(data.skip(36) =~= body);
}

/// A frame with any other header of fixed layout names no job, user or
/// session, and its body begins behind the header: behind as many bytes as the
/// fifth byte says, or behind 20 where that is too few or more than there are.
pub proof fn other_plain_frames_name_nothing(data: Seq<u8>)
    requires
        data.len() >= 20,
        data[3] < 128,
        data[4] != 36 || data.len() < 36,
    ensures
        frame_of(data) matches Ok(frame) && {
            &&& frame.header matches FrameHeaderView::Plain(header) && header.steamid is None
                && header.client_sessionid is None && header.jobid_source is None
                && header.jobid_target is None
            &&& frame.body == if 20 <= data[4] && data[4] <= data.len() {
                data.skip(data[4] as int)
            } else {
                data.skip(20)
            }
        },
{
    let first = data.subrange(0, 4);
    lemma_le_value_4(first);
    assert(first[3] == data[3]);
}

/// The messages in a stretch of data from `offset` on: each stands behind its
/// length in four bytes, and the first that is cut short ends them.
pub open spec fn messages_in(data: Seq<u8>, offset: int) -> Seq<Seq<u8>>
    decreases data.len() - offset,
{
    if offset < 0 || offset + 4 > data.len() {
        Seq::empty()
    } else {
        let length = number_in(data, offset, offset + 4) as int;
        if offset + 4 + length > data.len() {
            Seq::empty()
        } else {
            seq![data.subrange(offset + 4, offset + 4 + length)] + messages_in(
                data,
                offset + 4 + length,
            )
        }
    }
}

/// Messages one behind the other, each behind its length.
pub open spec fn packed_messages(messages: Seq<Seq<u8>>) -> Seq<u8>
    decreases messages.len(),
{
    if messages.len() == 0 {
        Seq::empty()
    } else {
        le_bytes(messages[0].len(), 4) + messages[0] + packed_messages(messages.drop_first())
    }
}

proof fn lemma_messages_behind(before: Seq<u8>, messages: Seq<Seq<u8>>)
    requires
        forall|i: int| 0 <= i < messages.len() ==> (#[trigger] messages[i]).len() < 0x1_0000_0000,
    ensures
        messages_in(before + packed_messages(messages), before.len() as int) == messages,
    decreases messages.len(),
{
    let data = before + packed_messages(messages);
    let at = before.len() as int;
    if messages.len() == 0 {
        assert(messages_in(data, at) =~= messages);
    } else {
        let first = messages[0];
        let rest = messages.drop_first();
        reveal_with_fuel(byte_power, 5);
        lemma_le_round_trip(first.len(), 4);
        assert(data.subrange(at, at + 4) =~= le_bytes(first.len(), 4));
        assert(data.subrange(at + 4, at + 4 + first.len()) =~= first);
        let longer = before + (le_bytes(first.len(), 4) + first);
        assert(longer + packed_messages(rest) =~= data);
        assert(longer.len() == at + 4 + first.len());
        assert forall|i: int| 0 <= i < rest.len() implies (#[trigger] rest[i]).len()
            < 0x1_0000_0000 by {
            assert(rest[i] == messages[i + 1]);
        }
        lemma_messages_behind(longer, rest);
        assert(seq![first] + rest =~= messages);
    }
}

/// Unpacking gives back the messages that were packed, in their order.
pub proof fn packed_messages_are_read_back(messages: Seq<Seq<u8>>)
    requires
        forall|i: int| 0 <= i < messages.len() ==> (#[trigger] messages[i]).len() < 0x1_0000_0000,
    ensures
        messages_in(packed_messages(messages), 0) == messages,
{
    lemma_messages_behind(Seq::empty(), messages);
    assert(Seq::<u8>::empty() + packed_messages(messages) =~= packed_messages(messages));
}

/// What is cut short at the end of an envelope is passed over, and changes
/// nothing of the messages before it.
pub proof fn message_cut_short_is_passed_over(messages: Seq<Seq<u8>>, rest: Seq<u8>)
    requires
        forall|i: int| 0 <= i < messages.len() ==> (#[trigger] messages[i]).len() < 0x1_0000_0000,
        rest.len() < 4 || rest.len() < 4 + le_value(rest.take(4)),
    ensures
        messages_in(packed_messages(messages) + rest, 0) == messages,
{
    lemma_messages_before_rest(Seq::empty(), messages, rest);
    assert(Seq::<u8>::empty() + packed_messages(messages) + rest =~= packed_messages(messages)
        + rest);
}

proof fn lemma_messages_before_rest(before: Seq<u8>, messages: Seq<Seq<u8>>, rest: Seq<u8>)
    requires
        forall|i: int| 0 <= i < messages.len() ==> (#[trigger] messages[i]).len() < 0x1_0000_0000,
        rest.len() < 4 || rest.len() < 4 + le_value(rest.take(4)),
    ensures
        messages_in(before + packed_messages(messages) + rest, before.len() as int) == messages,
    decreases messages.len(),
{
    let data = before + packed_messages(messages) + rest;
    let at = before.len() as int;
    if messages.len() == 0 {
        if rest.len() >= 4 {
            assert(data.subrange(at, at + 4) =~= rest.take(4));
        }
        assert(messages_in(data, at) =~= messages);
    } else {
        let first = messages[0];
        let others = messages.drop_first();
        reveal_with_fuel(byte_power, 5);
        lemma_le_round_trip(first.len(), 4);
        assert(data.subrange(at, at + 4) =~= le_bytes(first.len(), 4));
        assert(data.subrange(at + 4, at + 4 + first.len()) =~= first);
        let longer = before + (le_bytes(first.len(), 4) + first);
        assert(longer + packed_messages(others) + rest =~= data);
        assert(longer.len() == at + 4 + first.len());
        assert forall|i: int| 0 <= i < others.len() implies (#[trigger] others[i]).len()
            < 0x1_0000_0000 by {
            assert(others[i] == messages[i + 1]);
        }
        lemma_messages_before_rest(longer, others, rest);
        assert(seq![first] + others =~= messages);
    }
}

/// What an envelope of several messages holds: its body, unpacked where the
/// envelope says that it is packed; nothing where it has no body.
pub open spec fn multi_payload(message_body: Option<Seq<u8>>, size_unzipped: Option<u32>) -> Result<
    Option<Seq<u8>>,
    ErrorView,
> {
    match message_body {
        None => Ok(None),
        Some(body) => if size_unzipped is Some && size_unzipped->0 > 0 {
            match gzip_inflated(body) {
                Ok(payload) => Ok(Some(payload)),
                Err(text) => Err(ErrorView::Io(text)),
            }
        } else {
            Ok(Some(body))
        },
    }
}

/// The body of an envelope is taken as it is, unless the envelope names a size
/// that it has once unpacked: then it is unpacked.
pub proof fn envelope_is_unpacked_where_it_says_so(body: Seq<u8>, size: u32)
    ensures
        multi_payload(Some(body), None) == Ok::<Option<Seq<u8>>, ErrorView>(Some(body)),
        multi_payload(Some(body), Some(0)) == Ok::<Option<Seq<u8>>, ErrorView>(Some(body)),
        size > 0 ==> match gzip_inflated(body) {
            Ok(payload) => multi_payload(Some(body), Some(size)) == Ok::<
                Option<Seq<u8>>,
                ErrorView,
            >(Some(payload)),
            Err(text) => multi_payload(Some(body), Some(size)) == Err::<
                Option<Seq<u8>>,
                ErrorView,
            >(ErrorView::Io(text)),
        },
        multi_payload(None, Some(size)) == Ok::<Option<Seq<u8>>, ErrorView>(None),
        multi_payload(None, None) == Ok::<Option<Seq<u8>>, ErrorView>(None),
{
}

/// What to do with a message that came in.
pub enum Incoming {
    /// An envelope of several messages, to be decoded and unpacked.
    Multi(Bytes),
    /// A message that is waited for.
    Message(CmMessage),
    /// A message of a kind that nobody knows.
    Skip,
}

/// Sorts a message that came in by its kind.
pub fn classify(emsg_val: u32, header: CMsgProtoBufHeader, body: Bytes) -> (incoming: Incoming)
    ensures
        match incoming {
            Incoming::Multi(bytes) => emsg_val == emsg_number(EMsg::Multi) && bytes == body,
            Incoming::Message(message) => message.emsg != EMsg::Multi && emsg_val == emsg_number(
                message.emsg,
            ) && message.header == header && message.body == body,
            Incoming::Skip => forall|emsg: EMsg| emsg_val != #[trigger] emsg_number(emsg),
        },
{
    match EMsg::from_u32(emsg_val) {
        Some(emsg) => if emsg == EMsg::Multi {
            Incoming::Multi(body)
        } else {
            Incoming::Message(CmMessage { emsg, header, body })
        },
        None => Incoming::Skip,
    }
}

/// What came from the WebSocket.
pub enum SocketEvent {
    Binary(Bytes),
    Close,
    /// A text, a ping or a pong.
    Other,
    /// The stream is over.
    End,
    Failed(String),
}

/// What to do with what came from the WebSocket.
pub enum SocketStep {
    Frame(Bytes),
    Again,
    Failed(Error),
}

/// Binary messages are frames; a closed or finished stream ends the
/// connection; all else is passed over.
pub fn socket_step(event: SocketEvent) -> (step: SocketStep)
    ensures
        match event {
            SocketEvent::Binary(data) => step == SocketStep::Frame(data),
            SocketEvent::Close | SocketEvent::End => step == SocketStep::Failed(
                Error::ConnectionClosed,
            ),
            SocketEvent::Other => step is Again,
            SocketEvent::Failed(text) => step matches SocketStep::Failed(e) && e@
                == ErrorView::WebSocket(text@),
        },
{
    match event {
        SocketEvent::Binary(data) => SocketStep::Frame(data),
        SocketEvent::Close => SocketStep::Failed(Error::ConnectionClosed),
        SocketEvent::End => SocketStep::Failed(Error::ConnectionClosed),
        SocketEvent::Other => SocketStep::Again,
        SocketEvent::Failed(text) => SocketStep::Failed(Error::WebSocket(text)),
    }
}

/// A connection to a CM, but for its socket: the frames that came and wait to
/// be read, and the session once somebody has logged on.
pub struct CmConnection {
    queue: VecDeque<Bytes>,
    session: Option<SessionState>,
}

/// A header that names the session.
pub open spec fn header_of(session: SessionState) -> HeaderView {
    HeaderView {
        steamid: Some(session.steam_id),
        client_sessionid: Some(session.session_id),
        ..empty_header()
    }
}

/// When to send heartbeats, and with which header.
pub struct Heartbeat {
    pub seconds: u64,
    pub header: CMsgProtoBufHeader,
}

/// A service method call: the kind of message and its header.
pub struct ServiceCall {
    pub emsg: EMsg,
    pub header: CMsgProtoBufHeader,
}

/// The header of a service method call, on top of what names the session.
pub open spec fn call_header(base: HeaderView, method: Seq<char>, job_id: u64) -> HeaderView {
    HeaderView { target_job_name: Some(method), jobid_source: Some(job_id), ..base }
}

/// Headers name the user and the session; that of a service method call also
/// names the method and the job that waits for the answer.
pub proof fn headers_name_the_session(session: SessionState, method: Seq<char>, job_id: u64)
    ensures
        header_of(session).steamid == Some(session.steam_id),
        header_of(session).client_sessionid == Some(session.session_id),
        header_of(session).jobid_source is None,
        header_of(session).jobid_target is None,
        header_of(session).target_job_name is None,
        header_of(session).eresult is None,
        ({
            let header = call_header(header_of(session), method, job_id);
            &&& header.steamid == Some(session.steam_id)
            &&& header.client_sessionid == Some(session.session_id)
            &&& header.target_job_name == Some(method)
            &&& header.jobid_source == Some(job_id)
            &&& header.jobid_target is None
        }),
        ({
            let header = call_header(empty_header(), method, job_id);
            &&& header.steamid is None
            &&& header.client_sessionid is None
            &&& header.target_job_name == Some(method)
            &&& header.jobid_source == Some(job_id)
            &&& header.jobid_target is None
        }),
{
}

impl CmConnection {
    /// The frames that wait to be read.
    pub closed spec fn waiting(&self) -> Seq<Seq<u8>> {
        self.queue@.map_values(|frame: Bytes| held(frame))
    }

    /// The session, once somebody has logged on.
    pub closed spec fn state(&self) -> Option<SessionState> {
        self.session
    }

    /// A connection over which nothing has come, and with no session.
    pub fn new() -> (connection: CmConnection)
        ensures
            connection.waiting() == Seq::<Seq<u8>>::empty(),
            connection.state() is None,
    {
        let connection: CmConnection = CmConnection { queue: VecDeque::new(), session: None };
        assert(connection.waiting() =~= Seq::<Seq<u8>>::empty());
        connection
    }

    /// Takes the frame that has waited longest.
    pub fn next_frame(&mut self) -> (r: Option<Bytes>)
        ensures
            final(self).state() == old(self).state(),
            match r {
                Some(frame) => old(self).waiting().len() > 0 && held(frame) == old(self).waiting()[0]
                    && final(self).waiting() == old(self).waiting().drop_first(),
                None => old(self).waiting().len() == 0 && final(self).waiting()
                    == old(self).waiting(),
            },
    {
        let r: Option<Bytes> = self.queue.pop_front();
        assert(r is Some ==> self.waiting() =~= old(self).waiting().drop_first());
        assert(r is None ==> self.waiting() =~= old(self).waiting());
        r
    }

    /// Unpacks an envelope of several messages behind the frames that wait.
    pub fn unpack_multi(
        &mut self,
        message_body: Option<Vec<u8>>,
        size_unzipped: Option<u32>,
    ) -> (r: Result<(), Error>)
        ensures
            final(self).state() == old(self).state(),
            match (
                r,
                multi_payload(
                    match message_body {
                        Some(body) => Some(body@),
                        None => None,
                    },
                    size_unzipped,
                ),
            ) {
                (Ok(_), Ok(None)) => final(self).waiting() == old(self).waiting(),
                (Ok(_), Ok(Some(payload))) => final(self).waiting() == old(self).waiting()
                    + messages_in(payload, 0),
                (Err(e), Err(why)) => e@ == why && final(self).waiting() == old(self).waiting(),
                _ => false,
            },
    {
        let body: Vec<u8> = match message_body {
            Some(body) => body,
            None => return Ok(()),
        };
        let packed: bool = match size_unzipped {
            Some(size) => size > 0,
            None => false,
        };
        if packed {
            match gzip_inflate(body.as_slice()) {
                Ok(payload) => self.queue_messages(share(payload)),
                Err(text) => return Err(Error::Io(text)),
            }
        } else {
            self.queue_messages(share(body));
        }
        Ok(())
    }

    /// Puts the messages of a payload behind the frames that wait.
    pub fn queue_messages(&mut self, payload: Bytes)
        ensures
            final(self).state() == old(self).state(),
            final(self).waiting() == old(self).waiting() + messages_in(held(payload), 0),
    {
        let bytes: &[u8] = shared_bytes(&payload);
        let size: usize = bytes.len();
        let ghost whole = messages_in(bytes@, 0);
        let ghost mut taken = Seq::<Seq<u8>>::empty();
        let mut offset: usize = 0;
        let mut going: bool = true;
        assert(self.waiting() =~= old(self).waiting() + taken);
        assert(taken + whole =~= whole);
        while going
            invariant
                bytes@ == held(payload),
                size == bytes@.len(),
                offset <= size,
                whole == messages_in(bytes@, 0),
                self.session == old(self).session,
                self.waiting() == old(self).waiting() + taken,
                going ==> whole == taken + messages_in(bytes@, offset as int),
                !going ==> whole == taken,
            decreases size - offset, if going { 1int } else { 0 },
        {
            if size - offset < 4 {
                proof {
                    assert(taken + Seq::<Seq<u8>>::empty() =~= taken);
                }
                going = false;
            } else {
                let length: usize = u32_at(bytes, offset) as usize;
                if size - offset - 4 < length {
                    proof {
                        assert(taken + Seq::<Seq<u8>>::empty() =~= taken);
                    }
                    going = false;
                } else {
                    let start: usize = offset + 4;
                    let message: Bytes = shared_range(&payload, start, start + length);
                    let ghost before = self.waiting();
                    self.queue.push_back(message);
                    proof {
                        let one = bytes@.subrange(start as int, start + length);
                        let rest = messages_in(bytes@, start + length);
                        assert(self.waiting() =~= before.push(one));
                        assert(old(self).waiting() + taken.push(one) =~= before.push(one));
                        assert(taken + (seq![one] + rest) =~= taken.push(one) + rest);
                        taken = taken.push(one);
                    }
                    offset = start + length;
                }
            }
        }
    }

    /// Stores the session of a login.
    pub fn set_session(&mut self, session: SessionState)
        ensures
            final(self).state() == Some(session),
            final(self).waiting() == old(self).waiting(),
    {
        self.session = Some(session);
    }

    /// The session, if there is one.
    pub fn session(&self) -> (r: Option<&SessionState>)
        ensures
            match r {
                Some(session) => self.state() == Some(*session),
                None => self.state() is None,
            },
    {
        match &self.session {
            Some(session) => Some(session),
            None => None,
        }
    }

    /// The session, if there is one, to be changed.
    pub fn session_mut(&mut self) -> (r: Option<&mut SessionState>)
        ensures
            final(self).waiting() == old(self).waiting(),
            match r {
                Some(session) => old(self).state() == Some(*session) && final(self).state() == Some(
                    *final(session),
                ),
                None => old(self).state() is None && final(self).state() is None,
            },
    {
        match &mut self.session {
            Some(session) => Some(session),
            None => None,
        }
    }

    /// A header that names the session.
    pub fn session_header(&self) -> (r: Result<CMsgProtoBufHeader, Error>)
        ensures
            viewed(r) == match self.state() {
                Some(session) => Ok::<HeaderView, ErrorView>(header_of(session)),
                None => Err(ErrorView::NoSession),
            },
    {
        match &self.session {
            Some(session) => Ok(
                CMsgProtoBufHeader {
                    steamid: Some(session.steam_id),
                    client_sessionid: Some(session.session_id),
                    jobid_source: None,
                    jobid_target: None,
                    target_job_name: None,
                    eresult: None,
                },
            ),
            None => Err(Error::NoSession),
        }
    }

    /// When to send heartbeats: never without a session, nor in one that names
    /// no positive number of seconds.
    pub fn heartbeat(&self) -> (r: Option<Heartbeat>)
        ensures
            match (r, self.state()) {
                (Some(beat), Some(session)) => session.heartbeat_seconds > 0 && beat.seconds
                    == session.heartbeat_seconds && beat.header@ == header_of(session),
                (Some(_), None) => false,
                (None, Some(session)) => session.heartbeat_seconds <= 0,
                (None, None) => true,
            },
    {
        let seconds: i32 = match &self.session {
            Some(session) => session.heartbeat_seconds,
            None => return None,
        };
        if seconds <= 0 {
            return None;
        }
        match self.session_header() {
            Ok(header) => Some(Heartbeat { seconds: seconds as u64, header }),
            Err(_) => None,
        }
    }

    /// The header to log off with, where there is a session to log off from.
    pub fn logoff_header(&self) -> (r: Option<CMsgProtoBufHeader>)
        ensures
            match (r, self.state()) {
                (Some(header), Some(session)) => header@ == header_of(session),
                (None, None) => true,
                _ => false,
            },
    {
        match self.session_header() {
            Ok(header) => Some(header),
            Err(_) => None,
        }
    }

    /// A service method call in the session.
    pub fn service_method_call(&self, method: &str, job_id: u64) -> (r: Result<ServiceCall, Error>)
        ensures
            match (r, self.state()) {
                (Ok(call), Some(session)) => call.emsg == EMsg::ServiceMethodCallFromClient
                    && call.header@ == call_header(header_of(session), method@, job_id),
                (Err(e), None) => e@ == ErrorView::NoSession,
                _ => false,
            },
    {
        match self.session_header() {
            Ok(header) => Ok(
                ServiceCall {
                    emsg: EMsg::ServiceMethodCallFromClient,
                    header: CMsgProtoBufHeader {
                        target_job_name: Some(method.to_string()),
                        jobid_source: Some(job_id),
                        ..header
                    },
                },
            ),
            Err(e) => Err(e),
        }
    }

    /// A service method call that needs no session.
    pub fn service_method_call_unauthed(&self, method: &str, job_id: u64) -> (call: ServiceCall)
        ensures
            call.emsg == EMsg::ServiceMethodCallFromClientNonAuthed,
            call.header@ == call_header(empty_header(), method@, job_id),
    {
        ServiceCall {
            emsg: EMsg::ServiceMethodCallFromClientNonAuthed,
            header: CMsgProtoBufHeader {
                target_job_name: Some(method.to_string()),
                jobid_source: Some(job_id),
                ..CMsgProtoBufHeader::empty()
            },
        }
    }
}

/// `message` answers the service method call of job `job_id`.
pub open spec fn answers(message: CmMessage, job_id: u64) -> bool {
    (message.emsg == EMsg::ServiceMethodResponse || message.emsg
        == EMsg::ServiceMethodSendToClient) && message.header.jobid_target == Some(job_id)
}

/// Only a message that is sent to the waiting job answers its call, and only
/// one of the two kinds that carry answers.
pub proof fn answers_go_to_their_job(message: CmMessage, job_id: u64)
    ensures
        answers(message, job_id) == (message.header.jobid_target == Some(job_id) && (message.emsg
            == EMsg::ServiceMethodResponse || message.emsg == EMsg::ServiceMethodSendToClient)),
{
}

/// What the CM answers to the service method call of job `job_id`, where
/// `message` is the answer: its body, or the result code where that is not 1.
/// An answer with no result code has 2.
pub fn service_response(method: &str, job_id: u64, message: CmMessage) -> (r: Option<
    Result<Bytes, Error>,
>)
    ensures
        match r {
            None => !answers(message, job_id),
            Some(Ok(body)) => answers(message, job_id) && message.header.eresult == Some(1i32)
                && body == message.body,
            Some(Err(e)) => answers(message, job_id) && message.header.eresult != Some(1i32) && e@
                == (ErrorView::EResult {
                code: value_or(message.header.eresult, 2),
                context: "service method "@ + method@,
            }),
        },
{
    if message.emsg != EMsg::ServiceMethodResponse && message.emsg
        != EMsg::ServiceMethodSendToClient {
        return None;
    }
    let target: u64 = match message.header.jobid_target {
        Some(target) => target,
        None => return None,
    };
    if target != job_id {
        return None;
    }
    let code: i32 = match message.header.eresult {
        Some(code) => code,
        None => 2,
    };
    if code != 1 {
        let mut context: String = "service method ".to_string();
        context.append(method);
        return Some(Err(Error::eresult(code, context)));
    }
    Some(Ok(message.body))
}

/// The address of a CM's WebSocket.
pub fn socket_url(endpoint: &str) -> (url: String)
    ensures
        url@ == "wss://"@ + endpoint@ + "/cmsocket/"@,
{
    let mut url: String = "wss://".to_string();
    url.append(endpoint);
    url.append("/cmsocket/");
    url
}

} // verus!
