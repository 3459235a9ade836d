use std::io::Write;

use bytes::Bytes;
use steamdepot::connection::{
    classify, frame_message, parse_raw_frame, service_response, socket_step, socket_url,
    CmConnection, CmMessage, FrameHeader, Incoming, SocketEvent, SocketStep,
};
use steamdepot::emsg::EMsg;
use steamdepot::error::Error;
use steamdepot::proto::CMsgProtoBufHeader;
use steamdepot::session::SessionState;

fn session() -> SessionState {
    SessionState {
        steam_id: 11,
        session_id: -2,
        cell_id: 3,
        heartbeat_seconds: 9,
        authenticated: false,
        licensed_appids: vec![],
    }
}

fn packed(messages: &[&[u8]]) -> Vec<u8> {
    let mut data = Vec::new();
    for message in messages {
        data.extend_from_slice(&(message.len() as u32).to_le_bytes());
        data.extend_from_slice(message);
    }
    data
}

fn waiting(connection: &mut CmConnection) -> Vec<Vec<u8>> {
    let mut frames = Vec::new();
    while let Some(frame) = connection.next_frame() {
        frames.push(frame.to_vec());
    }
    frames
}

#[test]
fn a_framed_message_comes_back() {
    let frame = frame_message(EMsg::ClientLogon, b"head", b"the body");
    assert_eq!(&frame[..8], &[0x8A, 0x15, 0, 0x80, 4, 0, 0, 0]);
    let raw = parse_raw_frame(&Bytes::from(frame)).unwrap();
    assert_eq!(raw.emsg_val, EMsg::ClientLogon.to_u32());
    assert!(matches!(raw.header, FrameHeader::Encoded(bytes) if &bytes[..] == b"head"));
    assert_eq!(&raw.body[..], b"the body");
}

#[test]
fn a_short_or_cut_frame_is_refused() {
    assert!(matches!(
        parse_raw_frame(&Bytes::from(vec![1u8; 7])),
        Err(Error::MessageTooShort(7))
    ));
    let frame = frame_message(EMsg::ClientLogon, b"head", b"");
    assert!(matches!(
        parse_raw_frame(&Bytes::from(frame[..11].to_vec())),
        Err(Error::MessageTruncated)
    ));
    // A header of fixed layout has at least 20 bytes.
    assert!(matches!(
        parse_raw_frame(&Bytes::from(vec![1u8; 19])),
        Err(Error::MessageTruncated)
    ));
}

#[test]
fn an_extended_header_is_read() {
    let mut data = vec![0u8; 36];
    data[..4].copy_from_slice(&8904u32.to_le_bytes());
    data[4] = 36;
    data[7..15].copy_from_slice(&77u64.to_le_bytes());
    data[15..23].copy_from_slice(&u64::MAX.to_le_bytes());
    data[24..32].copy_from_slice(&0x0110_0001_0000_0005u64.to_le_bytes());
    data[32..36].copy_from_slice(&(-9i32).to_le_bytes());
    data.extend_from_slice(b"rest");
    let raw = parse_raw_frame(&Bytes::from(data)).unwrap();
    assert_eq!(raw.emsg_val, 8904);
    assert_eq!(&raw.body[..], b"rest");
    match raw.header {
        FrameHeader::Plain(header) => {
            assert_eq!(header.steamid, Some(0x0110_0001_0000_0005));
            assert_eq!(header.client_sessionid, Some(-9));
            assert_eq!(header.jobid_target, Some(77));
            assert_eq!(header.jobid_source, None);
            assert_eq!(header.eresult, None);
        }
        FrameHeader::Encoded(_) => panic!("not of fixed layout"),
    }
}

#[test]
fn a_plain_header_falls_back_to_twenty_bytes() {
    for size in [0u8, 19, 200] {
        let mut data = vec![0u8; 24];
        data[4] = size;
        data[20..].copy_from_slice(b"body");
        let raw = parse_raw_frame(&Bytes::from(data)).unwrap();
        assert_eq!(&raw.body[..], b"body");
        assert!(matches!(raw.header, FrameHeader::Plain(h) if h.steamid.is_none()));
    }
    let mut data = vec![0u8; 24];
    data[4] = 22;
    data[22..].copy_from_slice(b"dy");
    assert_eq!(&parse_raw_frame(&Bytes::from(data)).unwrap().body[..], b"dy");
}

#[test]
fn messages_are_sorted_by_kind() {
    let body = || Bytes::from_static(b"b");
    assert!(matches!(classify(1, CMsgProtoBufHeader::empty(), body()), Incoming::Multi(_)));
    assert!(matches!(classify(12345, CMsgProtoBufHeader::empty(), body()), Incoming::Skip));
    match classify(751, CMsgProtoBufHeader::empty(), body()) {
        Incoming::Message(message) => {
            assert_eq!(message.emsg, EMsg::ClientLogOnResponse);
            assert_eq!(&message.body[..], b"b");
        }
        _ => panic!("not delivered"),
    }
}

#[test]
fn an_envelope_is_unpacked_in_order() {
    let mut connection = CmConnection::new();
    assert!(connection.next_frame().is_none());
    connection.unpack_multi(Some(packed(&[b"one", b"", b"three"])), None).unwrap();
    connection.unpack_multi(Some(packed(&[b"four"])), Some(0)).unwrap();
    assert_eq!(
        waiting(&mut connection),
        vec![b"one".to_vec(), b"".to_vec(), b"three".to_vec(), b"four".to_vec()]
    );
}

#[test]
fn a_packed_envelope_is_inflated() {
    let mut encoder = flate2::write::GzEncoder::new(Vec::new(), flate2::Compression::default());
    encoder.write_all(&packed(&[b"first", b"second"])).unwrap();
    let body = encoder.finish().unwrap();
    let mut connection = CmConnection::new();
    connection.unpack_multi(Some(body), Some(19)).unwrap();
    assert_eq!(waiting(&mut connection), vec![b"first".to_vec(), b"second".to_vec()]);
    let e = connection.unpack_multi(Some(b"not gzip".to_vec()), Some(1)).unwrap_err();
    assert!(matches!(e, Error::Io(_)));
    connection.unpack_multi(None, Some(1)).unwrap();
    assert!(connection.next_frame().is_none());
}

#[test]
fn a_cut_message_ends_the_envelope() {
    let mut data = packed(&[b"whole"]);
    data.extend_from_slice(&[9, 0, 0, 0, 1]);
    let mut connection = CmConnection::new();
    connection.queue_messages(Bytes::from(data));
    assert_eq!(waiting(&mut connection), vec![b"whole".to_vec()]);
    connection.queue_messages(Bytes::from_static(&[1, 0, 0]));
    assert!(waiting(&mut connection).is_empty());
}

#[test]
fn the_socket_decides_what_comes_next() {
    assert!(matches!(
        socket_step(SocketEvent::Binary(Bytes::from_static(b"x"))),
        SocketStep::Frame(data) if &data[..] == b"x"
    ));
    assert!(matches!(socket_step(SocketEvent::Other), SocketStep::Again));
    for event in [SocketEvent::Close, SocketEvent::End] {
        assert!(matches!(socket_step(event), SocketStep::Failed(Error::ConnectionClosed)));
    }
    assert!(matches!(
        socket_step(SocketEvent::Failed("reset".to_string())),
        SocketStep::Failed(Error::WebSocket(text)) if text == "reset"
    ));
}

#[test]
fn a_session_is_needed_for_a_header() {
    let mut connection = CmConnection::new();
    assert!(connection.session().is_none());
    assert!(connection.session_mut().is_none());
    assert!(matches!(connection.session_header(), Err(Error::NoSession)));
    assert!(connection.heartbeat().is_none());
    assert!(connection.logoff_header().is_none());
    assert!(matches!(connection.service_method_call("A.B#1", 1), Err(Error::NoSession)));

    connection.set_session(session());
    let header = connection.session_header().unwrap();
    assert_eq!((header.steamid, header.client_sessionid), (Some(11), Some(-2)));
    assert!(header.jobid_source.is_none() && header.target_job_name.is_none());
    assert_eq!(connection.logoff_header().unwrap().steamid, Some(11));
    connection.session_mut().unwrap().cell_id = 8;
    assert_eq!(connection.session().unwrap().cell_id, 8);
}

#[test]
fn a_heartbeat_needs_a_positive_interval() {
    let mut connection = CmConnection::new();
    connection.set_session(session());
    let beat = connection.heartbeat().unwrap();
    assert_eq!(beat.seconds, 9);
    assert_eq!(beat.header.client_sessionid, Some(-2));
    for seconds in [0, -1] {
        connection.set_session(SessionState { heartbeat_seconds: seconds, ..session() });
        assert!(connection.heartbeat().is_none());
    }
}

#[test]
fn a_call_names_its_method_and_job() {
    let mut connection = CmConnection::new();
    connection.set_session(session());
    let call = connection.service_method_call("A.B#1", 42).unwrap();
    assert_eq!(call.emsg, EMsg::ServiceMethodCallFromClient);
    assert_eq!(call.header.steamid, Some(11));
    assert_eq!(call.header.jobid_source, Some(42));
    assert_eq!(call.header.target_job_name.as_deref(), Some("A.B#1"));
    let call = CmConnection::new().service_method_call_unauthed("C.D#1", 43);
    assert_eq!(call.emsg, EMsg::ServiceMethodCallFromClientNonAuthed);
    assert_eq!(call.header.steamid, None);
    assert_eq!(call.header.jobid_source, Some(43));
    assert_eq!(call.header.target_job_name.as_deref(), Some("C.D#1"));
}

#[test]
fn only_the_answer_to_the_job_is_taken() {
    let message = |emsg: EMsg, target: Option<u64>, eresult: Option<i32>| CmMessage {
        emsg,
        header: CMsgProtoBufHeader {
            jobid_target: target,
            eresult,
            ..CMsgProtoBufHeader::empty()
        },
        body: Bytes::from_static(b"answer"),
    };
    assert!(service_response("m", 5, message(EMsg::ClientLogOnResponse, Some(5), Some(1))).is_none());
    assert!(service_response("m", 5, message(EMsg::ServiceMethodResponse, Some(6), Some(1))).is_none());
    assert!(service_response("m", 5, message(EMsg::ServiceMethodResponse, None, Some(1))).is_none());
    for emsg in [EMsg::ServiceMethodResponse, EMsg::ServiceMethodSendToClient] {
        let body = service_response("m", 5, message(emsg, Some(5), Some(1))).unwrap().unwrap();
        assert_eq!(&body[..], b"answer");
    }
    match service_response("A.B#1", 5, message(EMsg::ServiceMethodResponse, Some(5), None)) {
        Some(Err(Error::EResult { code, context })) => {
            assert_eq!((code, context.as_str()), (2, "service method A.B#1"))
        }
        _ => panic!("not refused"),
    }
    match service_response("m", 5, message(EMsg::ServiceMethodResponse, Some(5), Some(84))) {
        Some(Err(e)) => assert_eq!(e.message(), "service method m (result 84)"),
        _ => panic!("not refused"),
    }
}

#[test]
fn a_cm_has_an_address() {
    assert_eq!(socket_url("cm1.example:443"), "wss://cm1.example:443/cmsocket/");
}

#[test]
fn kinds_and_numbers_go_together() {
    for number in 0..10_000u32 {
        if let Some(emsg) = EMsg::from_u32(number) {
            assert_eq!(emsg.to_u32(), number);
        }
    }
    assert_eq!((0..10_000).filter(|n| EMsg::from_u32(*n).is_some()).count(), 17);
}
