use base64::Engine;
use bytes::Bytes;
use rsa::traits::PublicKeyParts;
use steamdepot::connection::{CmConnection, CmMessage};
use steamdepot::emsg::EMsg;
use steamdepot::error::Error;
use steamdepot::jwt::{extract_steamid_from_jwt, subject_of};
use steamdepot::login::{
    accept_logon, anonymous_logon, auth_session_from, begin_auth_request,
    begin_passwordless_request, choose_credentials, encrypt_password, expect_logon_response,
    guard_code_request, login_id_from, mark_authenticated, poll_auth_request, poll_outcome,
    rand_login_id, rsa_key_from, token_logon, websocket_server, AuthSession, BeginAuthResponse,
    CmServer, CmServerType, Credentials, GuardType, LogonResponse, RsaKey,
};
use steamdepot::proto::CMsgProtoBufHeader;

fn jwt(payload: &str) -> String {
    let text = base64::engine::general_purpose::URL_SAFE.encode(payload);
    format!("head.{}.sig", text.trim_end_matches('='))
}

#[test]
fn an_anonymous_logon_has_a_fixed_steam_id() {
    let logon = anonymous_logon(5);
    assert_eq!(logon.header.steamid, Some((1u64 << 56) | (10u64 << 52)));
    assert_eq!(logon.body.protocol_version, Some(65580));
    assert_eq!(logon.body.client_os_type, Some(20));
    assert_eq!(logon.body.obfuscated_private_ip, Some(5 ^ 0xBAADF00D));
    assert!(logon.body.account_name.is_none());
    assert!(logon.body.access_token.is_none());
    assert!(logon.body.should_remember_password.is_none());
}

#[test]
fn login_ids_stay_distinct_on_the_wire() {
    let a = anonymous_logon(1).body.obfuscated_private_ip;
    let b = anonymous_logon(2).body.obfuscated_private_ip;
    assert_ne!(a, b);
}

#[test]
fn a_login_id_is_half_a_hash() {
    assert_eq!(login_id_from(0x1234_5678_9ABC_DEF0), 0x9ABC_DEF0);
    let ids: Vec<u32> = (0..8).map(|_| rand_login_id()).collect();
    assert!(ids.iter().any(|id| *id != ids[0]));
}

#[test]
fn a_token_logon_names_the_account() {
    let token = jwt("{\"iss\":\"steam\",\"sub\":\"76561197960265729\"}");
    let logon = token_logon("gordon", &token, 1);
    assert_eq!(logon.header.steamid, Some(76561197960265729));
    assert_eq!(logon.body.account_name.as_deref(), Some("gordon"));
    assert_eq!(logon.body.access_token.as_deref(), Some(token.as_str()));
    assert_eq!(logon.body.should_remember_password, Some(true));
    assert_eq!(logon.body.obfuscated_private_ip, Some(1 ^ 0xBAADF00D));
    for token in ["opaque", &jwt("{\"sub\":\"0\"}")] {
        assert_eq!(token_logon("gordon", token, 1).header.steamid, None);
    }
}

#[test]
fn the_subject_of_a_token_is_found() {
    for (payload, id) in [
        ("{\"sub\":\"1\"}", Some(1)),
        ("{ \"sub\" : \"007\" , \"x\":1}", Some(7)),
        ("{\"sub\":\"+12\"}", Some(12)),
        ("{\"sub\":\"18446744073709551615\"}", Some(u64::MAX)),
        ("{\"sub\":\"18446744073709551616\"}", None),
        ("{\"sub\":\"\"}", None),
        ("{\"sub\":\"+\"}", None),
        ("{\"sub\":\"-1\"}", None),
        ("{\"sub\":\"12x\"}", None),
        ("{\"sub\":\"12", None),
        ("{\"sub\":12}", None),
        ("{\"sub\"", None),
        ("{\"subject\":\"12\"}", None),
        ("", None),
    ] {
        assert_eq!(extract_steamid_from_jwt(&jwt(payload)), id, "{payload}");
        assert_eq!(subject_of(payload.as_bytes().to_vec()), id, "{payload}");
    }
    assert_eq!(subject_of(vec![0xFF, 0xFE]), None);
}

#[test]
fn a_token_has_three_parts() {
    let good = jwt("{\"sub\":\"9\"}");
    assert_eq!(extract_steamid_from_jwt(&good), Some(9));
    assert_eq!(extract_steamid_from_jwt(&format!("{good}.more")), None);
    assert_eq!(extract_steamid_from_jwt("head.payload"), None);
    assert_eq!(extract_steamid_from_jwt(""), None);
    assert_eq!(extract_steamid_from_jwt("a.!!!.c"), None);
}

#[test]
fn a_token_may_use_either_alphabet() {
    assert_eq!(extract_steamid_from_jwt("h.eyJ4IjoiYWI_Iiwic3ViIjoiNyJ9.s"), Some(7));
    assert_eq!(extract_steamid_from_jwt("h.eyJ4IjoiYWI-Iiwic3ViIjoiNyJ9.s"), Some(7));
    assert_eq!(extract_steamid_from_jwt("h.eyJ4IjoiYWI/Iiwic3ViIjoiNyJ9.s"), Some(7));
    assert_eq!(extract_steamid_from_jwt("h.eyJ4IjoiYWI+Iiwic3ViIjoiNyJ9.s"), Some(7));
    assert_eq!(extract_steamid_from_jwt("h.eyJ4IjoiYWI_Iiwic3ViIjoiNy+9.s"), None);
}

#[test]
fn a_logon_begins_a_session() {
    let mut connection = CmConnection::new();
    let header = CMsgProtoBufHeader {
        steamid: Some(10),
        client_sessionid: Some(20),
        ..CMsgProtoBufHeader::empty()
    };
    let response = LogonResponse { eresult: Some(1), cell_id: Some(30), heartbeat_seconds: Some(9) };
    let session = accept_logon(&mut connection, &header, response).unwrap();
    assert_eq!((session.steam_id, session.session_id), (10, 20));
    assert_eq!((session.cell_id, session.heartbeat_seconds), (30, 9));
    assert!(!session.authenticated);
    assert_eq!(connection.session().unwrap().steam_id, 10);
    mark_authenticated(&mut connection);
    assert!(connection.session().unwrap().authenticated);
}

#[test]
fn a_refused_logon_begins_no_session() {
    let mut connection = CmConnection::new();
    for (eresult, code) in [(None, 2), (Some(5), 5), (Some(0), 0)] {
        let response = LogonResponse { eresult, cell_id: None, heartbeat_seconds: None };
        match accept_logon(&mut connection, &CMsgProtoBufHeader::empty(), response) {
            Err(e) => assert_eq!(e.message(), format!("logon failed (result {code})")),
            Ok(_) => panic!("granted"),
        }
        assert!(connection.session().is_none());
    }
    mark_authenticated(&mut connection);
    assert!(connection.session().is_none());
}

#[test]
fn another_message_is_no_answer_to_a_logon() {
    let message = |emsg: EMsg| CmMessage {
        emsg,
        header: CMsgProtoBufHeader::empty(),
        body: Bytes::new(),
    };
    assert!(expect_logon_response(&message(EMsg::ClientLogOnResponse)).is_ok());
    match expect_logon_response(&message(EMsg::ClientLogOff)) {
        Err(e) => assert_eq!(e.message(), "expected message 751, got 706"),
        Ok(_) => panic!("accepted"),
    }
}

#[test]
fn a_password_is_encrypted_for_the_key() {
    let private = rsa::RsaPrivateKey::new(&mut rsa::rand_core::OsRng, 512).unwrap();
    let key = RsaKey {
        modulus: private.n().to_str_radix(16),
        exponent: private.e().to_str_radix(16),
        timestamp: 1,
    };
    let text = encrypt_password("p\u{e4}ssword", &key).unwrap();
    let encrypted = base64::engine::general_purpose::STANDARD.decode(&text).unwrap();
    assert_eq!(encrypted.len(), 64);
    let plain = private.decrypt(rsa::Pkcs1v15Encrypt, &encrypted).unwrap();
    assert_eq!(plain, "p\u{e4}ssword".as_bytes());
    // The longest password that leaves room for the padding, and one more.
    assert!(encrypt_password(&"x".repeat(53), &key).is_ok());
    let e = encrypt_password(&"x".repeat(54), &key).unwrap_err();
    assert_eq!(e.message(), "RSA encrypt failed: message too long");
}

#[test]
fn a_bad_key_is_refused_with_a_reason() {
    let key = |modulus: &str, exponent: &str| RsaKey {
        modulus: modulus.to_string(),
        exponent: exponent.to_string(),
        timestamp: 0,
    };
    let e = encrypt_password("p", &key("xyz", "10001")).unwrap_err();
    assert_eq!(e.message(), "invalid RSA modulus");
    let e = encrypt_password("p", &key("c5", "")).unwrap_err();
    assert_eq!(e.message(), "invalid RSA exponent");
    let wide = format!("1{}1", "0".repeat(1023));
    for (modulus, exponent, reason) in [
        ("c4", "3", "invalid modulus"),
        ("0", "3", "invalid modulus"),
        ("3", "3", "invalid modulus"),
        ("c5", "2", "invalid exponent"),
        ("c5", "1", "public exponent too small"),
        ("+f_0000_0000_0001", "2_0000_0001", "public exponent too large"),
        ("f00000000000000000001", "10000000000000001", "public exponent too large"),
        (wide.as_str(), "3", "modulus too large"),
    ] {
        let e = encrypt_password("p", &key(modulus, exponent)).unwrap_err();
        assert_eq!(e.message(), format!("invalid RSA key: {reason}"), "{modulus} {exponent}");
    }
    for modulus in ["", "+", "_1", "++1", "-1", "1 "] {
        let e = encrypt_password("p", &key(modulus, "3")).unwrap_err();
        assert_eq!(e.message(), "invalid RSA modulus", "{modulus}");
    }
}

#[test]
fn a_key_comes_with_defaults() {
    let key = rsa_key_from(Some("ab".to_string()), None, Some(4));
    assert_eq!((key.modulus.as_str(), key.exponent.as_str(), key.timestamp), ("ab", "", 4));
    assert_eq!(rsa_key_from(None, None, None).timestamp, 0);
}

#[test]
fn an_auth_session_is_asked_for() {
    let r = begin_auth_request("gordon", "c2VjcmV0", 77);
    assert_eq!(r.account_name.as_deref(), Some("gordon"));
    assert_eq!(r.encrypted_password.as_deref(), Some("c2VjcmV0"));
    assert_eq!(r.encryption_timestamp, Some(77));
    assert_eq!(r.remember_login, Some(true));
    assert_eq!((r.platform_type, r.persistence), (Some(1), Some(1)));
    assert_eq!(r.website_id.as_deref(), Some("Client"));
    let device = r.device_details.unwrap();
    assert_eq!(device.device_friendly_name.as_deref(), Some("steamdepot-rs"));
    assert_eq!((device.platform_type, device.os_type), (Some(1), Some(20)));
    let r = begin_passwordless_request("gordon");
    assert_eq!(r.account_name.as_deref(), Some("gordon"));
    assert!(r.encrypted_password.is_none() && r.encryption_timestamp.is_none());
    assert_eq!(r.website_id.as_deref(), Some("Client"));
}

#[test]
fn an_auth_session_knows_which_codes_it_needs() {
    let session = auth_session_from(BeginAuthResponse {
        client_id: Some(1),
        request_id: Some(vec![2, 3]),
        steamid: Some(4),
        allowed_confirmations: vec![Some(3), None, Some(1)],
    });
    assert_eq!((session.client_id, session.steam_id), (1, 4));
    assert_eq!(session.request_id, vec![2, 3]);
    assert_eq!(session.allowed_confirmations, vec![3, 1]);
    assert!(session.needs_guard(GuardType::DeviceCode));
    assert!(!session.needs_guard(GuardType::EmailCode));
    let bare = auth_session_from(BeginAuthResponse {
        client_id: None,
        request_id: None,
        steamid: None,
        allowed_confirmations: vec![],
    });
    assert_eq!((bare.client_id, bare.steam_id), (0, 0));
    assert!(bare.request_id.is_empty() && !bare.needs_guard(GuardType::DeviceCode));
}

#[test]
fn codes_and_polls_name_the_session() {
    let session = AuthSession {
        client_id: 1,
        request_id: vec![9],
        steam_id: 4,
        allowed_confirmations: vec![],
    };
    let r = guard_code_request(&session, "ABCDE", GuardType::EmailCode);
    assert_eq!((r.client_id, r.steamid), (Some(1), Some(4)));
    assert_eq!(r.code.as_deref(), Some("ABCDE"));
    assert_eq!(r.code_type, Some(2));
    assert_eq!(guard_code_request(&session, "", GuardType::DeviceCode).code_type, Some(3));
    let r = poll_auth_request(&session);
    assert_eq!((r.client_id, r.request_id), (Some(1), Some(vec![9])));
}

#[test]
fn a_poll_ends_with_a_refresh_token() {
    assert!(poll_outcome(None, Some("a".to_string())).is_none());
    assert!(poll_outcome(Some(String::new()), None).is_none());
    let tokens = poll_outcome(Some("r".to_string()), None).unwrap();
    assert_eq!((tokens.refresh_token.as_str(), tokens.access_token.as_str()), ("r", ""));
    let tokens = poll_outcome(Some("r".to_string()), Some("a".to_string())).unwrap();
    assert_eq!(tokens.access_token, "a");
}

#[test]
fn the_first_websocket_server_is_taken() {
    let server = |endpoint: &str, server_type: CmServerType| CmServer {
        endpoint: endpoint.to_string(),
        server_type,
    };
    let servers = vec![
        server("a", CmServerType::Other),
        server("b", CmServerType::Websockets),
        server("c", CmServerType::Websockets),
    ];
    assert_eq!(websocket_server(&servers).unwrap().endpoint, "b");
    let none = vec![server("a", CmServerType::Other)];
    match websocket_server(&none) {
        Err(e) => assert_eq!(e.message(), "no websocket CM server found"),
        Ok(_) => panic!("found"),
    }
}

#[test]
fn a_name_and_a_token_go_together() {
    let text = |s: &str| Some(s.to_string());
    match choose_credentials(text("u"), text("t"), None) {
        Ok(Credentials::Token { username, token }) => assert_eq!((username + &token), "ut"),
        _ => panic!("not a token"),
    }
    match choose_credentials(None, None, Some(6)) {
        Ok(Credentials::Anonymous { login_id }) => assert_eq!(login_id, Some(6)),
        _ => panic!("not anonymous"),
    }
    match choose_credentials(text("u"), None, None) {
        Err(Error::Other(e)) => assert_eq!(e, "--username requires --token"),
        _ => panic!("accepted"),
    }
    match choose_credentials(None, text("t"), None) {
        Err(Error::Other(e)) => assert_eq!(e, "--token requires --username"),
        _ => panic!("accepted"),
    }
}
