use aes::Aes128;
use amethyst_net::crypto::ServerKeys;
use amethyst_net::data_reader::DataReader;
use amethyst_net::data_writer::DataWriter;
use amethyst_net::framing::{prefix_length, read_packets};
use amethyst_net::login::{
    check_encryption_response, disconnect_frame, HandleResult, LoginFailure, LoginSession,
};
use amethyst_net::packet::ConnectionState;
use amethyst_net::server_hash::{hex_digest, server_hash};
use cfb8::cipher::{NewStreamCipher, StreamCipher};
use cfb8::Cfb8;
use openssl::rsa::{Padding, Rsa};

fn frame(id: u8, payload: &[u8]) -> Vec<u8> {
    let mut body = vec![id];
    body.extend_from_slice(payload);
    prefix_length(&body)
}

fn handshake(next_state: u8) -> Vec<u8> {
    let mut w = DataWriter::new();
    w.write_varint(47);
    w.write_string(&"localhost".to_string());
    w.write_u16(25565);
    w.write_u8(next_state);
    frame(0x00, &w.data)
}

fn run(session: &mut LoginSession, keys: &ServerKeys, bytes: &[u8]) -> (HandleResult, Vec<Vec<u8>>) {
    let packets = read_packets(bytes).unwrap();
    session.handle(&packets, keys, &"{\"motd\":1}".to_string())
}

fn encrypt(der: &[u8], plain: &[u8]) -> Vec<u8> {
    let rsa = Rsa::public_key_from_der(der).unwrap();
    let mut out = vec![0u8; rsa.size() as usize];
    let n = rsa.public_encrypt(plain, &mut out, Padding::PKCS1).unwrap();
    out.truncate(n);
    out
}

fn encryption_response(secret: &[u8], token: &[u8]) -> Vec<u8> {
    let mut w = DataWriter::new();
    w.write_varint(secret.len() as i32);
    w.write_data(secret);
    w.write_varint(token.len() as i32);
    w.write_data(token);
    frame(0x01, &w.data)
}

/// Logs "Alice" in up to the encryption request; returns the token sent.
fn start_login(session: &mut LoginSession, keys: &ServerKeys) -> Vec<u8> {
    let (r, out) = run(session, keys, &handshake(2));
    assert!(matches!(r, HandleResult::Continue));
    assert!(out.is_empty());
    assert_eq!(session.state, ConnectionState::Login);
    let mut w = DataWriter::new();
    w.write_string(&"Alice".to_string());
    let (r, out) = run(session, keys, &frame(0x00, &w.data));
    assert!(matches!(r, HandleResult::Continue));
    assert_eq!(out.len(), 1);
    let packets = read_packets(&out[0]).unwrap();
    assert_eq!(packets.len(), 1);
    assert_eq!(packets[0].id, 0x01);
    let mut reader = DataReader::new(packets[0].data);
    assert_eq!(reader.read_string().unwrap(), "");
    assert_eq!(reader.read_data().unwrap(), keys.public_der);
    let token = reader.read_data().unwrap();
    assert_eq!(token.len(), 4);
    assert_eq!(session.verify_token.unwrap().to_vec(), token);
    assert_eq!(session.nickname.as_deref(), Some("Alice"));
    token
}

#[test]
fn handshake_next_state_picks_status_or_login() {
    let keys = ServerKeys::generate().unwrap();
    let mut s = LoginSession::new();
    let (r, _) = run(&mut s, &keys, &handshake(1));
    assert!(matches!(r, HandleResult::Continue));
    assert_eq!(s.state, ConnectionState::Status);
    let mut s = LoginSession::new();
    run(&mut s, &keys, &handshake(2));
    assert_eq!(s.state, ConnectionState::Login);
    for bad in [0u8, 3, 255] {
        let mut s = LoginSession::new();
        let (r, out) = run(&mut s, &keys, &handshake(bad));
        assert!(matches!(r, HandleResult::Disconnect(LoginFailure::InvalidNextState)));
        assert!(out.is_empty());
        assert_eq!(s.state, ConnectionState::Handshaking);
    }
    assert_eq!(LoginFailure::InvalidNextState.message(), "Invalid handshake next state");
}

#[test]
fn status_request_and_ping() {
    let keys = ServerKeys::generate().unwrap();
    let mut s = LoginSession::new();
    let mut bytes = handshake(1);
    bytes.extend(frame(0x00, &[]));
    bytes.extend(frame(0x01, &7i64.to_be_bytes()));
    let (r, out) = run(&mut s, &keys, &bytes);
    assert!(matches!(r, HandleResult::Continue));
    assert_eq!(out.len(), 2);
    let mut status = vec![0x00];
    let mut w = DataWriter::new();
    w.write_string(&"{\"motd\":1}".to_string());
    status.extend(w.data);
    assert_eq!(out[0], prefix_length(&status));
    assert_eq!(out[1], frame(0x01, &7i64.to_be_bytes()));
}

#[test]
fn login_happy_path() {
    let keys = ServerKeys::generate().unwrap();
    let mut s = LoginSession::new();
    let token = start_login(&mut s, &keys);
    let secret: Vec<u8> = (1..=16).collect();
    let response = encryption_response(&encrypt(&keys.public_der, &secret), &encrypt(&keys.public_der, &token));
    let (r, out) = run(&mut s, &keys, &response);
    assert!(out.is_empty());
    let hash = match r {
        HandleResult::Authenticate(h) => h,
        other => panic!("unexpected {:?}", other),
    };
    assert_eq!(hash, server_hash(&[], &secret, &keys.public_der));
    assert_eq!(s.shared_secret.as_deref(), Some(&secret[..]));
    assert_eq!(s.state, ConnectionState::Login);

    let uuid = [7u8; 16];
    let mut out = Vec::new();
    let r = s.complete_login(Some((uuid, "Alice".to_string())), &mut out);
    assert!(matches!(r, HandleResult::Login));
    assert_eq!(s.state, ConnectionState::Play);
    assert_eq!(out.len(), 1);

    // the connection owner encrypts; the client decrypts with its own cipher
    let mut wire = out[0].clone();
    Cfb8::<Aes128>::new_var(&secret, &secret).unwrap().encrypt(&mut wire);
    assert_ne!(wire, out[0]);
    Cfb8::<Aes128>::new_var(&secret, &secret).unwrap().decrypt(&mut wire);
    let packets = read_packets(&wire).unwrap();
    assert_eq!(packets[0].id, 0x02);
    let mut reader = DataReader::new(packets[0].data);
    assert_eq!(reader.read_string().unwrap(), "07070707-0707-0707-0707-070707070707");
    assert_eq!(reader.read_string().unwrap(), "Alice");
}

#[test]
fn flipped_verify_token_is_refused() {
    let keys = ServerKeys::generate().unwrap();
    for bit in [0usize, 9, 31] {
        let mut s = LoginSession::new();
        let mut token = start_login(&mut s, &keys);
        token[bit / 8] ^= 1 << (bit % 8);
        let secret = [5u8; 16];
        let response = encryption_response(&encrypt(&keys.public_der, &secret), &encrypt(&keys.public_der, &token));
        let (r, _) = run(&mut s, &keys, &response);
        assert!(matches!(r, HandleResult::Disconnect(LoginFailure::WrongVerifyToken)));
        assert_eq!(s.state, ConnectionState::Login);
        assert!(s.shared_secret.is_none());
    }
}

#[test]
fn undecryptable_parts_are_refused() {
    let keys = ServerKeys::generate().unwrap();
    let mut s = LoginSession::new();
    let token = start_login(&mut s, &keys);
    let response = encryption_response(&[1, 2, 3], &[4, 5, 6]);
    let (r, _) = run(&mut s, &keys, &response);
    assert!(matches!(r, HandleResult::Disconnect(LoginFailure::InvalidVerifyToken)));
    let response = encryption_response(&[1, 2, 3], &encrypt(&keys.public_der, &token));
    let (r, _) = run(&mut s, &keys, &response);
    assert!(matches!(r, HandleResult::Disconnect(LoginFailure::InvalidSharedSecret)));
    let short = encrypt(&keys.public_der, &[1u8; 8]);
    let response = encryption_response(&short, &encrypt(&keys.public_der, &token));
    let (r, _) = run(&mut s, &keys, &response);
    assert!(matches!(r, HandleResult::Disconnect(LoginFailure::InvalidSharedSecret)));
}

#[test]
fn check_encryption_response_outcomes() {
    let t = [1u8, 2, 3, 4];
    assert_eq!(check_encryption_response(Some(t), None, None), Err(LoginFailure::InvalidVerifyToken));
    assert_eq!(
        check_encryption_response(Some(t), Some(vec![1, 2, 3, 5]), Some(vec![0; 16])),
        Err(LoginFailure::WrongVerifyToken)
    );
    assert_eq!(
        check_encryption_response(None, Some(vec![1, 2, 3, 4]), Some(vec![0; 16])),
        Err(LoginFailure::WrongVerifyToken)
    );
    assert_eq!(
        check_encryption_response(Some(t), Some(vec![1, 2, 3, 4]), None),
        Err(LoginFailure::InvalidSharedSecret)
    );
    assert_eq!(
        check_encryption_response(Some(t), Some(vec![1, 2, 3, 4]), Some(vec![0; 15])),
        Err(LoginFailure::InvalidSharedSecret)
    );
    assert_eq!(
        check_encryption_response(Some(t), Some(vec![1, 2, 3, 4]), Some(vec![9; 16])),
        Ok(vec![9; 16])
    );
}

#[test]
fn login_without_identity_fails() {
    let keys = ServerKeys::generate().unwrap();
    let mut s = LoginSession::new();
    start_login(&mut s, &keys);
    let mut out = Vec::new();
    let r = s.complete_login(Some(([0; 16], "Alice".to_string())), &mut out);
    assert!(matches!(r, HandleResult::Disconnect(LoginFailure::AuthenticationFailed)));
    assert_eq!(s.state, ConnectionState::Login);
    assert!(out.is_empty());
}

#[test]
fn unknown_packet_in_login_is_skipped_but_play_packet_disconnects() {
    let keys = ServerKeys::generate().unwrap();
    let mut s = LoginSession::new();
    run(&mut s, &keys, &handshake(2));
    let (r, out) = run(&mut s, &keys, &frame(0x05, &[1, 2]));
    assert!(matches!(r, HandleResult::Continue));
    assert!(out.is_empty());
    s.state = ConnectionState::Play;
    let (r, _) = run(&mut s, &keys, &frame(0x00, &[1]));
    assert!(matches!(r, HandleResult::Disconnect(LoginFailure::UnknownPacket)));
}

#[test]
fn signed_hex_digests() {
    // the well-known examples of the session protocol
    let notch = openssl::sha::sha1(b"Notch");
    assert_eq!(hex_digest(notch), "4ed1f46bbe04bc756bcb17c0c7ce3e4632f06a48");
    let jeb = openssl::sha::sha1(b"jeb_");
    assert_eq!(hex_digest(jeb), "-7c9d5b0044c130109a5d7b5fb5c317c02b4e28c1");
    let simon = openssl::sha::sha1(b"simon");
    assert_eq!(hex_digest(simon), "88e16a1019277b15d58faf0541e11910eb756f6");
}

#[test]
fn disconnect_frames_by_state() {
    assert!(disconnect_frame(ConnectionState::Handshaking, "bye").is_none());
    assert!(disconnect_frame(ConnectionState::Status, "bye").is_none());
    let f = disconnect_frame(ConnectionState::Login, "bye").unwrap();
    let packets = read_packets(&f).unwrap();
    assert_eq!(packets[0].id, 0x00);
    assert_eq!(DataReader::new(packets[0].data).read_string().unwrap(), "{\"text\":\"bye\"}");
    let f = disconnect_frame(ConnectionState::Play, "a\"b").unwrap();
    let packets = read_packets(&f).unwrap();
    assert_eq!(packets[0].id, 0x40);
    assert_eq!(DataReader::new(packets[0].data).read_string().unwrap(), "{\"text\":\"a\\\"b\"}");
}

#[test]
fn server_hash_of_known_inputs() {
    assert_eq!(server_hash(b"Notch", &[], &[]), "4ed1f46bbe04bc756bcb17c0c7ce3e4632f06a48");
    assert_eq!(server_hash(b"je", b"b_", &[]), "-7c9d5b0044c130109a5d7b5fb5c317c02b4e28c1");
    assert_eq!(server_hash(&[], b"sim", b"on"), "88e16a1019277b15d58faf0541e11910eb756f6");
}

#[test]
fn failure_messages() {
    assert_eq!(LoginFailure::InvalidVerifyToken.message(), "Invalid verify token");
    assert_eq!(LoginFailure::WrongVerifyToken.message(), "Wrong verify token");
    assert_eq!(LoginFailure::InvalidSharedSecret.message(), "Invalid shared secret");
    assert_eq!(LoginFailure::UnknownPacket.message(), "Unknown packet for this connection state");
    assert_eq!(LoginFailure::AlreadyLoggingIn.message(), "One client logging in per time!");
    assert!(!LoginFailure::AuthenticationFailed.message().is_empty());
}

#[test]
fn status_json_text() {
    let text = amethyst_net::login::status_json("1.8.9", 47, 10, 0, "Hi");
    assert_eq!(
        text,
        "{\"version\":{\"name\":\"1.8.9\",\"protocol\":47},\"players\":{\"max\":10,\"online\":0},\"description\":{\"text\":\"Hi\"}}"
    );
}

#[test]
fn batch_with_handshake_and_login_start_replies_once() {
    let keys = ServerKeys::generate().unwrap();
    let mut s = LoginSession::new();
    let mut bytes = handshake(2);
    let mut w = DataWriter::new();
    w.write_string(&"Alice".to_string());
    bytes.extend(frame(0x00, &w.data));
    let (r, out) = run(&mut s, &keys, &bytes);
    assert!(matches!(r, HandleResult::Continue));
    assert_eq!(out.len(), 1);
    assert_eq!(s.nickname.as_deref(), Some("Alice"));
    assert!(s.verify_token.is_some());
}
