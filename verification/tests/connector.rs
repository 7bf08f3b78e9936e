use cdc_rs::replication::connector::{
    check_auth_response, packet_payload_len, parse_handshake, AuthError, HandshakeError,
    ReplicationConfig,
};

/// A protocol-10 handshake as MySQL 8 sends it.
fn handshake(version: &[u8], auth_len: u8, part2: &[u8]) -> Vec<u8> {
    let mut p = vec![10u8];
    p.extend_from_slice(version);
    p.push(0);
    p.extend_from_slice(&[1, 0, 0, 0]); // connection id
    p.extend_from_slice(b"ABCDEFGH"); // auth data part 1
    p.push(0); // filler
    p.extend_from_slice(&[0xFF, 0xF7]); // capabilities (lower)
    p.push(0x21); // charset
    p.extend_from_slice(&[0x02, 0x00]); // status
    p.extend_from_slice(&[0xFF, 0xDF]); // capabilities (upper)
    p.push(auth_len);
    p.extend_from_slice(&[0u8; 10]);
    p.extend_from_slice(part2);
    p
}

#[test]
fn handshake_scramble_is_both_parts() {
    let p = handshake(b"8.0.36", 21, b"IJKLMNOPQRST\0");
    let s = parse_handshake(&p).unwrap();
    assert_eq!(s, b"ABCDEFGHIJKLMNOPQRST".to_vec());
}

#[test]
fn handshake_without_auth_length_reads_twelve_bytes() {
    let mut p = handshake(b"5.5", 0, b"IJKLMNOPQRST");
    p.extend_from_slice(b"mysql_native_password\0");
    assert_eq!(parse_handshake(&p).unwrap(), b"ABCDEFGHIJKLMNOPQRST".to_vec());
}

#[test]
fn handshake_errors() {
    assert_eq!(parse_handshake(&[0u8; 31]), Err(HandshakeError::TooShort));
    // no NUL after the server version
    assert_eq!(parse_handshake(&[b'x'; 40]), Err(HandshakeError::ConnectionId));
    // NUL too late for the connection id
    let mut p = vec![b'x'; 40];
    p[37] = 0;
    assert_eq!(parse_handshake(&p), Err(HandshakeError::ConnectionId));
    let mut p = vec![b'x'; 40];
    p[30] = 0;
    assert_eq!(parse_handshake(&p), Err(HandshakeError::AuthDataPart1));
    let mut p = vec![b'x'; 40];
    p[26] = 0;
    assert_eq!(parse_handshake(&p), Err(HandshakeError::ServerCapabilities));
    let full = handshake(b"8.0.36", 21, b"IJKLMNOPQRST\0");
    assert_eq!(parse_handshake(&full[..full.len() - 1]), Err(HandshakeError::AuthDataPart2));
    let p = handshake(b"8.0.36", 20, b"IJKLMNOPQRS\0");
    assert_eq!(parse_handshake(&p), Err(HandshakeError::ScrambleLength(19)));
    let p = handshake(b"8.0.36", 21, b"IJKLMNOPQRSTU");
    assert_eq!(parse_handshake(&p), Err(HandshakeError::ScrambleLength(21)));
}

#[test]
fn auth_response_outcomes() {
    assert_eq!(check_auth_response(&[0x00, 0, 0, 2, 0, 0, 0]), Ok(()));
    assert_eq!(check_auth_response(&[0xFE, b'x']), Err(AuthError::AuthSwitchRequired));
    assert_eq!(check_auth_response(&[0xFF, 0x15]), Err(AuthError::MalformedErrorPacket));
    assert_eq!(
        check_auth_response(&[0xFF, 0x15, 0x04, b'#', b'2', b'8', b'0', b'0', b'0']),
        Err(AuthError::ServerError { code: 1045, message: None })
    );
    let mut r = vec![0xFF, 0x15, 0x04, b'#', b'2', b'8', b'0', b'0', b'0'];
    r.extend_from_slice(b"Access denied");
    assert_eq!(
        check_auth_response(&r),
        Err(AuthError::ServerError { code: 1045, message: Some(b"Access denied".to_vec()) })
    );
    assert_eq!(check_auth_response(&[]), Err(AuthError::UnexpectedResponse(vec![])));
    assert_eq!(check_auth_response(&[0x01, 2]), Err(AuthError::UnexpectedResponse(vec![1, 2])));
}

#[test]
fn packet_header_length() {
    assert_eq!(packet_payload_len(&[0x4A, 0x00, 0x00, 0x00]), 74);
    assert_eq!(packet_payload_len(&[0x01, 0x02, 0x03, 0xFF]), 0x030201);
    assert_eq!(packet_payload_len(&[0xFF, 0xFF, 0xFF, 0x01]), 0xFF_FFFF);
}

#[test]
fn login_header_reads_back() {
    let pkt = cdc_rs::replication::protocol::build_login_packet("repl", "pw", b"salt", Some("db"));
    let header = [pkt[0], pkt[1], pkt[2], pkt[3]];
    assert_eq!(packet_payload_len(&header), pkt.len() - 4);
}

#[test]
fn config_is_plain_data() {
    let config = ReplicationConfig {
        host: "127.0.0.1".into(),
        port: 3306,
        user: "repl".into(),
        password: "replpass".into(),
        server_id: 1234,
        binlog_file: None,
        binlog_pos: None,
        database: Some("testdb".into()),
    };
    let copy = config.clone();
    assert_eq!(copy.port, 3306);
    assert_eq!(copy.database.as_deref(), Some("testdb"));
}
