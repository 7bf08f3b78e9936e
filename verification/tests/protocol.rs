use cdc_rs::replication::protocol::{
    build_login_packet, scramble_password, write_lenenc_int, xor_bytes,
};
use sha1::{Digest, Sha1};

fn sha1(data: &[u8]) -> Vec<u8> {
    Sha1::digest(data).to_vec()
}

fn expected_scramble(salt: &[u8], password: &str) -> Vec<u8> {
    let hash1 = sha1(password.as_bytes());
    let hash2 = sha1(&hash1);
    let mut input = salt.to_vec();
    input.extend_from_slice(&hash2);
    let hash3 = sha1(&input);
    hash1.iter().zip(hash3.iter()).map(|(a, b)| a ^ b).collect()
}

#[test]
fn test_build_login_packet_contains_username_and_auth() {
    // fixed salt
    let salt = b"12345678abcdefghij";
    let pkt = build_login_packet("repl", "replpass", salt, None);

    // header is 4 bytes; search for the NUL-terminated user name in the payload
    assert!(pkt.windows(5).any(|w| w == b"repl\0"), "username not present");
    // plugin name present
    assert!(
        pkt.windows(b"mysql_native_password".len()).any(|w| w == b"mysql_native_password"),
        "plugin name missing"
    );
    // payload len matches header (3 bytes little-endian)
    let payload_len = pkt[0] as u32 | ((pkt[1] as u32) << 8) | ((pkt[2] as u32) << 16);
    assert_eq!(payload_len as usize, pkt.len() - 4);
    // sequence id is 1
    assert_eq!(pkt[3], 0x01);
}

#[test]
fn login_packet_layout_without_database() {
    let salt = b"12345678abcdefghij";
    let pkt = build_login_packet("repl", "replpass", salt, None);
    let scrambled = expected_scramble(salt, "replpass");
    let mut payload = vec![0x05, 0xA2, 0x2A, 0x01]; // capability flags
    payload.extend_from_slice(&[0x00, 0x00, 0x00, 0x01]); // 16 MiB
    payload.push(0x21);
    payload.extend_from_slice(&[0u8; 23]);
    payload.extend_from_slice(b"repl\0");
    payload.push(20);
    payload.extend_from_slice(&scrambled);
    payload.extend_from_slice(b"mysql_native_password\0");
    let mut expected = vec![payload.len() as u8, 0, 0, 1];
    expected.extend_from_slice(&payload);
    assert_eq!(pkt, expected);
    assert_eq!(pkt.len(), 4 + 32 + 5 + 21 + 22);
}

#[test]
fn login_packet_layout_with_database_and_empty_password() {
    let pkt = build_login_packet("u", "", b"salt", Some("db"));
    let mut payload = vec![0x0D, 0xA2, 0x2A, 0x01]; // flags with CONNECT_WITH_DB
    payload.extend_from_slice(&[0x00, 0x00, 0x00, 0x01]);
    payload.push(0x21);
    payload.extend_from_slice(&[0u8; 23]);
    payload.extend_from_slice(b"u\0");
    payload.push(0); // no auth response
    payload.extend_from_slice(b"db\0");
    payload.extend_from_slice(b"mysql_native_password\0");
    let mut expected = vec![payload.len() as u8, 0, 0, 1];
    expected.extend_from_slice(&payload);
    assert_eq!(pkt, expected);
}

#[test]
fn login_packet_length_header_past_one_byte() {
    let user = "x".repeat(300);
    let pkt = build_login_packet(&user, "pw", b"s", None);
    let len = pkt.len() - 4;
    assert_eq!(pkt[0] as usize, len % 256);
    assert_eq!(pkt[1] as usize, len / 256);
    assert_eq!(pkt[2], 0);
    assert_eq!(len, 32 + 301 + 21 + 22);
}

#[test]
fn login_packet_encodes_names_as_utf8() {
    let pkt = build_login_packet("é", "", b"", Some("ü"));
    assert_eq!(&pkt[36..39], &[0xC3, 0xA9, 0x00]);
    assert_eq!(pkt[39], 0);
    assert_eq!(&pkt[40..43], &[0xC3, 0xBC, 0x00]);
}

#[test]
fn scramble_matches_native_password_scheme() {
    let salt = b"abcdefghijklmnopqrst";
    let r = scramble_password(salt, "secret");
    assert_eq!(r.len(), 20);
    assert_eq!(r, expected_scramble(salt, "secret"));
    assert_ne!(r, sha1(b"secret"));
    // a different salt gives a different scramble
    assert_ne!(r, scramble_password(b"ABCDEFGHIJKLMNOPQRST", "secret"));
}

#[test]
fn scramble_can_be_checked_by_the_server() {
    let salt = b"0123456789abcdefghij";
    let r = scramble_password(salt, "replpass");
    let stage1 = sha1(b"replpass");
    let stage2 = sha1(&stage1);
    let mut input = salt.to_vec();
    input.extend_from_slice(&stage2);
    let recovered = xor_bytes(&r, &sha1(&input));
    assert_eq!(recovered, stage1);
    assert_eq!(sha1(&recovered), stage2);
}

#[test]
fn scramble_of_empty_password_is_empty() {
    assert!(scramble_password(b"whatever", "").is_empty());
}

#[test]
fn sha1_known_answer_through_scramble() {
    // SHA1("abc") = a9993e36...; with an all-zero second hash the scramble of
    // "abc" exclusive-ored with SHA1(salt ++ SHA1(SHA1("abc"))) is SHA1("abc").
    let salt = b"";
    let r = scramble_password(salt, "abc");
    let stage2 = sha1(&sha1(b"abc"));
    let recovered = xor_bytes(&r, &sha1(&stage2));
    assert_eq!(
        recovered,
        vec![
            0xa9, 0x99, 0x3e, 0x36, 0x47, 0x06, 0x81, 0x6a, 0xba, 0x3e, 0x25, 0x71, 0x78, 0x50,
            0xc2, 0x6c, 0x9c, 0xd0, 0xd8, 0x9d
        ]
    );
}

#[test]
fn xor_bytes_stops_at_the_shorter_input() {
    assert_eq!(xor_bytes(&[0xF0, 0x0F, 0xAA], &[0xFF, 0xFF]), vec![0x0F, 0xF0]);
    assert_eq!(xor_bytes(&[], &[1, 2]), Vec::<u8>::new());
}

#[test]
fn lenenc_int_forms() {
    let cases: Vec<(u64, Vec<u8>)> = vec![
        (0, vec![0]),
        (250, vec![250]),
        (251, vec![0xFC, 251, 0]),
        (0xFFFF, vec![0xFC, 0xFF, 0xFF]),
        (0x1_0000, vec![0xFD, 0, 0, 1]),
        (0xAB_CDEF, vec![0xFD, 0xEF, 0xCD, 0xAB]),
        (0x100_0000, vec![0xFE, 0, 0, 0, 1, 0, 0, 0, 0]),
        (u64::MAX, vec![0xFE, 0xFF, 0xFF, 0xFF, 0xFF, 0xFF, 0xFF, 0xFF, 0xFF]),
    ];
    for (v, bytes) in cases {
        let mut buf = vec![7u8];
        write_lenenc_int(&mut buf, v);
        let mut expected = vec![7u8];
        expected.extend_from_slice(&bytes);
        assert_eq!(buf, expected, "value {}", v);
    }
}
