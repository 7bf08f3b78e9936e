use crate::replication::protocol::{
    LOGIN_SEQUENCE_ID, framed_packet, le_bytes, login_payload, opt_str_view,
};
use vstd::prelude::*;

verus! {

/// Where and as whom to replicate from.
#[derive(Debug, Clone)]
pub struct ReplicationConfig {
    pub host: String,
    pub port: u16,
    pub user: String,
    pub password: String,
    pub server_id: u32,
    pub binlog_file: Option<String>,
    pub binlog_pos: Option<u32>,
    pub database: Option<String>,
}

/// A source of binlog packets.
pub trait BinlogConnector {
    fn connect(&mut self) -> Result<(), anyhow::Error>;

    fn start_replication(&mut self) -> Result<(), anyhow::Error>;

    fn read_packet(&mut self) -> Result<Vec<u8>, anyhow::Error>;
}

/// Length of the header in front of every MySQL packet: 3 bytes of payload
/// length and 1 byte of sequence id.
pub const PACKET_HEADER_LEN: usize = 4;

/// The payload length that a packet header announces (3 bytes, little-endian).
pub open spec fn header_payload_len(header: Seq<u8>) -> int {
    header[0] as int + 256 * header[1] as int + 65536 * header[2] as int
}

/// The payload length announced by a packet header; the fourth byte, the
/// sequence id, does not count.
pub fn packet_payload_len(header: &[u8; 4]) -> (n: usize)
    ensures
        n == header_payload_len(header@),
{
    header[0] as usize + 256 * (header[1] as usize) + 65536 * (header[2] as usize)
}

/// Reading back three little-endian bytes gives the value, below 2^24.
pub proof fn lemma_le_bytes_3_roundtrip(v: nat)
    requires
        v < 0x100_0000,
    ensures
        header_payload_len(le_bytes(v, 3)) == v,
        le_bytes(v, 3).len() == 3,
{
    reveal_with_fuel(le_bytes, 4);
    let a = v % 256;
    let q = v / 256;
    let b = q % 256;
    let r = q / 256;
    assert(q < 65536);
    assert(r < 256);
    assert(r % 256 == r);
    let s = le_bytes(v, 3);
    assert(s[0] as int == a);
    assert(s[1] as int == b);
    assert(s[2] as int == r % 256);
}

/// The header that `build_login_packet` writes announces exactly the length of
/// the payload that follows it, with sequence id 1, whenever the payload is
/// shorter than 2^24 bytes (the most three length bytes can hold).
pub proof fn lemma_login_packet_header(
    username: Seq<char>,
    password: Seq<char>,
    salt: Seq<u8>,
    database: Option<Seq<char>>,
)
    requires
        login_payload(username, password, salt, database).len() < 0x100_0000,
    ensures
        ({
            let packet = framed_packet(
                LOGIN_SEQUENCE_ID,
                login_payload(username, password, salt, database),
            );
            &&& header_payload_len(packet) == packet.len() - 4
            &&& packet[3] == 1
            &&& packet.subrange(4, packet.len() as int) == login_payload(
                username,
                password,
                salt,
                database,
            )
        }),
{
    let payload = login_payload(username, password, salt, database);
    lemma_le_bytes_3_roundtrip(payload.len());
    let packet = framed_packet(LOGIN_SEQUENCE_ID, payload);
    let h = le_bytes(payload.len(), 3);
    assert(packet[0] == h[0]);
    assert(packet[1] == h[1]);
    assert(packet[2] == h[2]);
    assert(packet.subrange(4, packet.len() as int) =~= payload);
}

/// Why a server handshake could not give a scramble.
#[derive(Debug, Clone, Copy, PartialEq, Eq)]
pub enum HandshakeError {
    /// The handshake packet is shorter than 32 bytes.
    TooShort,
    /// The packet ends before the 4-byte connection id.
    ConnectionId,
    /// The packet ends before the first 8 bytes of auth plugin data.
    AuthDataPart1,
    /// The packet ends before the lower capability flags.
    ServerCapabilities,
    /// The packet ends before the second part of the auth plugin data.
    AuthDataPart2,
    /// The scramble, without a trailing NUL, is not 20 bytes long.
    ScrambleLength(usize),
}

/// The first index from `i` on that holds a NUL byte, or the length of `p`
/// when there is none.
pub open spec fn nul_position(p: Seq<u8>, i: int) -> int
    decreases p.len() - i,
{
    if i >= p.len() {
        p.len() as int
    } else if p[i] == 0 {
        i
    } else {
        nul_position(p, i + 1)
    }
}

/// The 20-byte scramble of a protocol-10 handshake packet `p`.
///
/// The packet holds: protocol version (1 byte), server version (NUL-terminated),
/// connection id (4), auth plugin data part 1 (8), filler (1), lower capability
/// flags (2), character set (1), status flags (2), upper capability flags (2),
/// auth plugin data length (1 byte, read as 0 past the end), reserved (10), and
/// auth plugin data part 2: length minus 8 bytes when the length exceeds 8,
/// else 12 bytes. The scramble is part 1 followed by part 2 without a trailing
/// NUL.
pub open spec fn handshake_scramble(p: Seq<u8>) -> Result<Seq<u8>, HandshakeError> {
    let n = p.len() as int;
    if n < 32 {
        Err(HandshakeError::TooShort)
    } else {
        let conn_id = nul_position(p, 1) + 1;
        if conn_id + 4 > n {
            Err(HandshakeError::ConnectionId)
        } else {
            let part1 = conn_id + 4;
            if part1 + 8 > n {
                Err(HandshakeError::AuthDataPart1)
            } else {
                let caps = part1 + 9;
                if caps + 2 > n {
                    Err(HandshakeError::ServerCapabilities)
                } else {
                    let len_at = caps + 7;
                    let auth_len: int = if len_at < n {
                        p[len_at] as int
                    } else {
                        0
                    };
                    let part2 = len_at + 11;
                    let part2_len = if auth_len > 8 {
                        auth_len - 8
                    } else {
                        12
                    };
                    if part2 + part2_len > n {
                        Err(HandshakeError::AuthDataPart2)
                    } else {
                        let raw = p.subrange(part1, part1 + 8) + p.subrange(
                            part2,
                            part2 + part2_len,
                        );
                        let s = if raw.last() == 0 {
                            raw.drop_last()
                        } else {
                            raw
                        };
                        if s.len() != 20 {
                            Err(HandshakeError::ScrambleLength(s.len() as usize))
                        } else {
                            Ok(s)
                        }
                    }
                }
            }
        }
    }
}

/// The spec view of a result that carries bytes.
pub open spec fn bytes_result_view<E>(r: Result<Vec<u8>, E>) -> Result<Seq<u8>, E> {
    match r {
        Ok(v) => Ok(v@),
        Err(e) => Err(e),
    }
}

/// Copies `p[from..to]` onto the end of `buf`.
fn append_range(buf: &mut Vec<u8>, p: &[u8], from: usize, to: usize)
    requires
        from <= to <= p@.len(),
    ensures
        final(buf)@ == old(buf)@ + p@.subrange(from as int, to as int),
{
    let ghost start = buf@;
    let mut i = from;
    while i < to
        invariant
            from <= i <= to <= p@.len(),
            buf@ == start + p@.subrange(from as int, i as int),
        decreases to - i,
    {
        buf.push(p[i]);
        i = i + 1;
        assert(buf@ =~= start + p@.subrange(from as int, i as int));
    }
}

/// Extracts the 20-byte auth scramble from the server's initial handshake
/// packet.
pub fn parse_handshake(payload: &[u8]) -> (r: Result<Vec<u8>, HandshakeError>)
    ensures
        bytes_result_view(r) == handshake_scramble(payload@),
{
    let n = payload.len();
    if n < 32 {
        return Err(HandshakeError::TooShort);
    }
    // Protocol version (1 byte), then the NUL-terminated server version.

    let mut pos: usize = 1;
    while pos < n && payload[pos] != 0
        invariant
            1 <= pos <= n,
            n == payload@.len(),
            nul_position(payload@, 1) == nul_position(payload@, pos as int),
        decreases n - pos,
    {
        pos = pos + 1;
    }
    assert(nul_position(payload@, 1) == pos);
    // Connection id (4 bytes) after the NUL terminator.
    if pos >= n || n - (pos + 1) < 4 {
        return Err(HandshakeError::ConnectionId);
    }
    let part1 = pos + 1 + 4;
    // Auth plugin data part 1 (8 bytes).
    if n - part1 < 8 {
        return Err(HandshakeError::AuthDataPart1);
    }
    // Filler (1 byte), then the lower capability flags (2 bytes).
    if n - part1 < 11 {
        return Err(HandshakeError::ServerCapabilities);
    }
    // Character set (1), status flags (2), upper capability flags (2), then the
    // length of the auth plugin data (1 byte, or 0 when absent).
    let auth_len: u8 = if n - part1 > 16 {
        payload[part1 + 16]
    } else {
        0
    };
    // Reserved (10 bytes), then auth plugin data part 2.
    let part2_len: usize = if auth_len > 8 {
        (auth_len - 8) as usize
    } else {
        12  // default for mysql_native_password

    };
    if n - part1 < 27 + part2_len {
        return Err(HandshakeError::AuthDataPart2);
    }
    let part2 = part1 + 27;

    let mut scramble: Vec<u8> = Vec::new();
    append_range(&mut scramble, payload, part1, part1 + 8);
    append_range(&mut scramble, payload, part2, part2 + part2_len);
    let ghost raw = scramble@;
    // Remove a trailing NUL byte.
    if scramble.len() > 0 && scramble[scramble.len() - 1] == 0 {
        scramble.pop();
    }
    assert(scramble@ == (if raw.last() == 0 { raw.drop_last() } else { raw }));
    // mysql_native_password needs exactly 20 bytes.
    if scramble.len() != 20 {
        return Err(HandshakeError::ScrambleLength(scramble.len()));
    }
    Ok(scramble)
}

/// Why the server did not accept the login.
#[derive(Debug, Clone, PartialEq, Eq)]
pub enum AuthError {
    /// An error packet: the server's error code and, when the packet holds
    /// more than 9 bytes, the message text after the SQL state.
    ServerError { code: u16, message: Option<Vec<u8>> },
    /// An error packet too short to hold an error code.
    MalformedErrorPacket,
    /// The server asks to switch to another authentication method.
    AuthSwitchRequired,
    /// Any other reply, kept whole.
    UnexpectedResponse(Vec<u8>),
}

/// The model of an [`AuthError`], with byte strings as sequences.
pub enum AuthFailure {
    ServerError { code: u16, message: Option<Seq<u8>> },
    MalformedErrorPacket,
    AuthSwitchRequired,
    UnexpectedResponse(Seq<u8>),
}

impl View for AuthError {
    type V = AuthFailure;

    open spec fn view(&self) -> AuthFailure {
        match self {
            AuthError::ServerError { code, message } => AuthFailure::ServerError {
                code: *code,
                message: match message {
                    Some(m) => Some(m@),
                    None => None,
                },
            },
            AuthError::MalformedErrorPacket => AuthFailure::MalformedErrorPacket,
            AuthError::AuthSwitchRequired => AuthFailure::AuthSwitchRequired,
            AuthError::UnexpectedResponse(r) => AuthFailure::UnexpectedResponse(r@),
        }
    }
}

/// What the server's reply to the login packet means: `0x00` is success,
/// `0xFF` an error packet, `0xFE` an auth method switch, anything else
/// (an empty reply too) is unexpected.
pub open spec fn auth_response_result(r: Seq<u8>) -> Result<(), AuthFailure> {
    if r.len() > 0 && r[0] == 0x00 {
        Ok(())
    } else if r.len() > 0 && r[0] == 0xFF {
        if r.len() >= 3 {
            Err(
                AuthFailure::ServerError {
                    code: (r[1] as int + 256 * r[2] as int) as u16,
                    message: if r.len() > 9 {
                        Some(r.subrange(9, r.len() as int))
                    } else {
                        None
                    },
                },
            )
        } else {
            Err(AuthFailure::MalformedErrorPacket)
        }
    } else if r.len() > 0 && r[0] == 0xFE {
        Err(AuthFailure::AuthSwitchRequired)
    } else {
        Err(AuthFailure::UnexpectedResponse(r))
    }
}

/// The spec view of a login outcome.
pub open spec fn auth_result_view(r: Result<(), AuthError>) -> Result<(), AuthFailure> {
    match r {
        Ok(()) => Ok(()),
        Err(e) => Err(e@),
    }
}

/// Interprets the server's reply to the login packet.
pub fn check_auth_response(response: &[u8]) -> (r: Result<(), AuthError>)
    ensures
        auth_result_view(r) == auth_response_result(response@),
{
    let n = response.len();
    if n > 0 && response[0] == 0x00 {
        Ok(())
    } else if n > 0 && response[0] == 0xFF {
        if n >= 3 {
            let code: u16 = response[1] as u16 + 256 * (response[2] as u16);
            let message = if n > 9 {
                let mut m: Vec<u8> = Vec::new();
                append_range(&mut m, response, 9, n);
                assert(m@ =~= response@.subrange(9, n as int));
                Some(m)
            } else {
                None
            };
            Err(AuthError::ServerError { code, message })
        } else {
            Err(AuthError::MalformedErrorPacket)
        }
    } else if n > 0 && response[0] == 0xFE {
        Err(AuthError::AuthSwitchRequired)
    } else {
        let mut all: Vec<u8> = Vec::new();
        append_range(&mut all, response, 0, n);
        assert(all@ =~= response@);
        Err(AuthError::UnexpectedResponse(all))
    }
}

/// The login outcome is decided by the reply's first byte alone, and for an
/// error packet by whether it holds an error code: `0x00` is success whatever
/// follows, `0xFE` is an auth method switch at any length, `0xFF` with at
/// least 3 bytes carries the little-endian code of bytes 1 and 2, and any other
/// reply is returned whole as unexpected.
pub proof fn lemma_auth_outcome_by_first_byte(r: Seq<u8>)
    ensures
        r.len() > 0 && r[0] == 0x00 ==> auth_response_result(r) == Ok::<(), AuthFailure>(()),
        r.len() > 0 && r[0] == 0xFE ==> auth_response_result(r) == Err::<(), AuthFailure>(
            AuthFailure::AuthSwitchRequired,
        ),
        r.len() >= 3 && r[0] == 0xFF ==> (auth_response_result(r) matches Err(
            AuthFailure::ServerError { code, message },
        ) && code as int == r[1] as int + 256 * r[2] as int && (r.len() <= 9 ==> message
            is None) && (r.len() > 9 ==> message == Some(r.subrange(9, r.len() as int)))),
        1 <= r.len() < 3 && r[0] == 0xFF ==> auth_response_result(r) == Err::<(), AuthFailure>(
            AuthFailure::MalformedErrorPacket,
        ),
        (r.len() == 0 || (r[0] != 0x00 && r[0] != 0xFE && r[0] != 0xFF)) ==> auth_response_result(
            r,
        ) == Err::<(), AuthFailure>(AuthFailure::UnexpectedResponse(r)),
{
}

/// Two replies with the same first byte, other than an error packet's `0xFF`,
/// have the same outcome, whatever their lengths and other bytes.
pub proof fn lemma_auth_outcome_ignores_rest(r1: Seq<u8>, r2: Seq<u8>)
    requires
        r1.len() > 0,
        r2.len() > 0,
        r1[0] == r2[0],
        r1[0] == 0x00 || r1[0] == 0xFE,
    ensures
        auth_response_result(r1) == auth_response_result(r2),
{
}

/// The handshake fields that follow the server version's NUL byte, read from
/// `rest` (the bytes after that NUL); used to compare handshakes whose server
/// versions differ.
spec fn scramble_after_version(rest: Seq<u8>) -> Result<Seq<u8>, HandshakeError> {
    let n = rest.len() as int;
    if 4 > n {
        Err(HandshakeError::ConnectionId)
    } else if 12 > n {
        Err(HandshakeError::AuthDataPart1)
    } else if 15 > n {
        Err(HandshakeError::ServerCapabilities)
    } else {
        let auth_len: int = if 20 < n {
            rest[20] as int
        } else {
            0
        };
        let part2_len = if auth_len > 8 {
            auth_len - 8
        } else {
            12
        };
        if 31 + part2_len > n {
            Err(HandshakeError::AuthDataPart2)
        } else {
            let raw = rest.subrange(4, 12) + rest.subrange(31, 31 + part2_len);
            let s = if raw.last() == 0 {
                raw.drop_last()
            } else {
                raw
            };
            if s.len() != 20 {
                Err(HandshakeError::ScrambleLength(s.len() as usize))
            } else {
                Ok(s)
            }
        }
    }
}

/// The first NUL byte from index `i` on is the one that ends the version.
proof fn lemma_nul_ends_version(proto: u8, version: Seq<u8>, rest: Seq<u8>, i: int)
    requires
        forall|j: int| 0 <= j < version.len() ==> #[trigger] version[j] != 0,
        1 <= i <= version.len() + 1,
    ensures
        nul_position(seq![proto] + version + seq![0u8] + rest, i) == version.len() + 1,
    decreases version.len() + 1 - i,
{
    let p = seq![proto] + version + seq![0u8] + rest;
    if i < version.len() + 1 {
        assert(p[i] == version[i - 1]);
        lemma_nul_ends_version(proto, version, rest, i + 1);
    } else {
        assert(p[i] == 0);
    }
}

/// A handshake with a NUL-free server version is read from the bytes after
/// the version's NUL.
proof fn lemma_handshake_after_version(proto: u8, version: Seq<u8>, rest: Seq<u8>)
    requires
        forall|j: int| 0 <= j < version.len() ==> #[trigger] version[j] != 0,
        version.len() + rest.len() + 2 >= 32,
    ensures
        handshake_scramble(seq![proto] + version + seq![0u8] + rest) == scramble_after_version(
            rest,
        ),
{
    let p = seq![proto] + version + seq![0u8] + rest;
    let c: int = version.len() as int + 2;
    lemma_nul_ends_version(proto, version, rest, 1);
    assert(p.len() == c + rest.len());
    assert forall|k: int| 0 <= k < rest.len() implies #[trigger] p[c + k] == rest[k] by {}
    if rest.len() >= 12 {
        assert(p.subrange(c + 4, c + 12) =~= rest.subrange(4, 12));
    }
    if rest.len() > 20 {
        assert(p[c + 20] == rest[20]);
    }
    let auth_len: int = if 20 < rest.len() {
        rest[20] as int
    } else {
        0
    };
    let part2_len = if auth_len > 8 {
        auth_len - 8
    } else {
        12
    };
    if 31 + part2_len <= rest.len() {
        assert(p.subrange(c + 31, c + 31 + part2_len) =~= rest.subrange(31, 31 + part2_len));
    }
}

/// The server version ends at its NUL byte and at no other byte: handshakes
/// that differ only in their NUL-free server version strings give the same
/// result, when both are at least 32 bytes long.
pub proof fn lemma_handshake_ignores_version(
    proto: u8,
    version1: Seq<u8>,
    version2: Seq<u8>,
    rest: Seq<u8>,
)
    requires
        forall|j: int| 0 <= j < version1.len() ==> #[trigger] version1[j] != 0,
        forall|j: int| 0 <= j < version2.len() ==> #[trigger] version2[j] != 0,
        version1.len() + rest.len() + 2 >= 32,
        version2.len() + rest.len() + 2 >= 32,
    ensures
        handshake_scramble(seq![proto] + version1 + seq![0u8] + rest) == handshake_scramble(
            seq![proto] + version2 + seq![0u8] + rest,
        ),
{
    lemma_handshake_after_version(proto, version1, rest);
    lemma_handshake_after_version(proto, version2, rest);
}

/// A well-formed handshake, whatever its NUL-free server version, gives as
/// scramble auth data part 1 followed by part 2, less part 2's trailing NUL.
pub proof fn lemma_handshake_scramble_fields(
    proto: u8,
    version: Seq<u8>,
    connection_id: Seq<u8>,
    part1: Seq<u8>,
    flags_and_status: Seq<u8>,
    auth_len: u8,
    reserved: Seq<u8>,
    part2: Seq<u8>,
    tail: Seq<u8>,
)
    requires
        forall|j: int| 0 <= j < version.len() ==> #[trigger] version[j] != 0,
        connection_id.len() == 4,
        part1.len() == 8,
        flags_and_status.len() == 8,
        reserved.len() == 10,
        part2.len() == (if auth_len > 8 {
            auth_len - 8
        } else {
            12
        }),
        part2.len() > 0 && part2.last() == 0 ==> part2.len() == 13,
        part2.len() > 0 && part2.last() != 0 ==> part2.len() == 12,
    ensures
        handshake_scramble(
            seq![proto] + version + seq![0u8] + connection_id + part1 + flags_and_status
                + seq![auth_len] + reserved + part2 + tail,
        ) == Ok::<Seq<u8>, HandshakeError>(
            if part2.last() == 0 {
                part1 + part2.drop_last()
            } else {
                part1 + part2
            },
        ),
{
    let rest = connection_id + part1 + flags_and_status + seq![auth_len] + reserved + part2 + tail;
    assert(seq![proto] + version + seq![0u8] + connection_id + part1 + flags_and_status
        + seq![auth_len] + reserved + part2 + tail =~= seq![proto] + version + seq![0u8] + rest);
    lemma_handshake_after_version(proto, version, rest);
    assert(rest.subrange(4, 12) =~= part1);
    assert(rest[20] == auth_len);
    assert(rest.subrange(31, 31 + part2.len() as int) =~= part2);
    let raw = part1 + part2;
    assert(raw.last() == part2.last());
    if part2.last() == 0 {
        assert(raw.drop_last() =~= part1 + part2.drop_last());
    }
}

/// A handshake shorter than 32 bytes is refused as too short, and a scramble
/// that is returned is always 20 bytes long.
pub proof fn lemma_handshake_result_shape(p: Seq<u8>)
    ensures
        p.len() < 32 ==> handshake_scramble(p) == Err::<Seq<u8>, HandshakeError>(
            HandshakeError::TooShort,
        ),
        handshake_scramble(p) matches Ok(s) ==> s.len() == 20,
{
}

} // verus!
