use vstd::prelude::*;
use vstd::utf8::*;
use sha1::{Digest, Sha1};

verus! {

// Capability flags (Protocol::41), as in the MySQL 5.7/8.0 and MariaDB 10.x headers.
pub const CLIENT_LONG_PASSWORD: u32 = 0x0000_0001;
pub const CLIENT_FOUND_ROWS: u32 = 0x0000_0002;
pub const CLIENT_LONG_FLAG: u32 = 0x0000_0004;
pub const CLIENT_CONNECT_WITH_DB: u32 = 0x0000_0008;
pub const CLIENT_PROTOCOL_41: u32 = 0x0000_0200;
pub const CLIENT_TRANSACTIONS: u32 = 0x0000_2000;
pub const CLIENT_SECURE_CONNECTION: u32 = 0x0000_8000;
pub const CLIENT_MULTI_RESULTS: u32 = 0x0002_0000;
pub const CLIENT_PLUGIN_AUTH: u32 = 0x0008_0000;
pub const CLIENT_CONNECT_ATTRS: u32 = 0x0010_0000;
pub const CLIENT_PLUGIN_AUTH_LENENC_CLIENT_DATA: u32 = 0x0020_0000;
pub const CLIENT_DEPRECATE_EOF: u32 = 0x0100_0000;

/// Largest packet the client announces it accepts (16 MiB).
pub const MAX_PACKET_SIZE: u32 = 0x0100_0000;

/// Character set announced at login: utf8_general_ci (33).
pub const LOGIN_CHARSET: u8 = 0x21;

/// Sequence id of the login packet within the handshake.
pub const LOGIN_SEQUENCE_ID: u8 = 0x01;

/// The SHA-1 digest of `data`, as the `sha1` crate computes it.
pub uninterp spec fn sha1(data: Seq<u8>) -> Seq<u8>;

/// Calls `sha1::Sha1::digest`, which hashes `data` and returns its 20-byte
/// digest. The contract claims that the result is `sha1(data)` and that it is
/// 20 bytes long (the digest's type has exactly 20 bytes).
#[verifier::external_body]
fn sha1_digest(data: &[u8]) -> (out: Vec<u8>)
    ensures
        out@ == sha1(data@),
        out@.len() == 20,
{
    Sha1::digest(data).to_vec()
}

/// `n` bytes holding the low part of `v` in little-endian order.
pub open spec fn le_bytes(v: nat, n: nat) -> Seq<u8>
    decreases n,
{
    if n == 0 {
        Seq::empty()
    } else {
        seq![(v % 256) as u8] + le_bytes(v / 256, (n - 1) as nat)
    }
}

/// The MySQL length-encoded integer for `v`.
pub open spec fn lenenc_int(v: u64) -> Seq<u8> {
    if v < 251 {
        seq![v as u8]
    } else if v < 0x1_0000 {
        seq![0xFCu8] + le_bytes(v as nat, 2)
    } else if v < 0x100_0000 {
        seq![0xFDu8] + le_bytes(v as nat, 3)
    } else {
        seq![0xFEu8] + le_bytes(v as nat, 8)
    }
}

/// Byte-wise exclusive or of `a` and `b`, as long as the shorter of them.
pub open spec fn xor_seq(a: Seq<u8>, b: Seq<u8>) -> Seq<u8> {
    let n = if a.len() <= b.len() {
        a.len()
    } else {
        b.len()
    };
    Seq::new(n, |i: int| a[i] ^ b[i])
}

/// The `mysql_native_password` response to the server's `salt`:
/// `SHA1(pw) XOR SHA1(salt ++ SHA1(SHA1(pw)))`, and nothing for an empty password.
pub open spec fn scramble(salt: Seq<u8>, password: Seq<char>) -> Seq<u8> {
    if password.len() == 0 {
        Seq::empty()
    } else {
        let hash1 = sha1(encode_utf8(password));
        let hash3 = sha1(salt + sha1(hash1));
        xor_seq(hash1, hash3)
    }
}

/// The capability flags the client sends at login.
pub open spec fn login_capabilities(with_database: bool) -> u32 {
    let base = CLIENT_LONG_PASSWORD | CLIENT_LONG_FLAG | CLIENT_PROTOCOL_41
        | CLIENT_SECURE_CONNECTION | CLIENT_PLUGIN_AUTH | CLIENT_PLUGIN_AUTH_LENENC_CLIENT_DATA
        | CLIENT_TRANSACTIONS | CLIENT_MULTI_RESULTS | CLIENT_DEPRECATE_EOF;
    if with_database {
        base | CLIENT_CONNECT_WITH_DB
    } else {
        base
    }
}

/// The payload of a Handshake Response 41 packet.
pub open spec fn login_payload(
    username: Seq<char>,
    password: Seq<char>,
    salt: Seq<u8>,
    database: Option<Seq<char>>,
) -> Seq<u8> {
    let auth = scramble(salt, password);
    let db_part = match database {
        Some(db) => encode_utf8(db) + seq![0u8],
        None => Seq::empty(),
    };
    le_bytes(login_capabilities(database is Some) as nat, 4) + le_bytes(MAX_PACKET_SIZE as nat, 4)
        + seq![LOGIN_CHARSET] + Seq::new(23, |i: int| 0u8) + encode_utf8(username) + seq![0u8]
        + lenenc_int(auth.len() as u64) + auth + db_part + encode_utf8("mysql_native_password"@)
        + seq![0u8]
}

/// A whole packet: 3-byte little-endian payload length, sequence id, payload.
pub open spec fn framed_packet(sequence_id: u8, payload: Seq<u8>) -> Seq<u8> {
    le_bytes(payload.len(), 3) + seq![sequence_id] + payload
}

/// Appends `bytes` to `buf`.
fn append_bytes(buf: &mut Vec<u8>, bytes: &[u8])
    ensures
        final(buf)@ == old(buf)@ + bytes@,
{
    let ghost start = buf@;
    let mut i: usize = 0;
    while i < bytes.len()
        invariant
            i <= bytes@.len(),
            buf@ == start + bytes@.subrange(0, i as int),
        decreases bytes@.len() - i,
    {
        buf.push(bytes[i]);
        i = i + 1;
        assert(buf@ =~= start + bytes@.subrange(0, i as int));
    }
    assert(bytes@.subrange(0, i as int) =~= bytes@);
}

/// Appends the `n` low bytes of `v` in little-endian order.
fn push_le_bytes(buf: &mut Vec<u8>, v: u64, n: usize)
    ensures
        final(buf)@ == old(buf)@ + le_bytes(v as nat, n as nat),
{
    let ghost start = buf@;
    let mut cur = v;
    let mut i: usize = 0;
    assert(buf@ + le_bytes(cur as nat, (n - i) as nat) =~= start + le_bytes(v as nat, n as nat));
    while i < n
        invariant
            i <= n,
            buf@ + le_bytes(cur as nat, (n - i) as nat) == start + le_bytes(v as nat, n as nat),
        decreases n - i,
    {
        let ghost before = buf@;
        let ghost m = (n - i) as nat;
        buf.push((cur % 256) as u8);
        assert(le_bytes(cur as nat, m) == seq![(cur % 256) as u8] + le_bytes((cur / 256) as nat, (m - 1) as nat));
        assert(before + le_bytes(cur as nat, m) =~= buf@ + le_bytes((cur / 256) as nat, (m - 1) as nat));
        cur = cur / 256;
        i = i + 1;
    }
    assert(le_bytes(cur as nat, 0) =~= Seq::<u8>::empty());
    assert(buf@ =~= buf@ + le_bytes(cur as nat, 0));
}

/// Byte-wise exclusive or of two byte strings, as long as the shorter one.
pub fn xor_bytes(a: &[u8], b: &[u8]) -> (r: Vec<u8>)
    ensures
        r@ == xor_seq(a@, b@),
{
    let n = if a.len() <= b.len() {
        a.len()
    } else {
        b.len()
    };
    let mut r: Vec<u8> = Vec::new();
    let mut i: usize = 0;
    while i < n
        invariant
            i <= n,
            n <= a@.len(),
            n <= b@.len(),
            n == (if a@.len() <= b@.len() { a@.len() } else { b@.len() }),
            r@.len() == i,
            forall|j: int| 0 <= j < i ==> r@[j] == a@[j] ^ b@[j],
        decreases n - i,
    {
        r.push(a[i] ^ b[i]);
        i = i + 1;
    }
    assert(r@ =~= xor_seq(a@, b@));
    r
}

/// Exclusive or with the same bytes twice gives the first operand back.
pub proof fn lemma_xor_seq_involution(a: Seq<u8>, b: Seq<u8>)
    requires
        a.len() == b.len(),
    ensures
        xor_seq(xor_seq(a, b), b) == a,
{
    assert forall|i: int| 0 <= i < a.len() implies #[trigger] xor_seq(xor_seq(a, b), b)[i] == a[i] by {
        let x = a[i];
        let y = b[i];
        assert((x ^ y) ^ y == x) by (bit_vector);
    }
    assert(xor_seq(xor_seq(a, b), b) =~= a);
}

/// Scrambles a password using the MySQL `mysql_native_password` auth scheme.
///
/// For a non-empty password the result is 20 bytes long, and a server that
/// keeps only `SHA1(SHA1(password))` recovers `SHA1(password)` from it by
/// exclusive or with `SHA1(salt ++ SHA1(SHA1(password)))`.
pub fn scramble_password(salt: &[u8], password: &str) -> (r: Vec<u8>)
    ensures
        r@ == scramble(salt@, password@),
        password@.len() == 0 ==> r@.len() == 0,
        password@.len() > 0 ==> r@.len() == 20,
        password@.len() > 0 ==> xor_seq(r@, sha1(salt@ + sha1(sha1(encode_utf8(password@)))))
            == sha1(encode_utf8(password@)),
{
    if password.is_empty() {
        return Vec::new();
    }
    let pass = password.as_bytes();
    let hash1 = sha1_digest(pass);
    let hash2 = sha1_digest(hash1.as_slice());
    let mut input: Vec<u8> = Vec::new();
    append_bytes(&mut input, salt);
    append_bytes(&mut input, hash2.as_slice());
    let hash3 = sha1_digest(input.as_slice());
    let r = xor_bytes(hash1.as_slice(), hash3.as_slice());
    proof {
        assert(input@ =~= salt@ + hash2@);
        lemma_xor_seq_involution(hash1@, hash3@);
    }
    r
}

/// Write a length-encoded integer as used by MySQL protocol.
pub fn write_lenenc_int(buf: &mut Vec<u8>, v: u64)
    ensures
        final(buf)@ == old(buf)@ + lenenc_int(v),
{
    let ghost start = buf@;
    if v < 251 {
        buf.push(v as u8);
    } else if v < 0x1_0000 {
        buf.push(0xFC);
        push_le_bytes(buf, v, 2);
    } else if v < 0x100_0000 {
        buf.push(0xFD);
        push_le_bytes(buf, v, 3);
    } else {
        buf.push(0xFE);
        push_le_bytes(buf, v, 8);
    }
    assert(buf@ =~= start + lenenc_int(v));
}

/// The optional database name as characters.
pub open spec fn opt_str_view(database: Option<&str>) -> Option<Seq<char>> {
    match database {
        Some(db) => Some(db@),
        None => None,
    }
}

/// Builds a valid MySQL login request packet (Handshake Response 41).
///
/// The packet is the payload framed by its 3-byte little-endian length and
/// sequence id 1; the payload carries the capability flags, the maximum packet
/// size, the character set, 23 zero bytes, the NUL-terminated user name, the
/// length-encoded scrambled password, the NUL-terminated database name when one
/// is given, and the NUL-terminated plugin name `mysql_native_password`.
pub fn build_login_packet(username: &str, password: &str, salt: &[u8], database: Option<&str>) -> (packet: Vec<u8>)
    ensures
        packet@ == framed_packet(
            LOGIN_SEQUENCE_ID,
            login_payload(username@, password@, salt@, opt_str_view(database)),
        ),
{
    let scrambled = scramble_password(salt, password);

    // Conservative, widely-supported capability set.
    let mut client_flags: u32 = CLIENT_LONG_PASSWORD | CLIENT_LONG_FLAG | CLIENT_PROTOCOL_41
        | CLIENT_SECURE_CONNECTION | CLIENT_PLUGIN_AUTH | CLIENT_PLUGIN_AUTH_LENENC_CLIENT_DATA
        | CLIENT_TRANSACTIONS | CLIENT_MULTI_RESULTS | CLIENT_DEPRECATE_EOF;
    // CLIENT_CONNECT_ATTRS is left out: no attributes are sent.
    assert(CLIENT_LONG_PASSWORD | CLIENT_LONG_FLAG | CLIENT_PROTOCOL_41 | CLIENT_SECURE_CONNECTION
        | CLIENT_PLUGIN_AUTH | CLIENT_PLUGIN_AUTH_LENENC_CLIENT_DATA | CLIENT_TRANSACTIONS
        | CLIENT_MULTI_RESULTS | CLIENT_DEPRECATE_EOF == 0x012A_A205u32) by (bit_vector);
    assert(0x012A_A205u32 | CLIENT_CONNECT_WITH_DB == 0x012A_A20Du32) by (bit_vector);
    if database.is_some() {
        client_flags = client_flags | CLIENT_CONNECT_WITH_DB;
    }
    assert(client_flags == login_capabilities(database is Some));
    assert(client_flags & CLIENT_PLUGIN_AUTH_LENENC_CLIENT_DATA != 0 && client_flags
        & CLIENT_PLUGIN_AUTH != 0) by (bit_vector)
        requires
            client_flags == 0x012A_A205u32 || client_flags == 0x012A_A20Du32,
    ;

    let plugin_name = "mysql_native_password".as_bytes();

    let mut payload: Vec<u8> = Vec::new();
    push_le_bytes(&mut payload, client_flags as u64, 4);
    push_le_bytes(&mut payload, MAX_PACKET_SIZE as u64, 4);
    payload.push(LOGIN_CHARSET);
    let mut k: usize = 0;
    let ghost before_filler = payload@;
    while k < 23
        invariant
            k <= 23,
            payload@ == before_filler + Seq::new(k as nat, |i: int| 0u8),
        decreases 23 - k,
    {
        payload.push(0);
        k = k + 1;
        assert(payload@ =~= before_filler + Seq::new(k as nat, |i: int| 0u8));
    }

    // user name, NUL-terminated
    append_bytes(&mut payload, username.as_bytes());
    payload.push(0);

    // auth response
    if (client_flags & CLIENT_PLUGIN_AUTH_LENENC_CLIENT_DATA) != 0 {
        write_lenenc_int(&mut payload, scrambled.len() as u64);
        append_bytes(&mut payload, scrambled.as_slice());
    } else if (client_flags & CLIENT_SECURE_CONNECTION) != 0 {
        payload.push(scrambled.len() as u8);
        append_bytes(&mut payload, scrambled.as_slice());
    } else {
        // old, NUL-terminated style
        append_bytes(&mut payload, scrambled.as_slice());
        payload.push(0);
    }
    let ghost after_auth = payload@;

    // optional database
    match database {
        Some(db) => {
            append_bytes(&mut payload, db.as_bytes());
            payload.push(0);
        },
        None => {},
    }
    let ghost after_db = payload@;

    // plugin name (required when CLIENT_PLUGIN_AUTH is set)
    if (client_flags & CLIENT_PLUGIN_AUTH) != 0 {
        append_bytes(&mut payload, plugin_name);
        payload.push(0);
    }
    proof {
        let db_part = match opt_str_view(database) {
            Some(db) => encode_utf8(db) + seq![0u8],
            None => Seq::empty(),
        };
        assert(after_db =~= after_auth + db_part);
        assert(payload@ =~= login_payload(username@, password@, salt@, opt_str_view(database)));
    }

    let mut packet: Vec<u8> = Vec::new();
    push_le_bytes(&mut packet, payload.len() as u64, 3);
    packet.push(LOGIN_SEQUENCE_ID);
    append_bytes(&mut packet, payload.as_slice());
    assert(packet@ =~= framed_packet(LOGIN_SEQUENCE_ID, payload@));
    packet
}

/// `le_bytes(v, n)` has `n` bytes.
pub proof fn lemma_le_bytes_len(v: nat, n: nat)
    ensures
        le_bytes(v, n).len() == n,
    decreases n,
{
    if n > 0 {
        lemma_le_bytes_len(v / 256, (n - 1) as nat);
    }
}

/// The 32 fixed bytes that open a login payload: capability flags, maximum
/// packet size, character set and 23 zero bytes.
proof fn lemma_login_payload_split(
    username: Seq<char>,
    password: Seq<char>,
    salt: Seq<u8>,
    database: Option<Seq<char>>,
)
    ensures
        ({
            let fixed = le_bytes(login_capabilities(database is Some) as nat, 4) + le_bytes(
                MAX_PACKET_SIZE as nat,
                4,
            ) + seq![LOGIN_CHARSET] + Seq::new(23, |i: int| 0u8);
            let auth = scramble(salt, password);
            let db_part = match database {
                Some(db) => encode_utf8(db) + seq![0u8],
                None => Seq::empty(),
            };
            &&& fixed.len() == 32
            &&& login_payload(username, password, salt, database) == fixed + encode_utf8(username)
                + seq![0u8] + lenenc_int(auth.len() as u64) + auth + db_part + (encode_utf8(
                "mysql_native_password"@,
            ) + seq![0u8])
        }),
{
    lemma_le_bytes_len(login_capabilities(database is Some) as nat, 4);
    lemma_le_bytes_len(MAX_PACKET_SIZE as nat, 4);
    let fixed = le_bytes(login_capabilities(database is Some) as nat, 4) + le_bytes(
        MAX_PACKET_SIZE as nat,
        4,
    ) + seq![LOGIN_CHARSET] + Seq::new(23, |i: int| 0u8);
    let auth = scramble(salt, password);
    let db_part = match database {
        Some(db) => encode_utf8(db) + seq![0u8],
        None => Seq::empty(),
    };
    assert(login_payload(username, password, salt, database) =~= fixed + encode_utf8(username)
        + seq![0u8] + lenenc_int(auth.len() as u64) + auth + db_part + (encode_utf8(
        "mysql_native_password"@,
    ) + seq![0u8]));
}

/// The login payload holds, after its 32 fixed bytes, the user name in UTF-8
/// and a NUL byte, and right after that the scramble of the whole salt with the
/// password, preceded by its length as a length-encoded integer; whether or
/// not a database is given.
pub proof fn lemma_login_payload_auth_response(
    username: Seq<char>,
    password: Seq<char>,
    salt: Seq<u8>,
    database: Option<Seq<char>>,
)
    ensures
        ({
            let payload = login_payload(username, password, salt, database);
            let user = encode_utf8(username);
            let auth = scramble(salt, password);
            let len = lenenc_int(auth.len() as u64);
            let at: int = 33 + user.len() as int;
            &&& payload.subrange(32, 32 + user.len() as int) == user
            &&& payload[32 + user.len() as int] == 0
            &&& payload.subrange(at, at + len.len() as int) == len
            &&& payload.subrange(at + len.len() as int, at + len.len() as int + auth.len() as int) == auth
        }),
{
    lemma_login_payload_split(username, password, salt, database);
    let payload = login_payload(username, password, salt, database);
    let user = encode_utf8(username);
    let auth = scramble(salt, password);
    let len = lenenc_int(auth.len() as u64);
    let at: int = 33 + user.len() as int;
    assert(payload.subrange(32, 32 + user.len() as int) =~= user);
    assert(payload.subrange(at, at + len.len() as int) =~= len);
    assert(payload.subrange(at + len.len() as int, at + len.len() as int + auth.len() as int) =~= auth);
}

/// Naming a database changes the login payload in two places only: the
/// capability flags gain `CLIENT_CONNECT_WITH_DB`, and the database name with
/// a NUL byte comes in just before the NUL-terminated plugin name; everything
/// else, the auth response included, stays as it is without a database.
pub proof fn lemma_login_payload_database(
    username: Seq<char>,
    password: Seq<char>,
    salt: Seq<u8>,
    database: Seq<char>,
)
    ensures
        ({
            let without = login_payload(username, password, salt, None);
            let with = login_payload(username, password, salt, Some(database));
            let db = encode_utf8(database) + seq![0u8];
            let plugin = encode_utf8("mysql_native_password"@) + seq![0u8];
            let n = without.len() as int;
            let m = n - plugin.len();
            &&& with.len() == n + db.len()
            &&& with[0] as int == without[0] as int + CLIENT_CONNECT_WITH_DB as int
            &&& with.subrange(1, m) == without.subrange(1, m)
            &&& with.subrange(m, m + db.len()) == db
            &&& with.subrange(m + db.len(), with.len() as int) == plugin
            &&& without.subrange(m, n) == plugin
        }),
{
    lemma_login_payload_split(username, password, salt, None);
    lemma_login_payload_split(username, password, salt, Some(database));
    assert(login_capabilities(false) == 0x012A_A205u32) by (bit_vector);
    assert(login_capabilities(true) == 0x012A_A20Du32) by (bit_vector);
    reveal_with_fuel(le_bytes, 5);
    let f0 = le_bytes(login_capabilities(false) as nat, 4);
    let f1 = le_bytes(login_capabilities(true) as nat, 4);
    assert(f0[0] == 0x05u8);
    assert(f1[0] == 0x0Du8);
    assert(f0.subrange(1, 4) =~= f1.subrange(1, 4));
    let rest = le_bytes(MAX_PACKET_SIZE as nat, 4) + seq![LOGIN_CHARSET] + Seq::new(
        23,
        |i: int| 0u8,
    );
    let auth = scramble(salt, password);
    let middle = encode_utf8(username) + seq![0u8] + lenenc_int(auth.len() as u64) + auth;
    let db = encode_utf8(database) + seq![0u8];
    let plugin = encode_utf8("mysql_native_password"@) + seq![0u8];
    let without = login_payload(username, password, salt, None);
    let with = login_payload(username, password, salt, Some(database));
    assert(without =~= f0 + rest + middle + plugin);
    assert(with =~= f1 + rest + middle + db + plugin);
    let n = without.len() as int;
    let m = n - plugin.len();
    assert(with.subrange(1, m) =~= without.subrange(1, m)) by {
        assert forall|i: int| 1 <= i < m implies with[i] == without[i] by {
            if i < 4 {
                assert(with[i] == f1[i]);
                assert(without[i] == f0[i]);
                assert(f1[i] == f1.subrange(1, 4)[i - 1]);
                assert(f0[i] == f0.subrange(1, 4)[i - 1]);
            }
        }
    }
    assert(with.subrange(m, m + db.len()) =~= db);
    assert(with.subrange(m + db.len(), with.len() as int) =~= plugin);
    assert(without.subrange(m, n) =~= plugin);
}

/// The number that little-endian bytes `s` stand for.
pub open spec fn le_value(s: Seq<u8>) -> nat
    decreases s.len(),
{
    if s.len() == 0 {
        0
    } else {
        s[0] as nat + 256 * le_value(s.drop_first())
    }
}

/// `256` to the power `n`.
pub open spec fn pow256(n: nat) -> nat
    decreases n,
{
    if n == 0 {
        1
    } else {
        256 * pow256((n - 1) as nat)
    }
}

/// `n` little-endian bytes read back give any value below `256^n`.
pub proof fn lemma_le_bytes_value(v: nat, n: nat)
    requires
        v < pow256(n),
    ensures
        le_value(le_bytes(v, n)) == v,
    decreases n,
{
    if n > 0 {
        let p = pow256((n - 1) as nat);
        assert(v / 256 < p) by (nonlinear_arith)
            requires
                v < 256 * p,
        ;
        lemma_le_bytes_value(v / 256, (n - 1) as nat);
        let s = le_bytes(v, n);
        assert(s.drop_first() =~= le_bytes(v / 256, (n - 1) as nat));
    }
}

/// A length-encoded integer reads back as its value, and takes the shortest
/// form: one byte below 251; else a marker `0xFC`, `0xFD` or `0xFE` followed by
/// 2, 3 or 8 little-endian bytes, a longer form only where the shorter ones
/// cannot hold the value.
pub proof fn lemma_lenenc_int_reads_back(v: u64)
    ensures
        ({
            let e = lenenc_int(v);
            &&& v < 251 ==> e == seq![v as u8]
            &&& v >= 251 ==> {
                &&& (e[0] == 0xFC && e.len() == 3) || (e[0] == 0xFD && e.len() == 4) || (e[0]
                    == 0xFE && e.len() == 9)
                &&& le_value(e.drop_first()) == v
                &&& e[0] == 0xFD ==> v >= 0x1_0000
                &&& e[0] == 0xFE ==> v >= 0x100_0000
            }
        }),
{
    reveal_with_fuel(pow256, 9);
    let e = lenenc_int(v);
    if v >= 251 {
        if v < 0x1_0000 {
            lemma_le_bytes_len(v as nat, 2);
            lemma_le_bytes_value(v as nat, 2);
            assert(e.drop_first() =~= le_bytes(v as nat, 2));
        } else if v < 0x100_0000 {
            lemma_le_bytes_len(v as nat, 3);
            lemma_le_bytes_value(v as nat, 3);
            assert(e.drop_first() =~= le_bytes(v as nat, 3));
        } else {
            lemma_le_bytes_len(v as nat, 8);
            lemma_le_bytes_value(v as nat, 8);
            assert(e.drop_first() =~= le_bytes(v as nat, 8));
        }
    }
}

/// Every login payload opens with the same 32 bytes, but for the database flag:
/// the capability flags `0x012A_A205` (long password, long flag, protocol 41,
/// secure connection, transactions, multi results, plugin auth, length-encoded
/// auth data, deprecate EOF), with `CLIENT_CONNECT_WITH_DB` (8) added exactly
/// when a database is given; the maximum packet size 16 MiB; character set 33;
/// and 23 zero bytes. It ends with the NUL-terminated plugin name.
pub proof fn lemma_login_payload_fixed_part(
    username: Seq<char>,
    password: Seq<char>,
    salt: Seq<u8>,
    database: Option<Seq<char>>,
)
    ensures
        ({
            let payload = login_payload(username, password, salt, database);
            let plugin = encode_utf8("mysql_native_password"@) + seq![0u8];
            &&& payload.len() >= 32 + plugin.len()
            &&& le_value(payload.subrange(0, 4)) == (if database is Some {
                0x012A_A20Dnat
            } else {
                0x012A_A205nat
            })
            &&& le_value(payload.subrange(4, 8)) == 0x100_0000
            &&& payload[8] == 0x21
            &&& forall|i: int| 9 <= i < 32 ==> #[trigger] payload[i] == 0
            &&& payload.subrange(payload.len() - plugin.len(), payload.len() as int) == plugin
        }),
{
    lemma_login_payload_split(username, password, salt, database);
    assert(login_capabilities(false) == 0x012A_A205u32) by (bit_vector);
    assert(login_capabilities(true) == 0x012A_A20Du32) by (bit_vector);
    reveal_with_fuel(pow256, 5);
    let f = login_capabilities(database is Some);
    lemma_le_bytes_len(f as nat, 4);
    lemma_le_bytes_value(f as nat, 4);
    lemma_le_bytes_len(MAX_PACKET_SIZE as nat, 4);
    lemma_le_bytes_value(MAX_PACKET_SIZE as nat, 4);
    let payload = login_payload(username, password, salt, database);
    let plugin = encode_utf8("mysql_native_password"@) + seq![0u8];
    assert(payload.subrange(0, 4) =~= le_bytes(f as nat, 4));
    assert(payload.subrange(4, 8) =~= le_bytes(MAX_PACKET_SIZE as nat, 4));
    assert(payload.subrange(payload.len() - plugin.len(), payload.len() as int) =~= plugin);
}

} // verus!
