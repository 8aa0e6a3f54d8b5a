//! Framing of the wire protocol: a frame is a four-byte big-endian
//! length followed by that many bytes of encrypted payload, the payload
//! being the JSON text of one command.
//!
//! Encryption is pluggable; the configured default is the identity
//! (plaintext passthrough), so `encrypt` and `decrypt` copy their input.

use vstd::prelude::*;

use crate::command::c2s;
use crate::command::s2c;
use crate::error::ErrorKind;
use crate::json;

verus! {

/// The four big-endian bytes of a 32-bit length.
pub open spec fn be32(n: u32) -> Seq<u8> {
    seq![
        ((n >> 24) & 0xff) as u8,
        ((n >> 16) & 0xff) as u8,
        ((n >> 8) & 0xff) as u8,
        (n & 0xff) as u8,
    ]
}

/// The 32-bit length the four big-endian bytes carry.
pub open spec fn u32_of_be(b: Seq<u8>) -> u32
    recommends
        b.len() == 4,
{
    (((b[0] as u32) << 24) | ((b[1] as u32) << 16) | ((b[2] as u32) << 8) | (b[3] as u32)) as u32
}

/// A whole frame: the length header, then the payload.
pub open spec fn frame_bytes(payload: Seq<u8>) -> Seq<u8>
    recommends
        payload.len() <= u32::MAX,
{
    be32(payload.len() as u32) + payload
}

/// Reading back the four header bytes yields the length they were
/// written from; every length up to `u32::MAX` round-trips.
pub proof fn lemma_be32_round(n: u32)
    ensures
        u32_of_be(be32(n)) == n,
{
    let b0 = (n >> 24) & 0xff;
    let b1 = (n >> 16) & 0xff;
    let b2 = (n >> 8) & 0xff;
    let b3 = n & 0xff;
    assert(((((b0 as u8) as u32) << 24) | (((b1 as u8) as u32) << 16) | (((b2 as u8) as u32) << 8)
        | ((b3 as u8) as u32)) == n) by (bit_vector)
        requires
            b0 == (n >> 24) & 0xff,
            b1 == (n >> 16) & 0xff,
            b2 == (n >> 8) & 0xff,
            b3 == n & 0xff,
    ;
}

/// Encrypts a payload. The configured cipher is the identity, so the
/// result is the input unchanged.
pub fn encrypt(data: &[u8]) -> (r: Vec<u8>)
    ensures
        r@ == data@,
{
    vstd::slice::slice_to_vec(data)
}

/// Decrypts a payload. The configured cipher is the identity, so the
/// result is the input unchanged.
pub fn decrypt(data: &[u8]) -> (r: Vec<u8>)
    ensures
        r@ == data@,
{
    vstd::slice::slice_to_vec(data)
}

/// Builds one frame around an encrypted payload: the four-byte
/// big-endian length, then the payload. A payload longer than
/// `u32::MAX` bytes cannot be framed and is `InvalidInput`; the empty
/// payload is legal and frames to a zero length header.
pub fn encode_frame(payload: &[u8]) -> (r: Result<Vec<u8>, ErrorKind>)
    ensures
        match r {
            Ok(f) => payload@.len() <= u32::MAX && f@ == frame_bytes(payload@),
            Err(e) => e == ErrorKind::InvalidInput && payload@.len() > u32::MAX,
        },
{
    if payload.len() > u32::MAX as usize {
        return Err(ErrorKind::InvalidInput);
    }
    let len = payload.len() as u32;
    let mut out: Vec<u8> = Vec::new();
    out.push(((len >> 24) & 0xff) as u8);
    out.push(((len >> 16) & 0xff) as u8);
    out.push(((len >> 8) & 0xff) as u8);
    out.push((len & 0xff) as u8);
    out.extend_from_slice(payload);
    proof {
        assert(out@ =~= frame_bytes(payload@));
    }
    Ok(out)
}

/// Interprets the outcome of reading a four-byte frame header: no bytes
/// at a frame boundary is orderly end-of-stream (`Ok(None)`), a partial
/// header is `UnexpectedEof`, a full header carries the payload length
/// — every length, `u32::MAX` included, is legal to read.
pub fn interpret_header_read(n_read: usize, header: &[u8]) -> (r: Result<Option<u32>, ErrorKind>)
    requires
        header@.len() == 4,
    ensures
        n_read == 0 ==> r == Ok::<Option<u32>, ErrorKind>(None),
        0 < n_read < 4 ==> r == Err::<Option<u32>, ErrorKind>(ErrorKind::UnexpectedEof),
        n_read >= 4 ==> r == Ok::<Option<u32>, ErrorKind>(Some(u32_of_be(header@))),
{
    if n_read == 0 {
        return Ok(None);
    }
    if n_read < 4 {
        return Err(ErrorKind::UnexpectedEof);
    }
    let b0 = *vstd::slice::slice_index_get(header, 0);
    let b1 = *vstd::slice::slice_index_get(header, 1);
    let b2 = *vstd::slice::slice_index_get(header, 2);
    let b3 = *vstd::slice::slice_index_get(header, 3);
    let len = ((b0 as u32) << 24) | ((b1 as u32) << 16) | ((b2 as u32) << 8) | (b3 as u32);
    Ok(Some(len))
}

/// Serializes, encrypts and frames one client-to-server command: the
/// whole byte string to write for it. `InvalidInput` exactly when the
/// encrypted payload would not fit a frame.
pub fn encode_c2s_frame(cmd: &c2s::Command) -> (r: Result<Vec<u8>, ErrorKind>)
    ensures
        match r {
            Ok(f) => json::enc_c2s(cmd@).len() <= u32::MAX && f@ == frame_bytes(
                json::enc_c2s(cmd@),
            ),
            Err(e) => e == ErrorKind::InvalidInput && json::enc_c2s(cmd@).len() > u32::MAX,
        },
{
    let payload = json::encode_c2s(cmd);
    let encrypted = encrypt(payload.as_slice());
    encode_frame(encrypted.as_slice())
}

/// Serializes, encrypts and frames one server-to-client command.
pub fn encode_s2c_frame(cmd: &s2c::Command) -> (r: Result<Vec<u8>, ErrorKind>)
    ensures
        match r {
            Ok(f) => json::enc_s2c(cmd@).len() <= u32::MAX && f@ == frame_bytes(
                json::enc_s2c(cmd@),
            ),
            Err(e) => e == ErrorKind::InvalidInput && json::enc_s2c(cmd@).len() > u32::MAX,
        },
{
    let payload = json::encode_s2c(cmd);
    let encrypted = encrypt(payload.as_slice());
    encode_frame(encrypted.as_slice())
}

/// Decrypts and decodes one client-to-server command from a frame's
/// payload. Anything that is not the exact encoding of a command — the
/// empty payload of a zero-length frame included — is `InvalidData`,
/// never a crash.
pub fn decode_c2s_payload(payload: &[u8]) -> (r: Result<c2s::Command, ErrorKind>)
    ensures
        match r {
            Ok(cmd) => json::parse_c2s(payload@) == Some(cmd@),
            Err(e) => e == ErrorKind::InvalidData && json::parse_c2s(payload@) is None,
        },
{
    let decrypted = decrypt(payload);
    match json::decode_c2s(decrypted.as_slice()) {
        Some(cmd) => Ok(cmd),
        None => Err(ErrorKind::InvalidData),
    }
}

/// Decrypts and decodes one server-to-client command from a frame's
/// payload; `InvalidData` on anything the encoder cannot have produced.
pub fn decode_s2c_payload(payload: &[u8]) -> (r: Result<s2c::Command, ErrorKind>)
    ensures
        match r {
            Ok(cmd) => json::parse_s2c(payload@) == Some(cmd@),
            Err(e) => e == ErrorKind::InvalidData && json::parse_s2c(payload@) is None,
        },
{
    let decrypted = decrypt(payload);
    match json::decode_s2c(decrypted.as_slice()) {
        Some(cmd) => Ok(cmd),
        None => Err(ErrorKind::InvalidData),
    }
}


/// Law: a framed client-to-server command reads back as itself. The
/// header carries the payload length, the payload follows it whole, and
/// decoding the payload yields the original command.
pub proof fn lemma_frame_round_trip_c2s(c: c2s::CommandView)
    requires
        json::enc_c2s(c).len() <= u32::MAX,
    ensures
        ({
            let f = frame_bytes(json::enc_c2s(c));
            &&& u32_of_be(f.take(4)) == json::enc_c2s(c).len()
            &&& f.skip(4) == json::enc_c2s(c)
            &&& json::parse_c2s(f.skip(4)) == Some(c)
        }),
{
    let payload = json::enc_c2s(c);
    let f = frame_bytes(payload);
    lemma_be32_round(payload.len() as u32);
    assert(f.take(4) =~= be32(payload.len() as u32));
    assert(f.skip(4) =~= payload);
    json::lemma_c2s_round_trip(c);
}

/// Law: a framed server-to-client command reads back as itself, for
/// every command whose message instant is well-formed.
pub proof fn lemma_frame_round_trip_s2c(c: s2c::CommandView)
    requires
        json::enc_s2c(c).len() <= u32::MAX,
        c matches s2c::CommandView::MessageRecv { message } ==> message.date_time.valid(),
    ensures
        ({
            let f = frame_bytes(json::enc_s2c(c));
            &&& u32_of_be(f.take(4)) == json::enc_s2c(c).len()
            &&& f.skip(4) == json::enc_s2c(c)
            &&& json::parse_s2c(f.skip(4)) == Some(c)
        }),
{
    let payload = json::enc_s2c(c);
    let f = frame_bytes(payload);
    lemma_be32_round(payload.len() as u32);
    assert(f.take(4) =~= be32(payload.len() as u32));
    assert(f.skip(4) =~= payload);
    json::lemma_s2c_round_trip(c);
}


/// Handles one received payload on the client's side: decrypts it and
/// decodes the bytes as text. `InvalidData` exactly when the decrypted
/// bytes are not valid UTF-8.
pub fn handle_message(bytes: Vec<u8>) -> (r: Result<String, ErrorKind>)
    ensures
        match r {
            Ok(s) => vstd::utf8::valid_utf8(bytes@) && vstd::utf8::encode_utf8(s@) == bytes@,
            Err(e) => e == ErrorKind::InvalidData && !vstd::utf8::valid_utf8(bytes@),
        },
{
    let decrypted = decrypt(bytes.as_slice());
    match crate::strings::bytes_to_string(decrypted) {
        Some(s) => Ok(s),
        None => Err(ErrorKind::InvalidData),
    }
}

} // verus!
