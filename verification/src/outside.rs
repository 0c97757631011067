//! What the daemon has from other crates, and what is believed of it.
use crate::connect::NextState;
use base64::prelude::BASE64_STANDARD;
use base64::Engine;
use bytes::BytesMut;
use valence_protocol::decode::PacketFrame;
use valence_protocol::packets::handshaking::handshake_c2s::{HandshakeC2s, HandshakeNextState};
use valence_protocol::packets::status::QueryResponseS2c;
use valence_protocol::{PacketDecoder, PacketEncoder};
use vstd::prelude::*;

verus! {

/// The text that `String::from_utf8_lossy` makes of a row of bytes.
pub uninterp spec fn utf8_lossy(bytes: Seq<u8>) -> Seq<char>;

/// `String::from_utf8_lossy`. The text depends on the bytes alone; where they are valid UTF-8 it
/// is the text that they encode.
#[verifier::external_body]
pub(crate) fn lossy_text(bytes: &[u8]) -> (text: String)
    ensures
        text@ == utf8_lossy(bytes@),
        vstd::utf8::valid_utf8(bytes@) ==> text@ == vstd::utf8::decode_utf8(bytes@),
{
    String::from_utf8_lossy(bytes).into_owned()
}

/// ASCII letters and digits, at most sixty-four of them: none of them means anything but itself
/// in a regular expression. The letters k and s are left out, since letters beyond ASCII differ
/// from them by case alone.
pub open spec fn is_plain_word(word: Seq<char>) -> bool {
    &&& word.len() <= 64
    &&& forall|i: int| 0 <= i < word.len() ==> is_plain_char(#[trigger] word[i])
}

/// An ASCII letter or digit that differs by case from no letter beyond ASCII.
pub open spec fn is_plain_char(c: char) -> bool {
    &&& '0' <= c <= '9' || 'A' <= c <= 'Z' || 'a' <= c <= 'z'
    &&& c != 'k' && c != 'K' && c != 's' && c != 'S'
}

/// The regular expression `(?i).*word.*`.
pub open spec fn around(word: Seq<char>) -> Seq<char> {
    seq!['(', '?', 'i', ')', '.', '*'] + word + seq!['.', '*']
}

/// `Regex::new` and `Regex::is_match`. A pattern `(?i).*word.*` around a plain word compiles, and
/// matches the texts in which the word occurs, without regard to case.
#[verifier::external_body]
pub(crate) fn regex_is_match(pattern: &str, text: &str) -> (found: bool)
    requires
        exists|word: Seq<char>| is_plain_word(word) && pattern@ == #[trigger] around(word),
    ensures
        forall|word: Seq<char>|
            is_plain_word(word) && pattern@ == #[trigger] around(word) ==> found
                == crate::text::is_infix(
                crate::text::in_small(word),
                crate::text::in_small(text@),
            ),
{
    regex::Regex::new(pattern).unwrap().is_match(text)
}

/// The base64 alphabet of RFC 4648, section 4.
pub open spec fn base64_digit(n: int) -> char {
    if n < 26 {
        ('A' as int + n) as char
    } else if n < 52 {
        ('a' as int + (n - 26)) as char
    } else if n < 62 {
        ('0' as int + (n - 52)) as char
    } else if n == 62 {
        '+'
    } else {
        '/'
    }
}

/// The `g`-th group of three bytes as one number, zeros standing for bytes that are not there.
pub open spec fn base64_group(bytes: Seq<u8>, g: int) -> int {
    let at = |i: int|
        if i < bytes.len() {
            bytes[i] as int
        } else {
            0
        };
    at(3 * g) * 65536 + at(3 * g + 1) * 256 + at(3 * g + 2)
}

/// Standard base64 with padding: four characters for every three bytes begun.
pub open spec fn base64_text(bytes: Seq<u8>) -> Seq<char> {
    Seq::new(
        (4 * ((bytes.len() + 2) / 3)) as nat,
        |k: int|
            {
                let group = base64_group(bytes, k / 4);
                if k % 4 > bytes.len() - 3 * (k / 4) {
                    '='
                } else if k % 4 == 0 {
                    base64_digit(group / 262144)
                } else if k % 4 == 1 {
                    base64_digit(group / 4096 % 64)
                } else if k % 4 == 2 {
                    base64_digit(group / 64 % 64)
                } else {
                    base64_digit(group % 64)
                }
            },
    )
}

/// `Engine::encode_string` of the engine `BASE64_STANDARD`: the base64 text of the bytes is
/// appended.
#[verifier::external_body]
pub(crate) fn base64_append(bytes: &[u8], text: &mut String)
    ensures
        final(text)@ == old(text)@ + base64_text(bytes@),
{
    BASE64_STANDARD.encode_string(bytes, text);
}

/// `serde_json::Value`, as an opaque type.
#[verifier::external_type_specification]
#[verifier::external_body]
pub struct ExJsonValue(serde_json::Value);

/// `serde_json::Error`, as an opaque type.
#[verifier::external_type_specification]
#[verifier::external_body]
pub struct ExJsonError(serde_json::Error);

/// A JSON document. A number is given by the digits that it is printed with.
pub enum Json {
    Null,
    Bool(bool),
    Number(Seq<char>),
    Text(Seq<char>),
    List(Seq<Json>),
    Object(Map<Seq<char>, Json>),
}

/// The document that a `serde_json::Value` holds.
pub uninterp spec fn json_content(value: serde_json::Value) -> Json;

/// The document that `serde_json::from_str` reads from a text, where it reads one.
pub uninterp spec fn json_read(text: Seq<char>) -> Option<Json>;

/// The text that a `serde_json::Value` is printed as.
pub uninterp spec fn json_printed(document: Json) -> Seq<char>;

/// `serde_json::from_str` into a `Value`.
#[verifier::external_body]
pub(crate) fn json_from_str(text: &str) -> (r: Result<serde_json::Value, serde_json::Error>)
    ensures
        r is Ok == json_read(text@) is Some,
        r matches Ok(v) ==> json_read(text@) == Some(json_content(v)),
{
    serde_json::from_str(text)
}

/// `Value::String`.
#[verifier::external_body]
pub(crate) fn json_string(text: String) -> (v: serde_json::Value)
    ensures
        json_content(v) == Json::Text(text@),
{
    serde_json::Value::String(text)
}

/// `Value::from` of a `u64`: a number printed in decimal.
#[verifier::external_body]
pub(crate) fn json_number(n: u64) -> (v: serde_json::Value)
    ensures
        json_content(v) == Json::Number(crate::number::decimal(n as nat)),
{
    serde_json::Value::from(n)
}

/// The fields of an object, by their names.
pub open spec fn json_fields(fields: Seq<(String, serde_json::Value)>) -> Map<Seq<char>, Json>
    decreases fields.len(),
{
    if fields.len() == 0 {
        Map::empty()
    } else {
        json_fields(fields.drop_last()).insert(fields.last().0@, json_content(fields.last().1))
    }
}

/// No two fields have the same name.
pub open spec fn distinct_names(fields: Seq<(String, serde_json::Value)>) -> bool {
    forall|i: int, j: int|
        0 <= i < j < fields.len() ==> (#[trigger] fields[i]).0@ != (#[trigger] fields[j]).0@
}

/// `Value::Object` of the `serde_json::Map` collected from a list of fields with distinct names.
#[verifier::external_body]
pub(crate) fn json_object(fields: Vec<(String, serde_json::Value)>) -> (v: serde_json::Value)
    requires
        distinct_names(fields@),
    ensures
        json_content(v) == Json::Object(json_fields(fields@)),
{
    serde_json::Value::Object(fields.into_iter().collect())
}

/// `Value::to_string`. The text depends on the document alone: an object's fields are printed in
/// the order of their names.
#[verifier::external_body]
pub(crate) fn json_to_string(v: &serde_json::Value) -> (text: String)
    ensures
        text@ == json_printed(json_content(*v)),
{
    v.to_string()
}

/// The largest content that a packet can have, in bytes.
pub const MAX_PACKET_SIZE: usize = 2097152;

/// A number in groups of seven bits, the lowest first, each but the last marked by its high bit.
pub open spec fn varint(n: nat) -> Seq<u8>
    decreases n,
{
    if n < 128 {
        seq![n as u8]
    } else {
        seq![(n % 128 + 128) as u8] + varint(n / 128)
    }
}

/// The 32 bits of an `i32` as a number without a sign.
pub open spec fn bits(n: i32) -> nat {
    if n < 0 {
        (n + 0x1_0000_0000) as nat
    } else {
        n as nat
    }
}

/// The bytes of a packet: how long its content is, its number, and its body.
pub open spec fn packet_bytes(id: i32, body: Seq<u8>) -> Seq<u8> {
    varint((varint(bits(id)) + body).len()) + varint(bits(id)) + body
}

/// The fields of a handshake: the protocol's version, the address and the port that the client has
/// called, and the number of the state that it asks for.
pub open spec fn handshake_fields(version: i32, host: Seq<u8>, port: u16, state: i32) -> Seq<u8> {
    varint(bits(version)) + varint(host.len()) + host + seq![
        (port / 256) as u8,
        (port % 256) as u8,
    ] + varint(bits(state))
}

/// The state that a handshake asks for, given its fields and what stands behind them: there is none
/// where the address is no text, the number of the state stands for none, or bytes are left over.
pub open spec fn handshake_verdict(host: Seq<u8>, state: i32, extra: Seq<u8>) -> Result<
    NextState,
    (),
> {
    if !vstd::utf8::valid_utf8(host) || extra.len() > 0 {
        Err(())
    } else if state == 1 {
        Ok(NextState::Status)
    } else if state == 2 {
        Ok(NextState::Login)
    } else {
        Err(())
    }
}

/// What a fresh `PacketDecoder` finds at the start of a row of bytes: the number and the body of
/// a packet; `Ok(None)` where more bytes are needed; an error where there can be no packet.
pub uninterp spec fn first_packet(bytes: Seq<u8>) -> Result<Option<(i32, Seq<u8>)>, ()>;

/// A packet that was found, with its body as a sequence.
pub open spec fn packet_found(r: Result<Option<(i32, Vec<u8>)>, ()>) -> Result<
    Option<(i32, Seq<u8>)>,
    (),
> {
    match r {
        Ok(Some((id, body))) => Ok(Some((id, body@))),
        Ok(None) => Ok(None),
        Err(e) => Err(e),
    }
}

/// A packet was found, with this number and this body.
pub open spec fn is_packet(
    r: Result<Option<(i32, Seq<u8>)>, ()>,
    id: i32,
    body: Seq<u8>,
) -> bool {
    r matches Ok(Some(packet)) && packet == (id, body)
}

/// More bytes are needed.
pub open spec fn is_incomplete(r: Result<Option<(i32, Seq<u8>)>, ()>) -> bool {
    r matches Ok(packet) && packet is None
}

/// The content of a packet is not too large for it.
pub open spec fn fits(id: i32, body: Seq<u8>) -> bool {
    (varint(bits(id)) + body).len() <= MAX_PACKET_SIZE
}

/// What no packet can announce as the size of its content.
pub open spec fn is_bad_size(size: nat) -> bool {
    size == 0 || MAX_PACKET_SIZE < size <= u32::MAX
}

/// `PacketDecoder::queue_bytes` and `PacketDecoder::try_next_packet` of a fresh decoder. What is
/// found depends on the bytes alone; a packet that is there in full is found, whatever follows,
/// one that is there in part is waited for, and a size that no packet has is an error.
#[verifier::external_body]
pub(crate) fn next_packet(bytes: &[u8]) -> (r: Result<Option<(i32, Vec<u8>)>, ()>)
    ensures
        packet_found(r) == first_packet(bytes@),
        forall|id: i32, body: Seq<u8>, rest: Seq<u8>|
            fits(id, body) && bytes@ == #[trigger] (packet_bytes(id, body) + rest) ==> is_packet(
                packet_found(r),
                id,
                body,
            ),
        forall|id: i32, body: Seq<u8>, n: int|
            fits(id, body) && 0 <= n < packet_bytes(id, body).len() && bytes@
                == #[trigger] packet_bytes(id, body).take(n) ==> is_incomplete(packet_found(r)),
        forall|size: nat, rest: Seq<u8>|
            is_bad_size(size) && bytes@ == #[trigger] (varint(size) + rest) ==> r is Err,
{
    let mut decoder = PacketDecoder::new();
    decoder.queue_bytes(BytesMut::from(bytes));
    match decoder.try_next_packet() {
        Ok(Some(frame)) => Ok(Some((frame.id, frame.body.to_vec()))),
        Ok(None) => Ok(None),
        Err(_) => Err(()),
    }
}

/// What `PacketFrame::decode` makes of a packet as a `HandshakeC2s`: its `next_state`, or an
/// error.
pub uninterp spec fn handshake_decoded(id: i32, body: Seq<u8>) -> Result<NextState, ()>;

/// `PacketFrame::decode` into a `HandshakeC2s`. What is decoded depends on the packet's number
/// and body alone; the fields of a handshake are decoded to the state that they ask for, and it is
/// an error where a field is cut off or the packet's number is not 0. Numbers that are not written
/// in the fewest bytes are accepted, and nothing is said of them.
#[verifier::external_body]
pub(crate) fn decode_handshake(id: i32, body: &[u8]) -> (r: Result<NextState, ()>)
    ensures
        r == handshake_decoded(id, body@),
        id != 0 ==> r is Err,
        forall|version: i32, host: Seq<u8>, port: u16, state: i32, extra: Seq<u8>|
            id == 0 && host.len() <= i32::MAX && body@ == #[trigger] (handshake_fields(
                version,
                host,
                port,
                state,
            ) + extra) ==> r == handshake_verdict(host, state, extra),
        forall|version: i32, host: Seq<u8>, port: u16, state: i32, n: int|
            host.len() <= i32::MAX && 0 <= n < handshake_fields(version, host, port, state).len()
                && body@ == #[trigger] handshake_fields(version, host, port, state).take(n)
                ==> r is Err,
{
    let frame = PacketFrame { id, body: BytesMut::from(body) };
    match frame.decode::<HandshakeC2s>() {
        Ok(packet) => match packet.next_state {
            HandshakeNextState::Status => Ok(NextState::Status),
            HandshakeNextState::Login => Ok(NextState::Login),
        },
        Err(_) => Err(()),
    }
}

/// The body of a status response: the text with its length in bytes before it.
pub open spec fn status_body(json: Seq<char>) -> Seq<u8> {
    varint(vstd::utf8::encode_utf8(json).len()) + vstd::utf8::encode_utf8(json)
}

/// `PacketEncoder::append_packet` of a `QueryResponseS2c` to a fresh encoder, and
/// `PacketEncoder::take`: the bytes of packet 0 with the text as its body, or an error where the
/// content is too large for a packet.
#[verifier::external_body]
pub(crate) fn encode_status(json: &str) -> (r: Result<Vec<u8>, ()>)
    ensures
        r is Ok == (1 + status_body(json@).len() <= MAX_PACKET_SIZE),
        r matches Ok(bytes) ==> bytes@ == packet_bytes(0, status_body(json@)),
{
    let mut encoder = PacketEncoder::new();
    match encoder.append_packet(&QueryResponseS2c { json }) {
        Ok(()) => Ok(encoder.take().to_vec()),
        Err(_) => Err(()),
    }
}

} // verus!
