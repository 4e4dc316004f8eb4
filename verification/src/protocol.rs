//! The numbers of the protocol revision that this client speaks, and the
//! fields that more than one packet is made of.

use crate::bytes::append;
use crate::frame;
use crate::packet;
use crate::varint;
use vstd::prelude::*;
use vstd::utf8::encode_utf8;

verus! {

/// The protocol revision announced in the handshake.
pub const PROTOCOL_VERSION: i32 = 754;

/// The threshold in force until the server sets one: compression off.
pub const NO_COMPRESSION: i32 = -1;

/// Handshake intent: ask for the server's status.
pub const INTENT_STATUS: i32 = 1;

/// Handshake intent: log in.
pub const INTENT_LOGIN: i32 = 2;

/// Sent: handshake.
pub const HANDSHAKE: i32 = 0x00;

/// Sent: status request.
pub const STATUS_REQUEST: i32 = 0x00;

/// Sent: login start.
pub const LOGIN_START: i32 = 0x00;

/// Sent: chat message.
pub const CHAT_OUT: i32 = 0x03;

/// Sent: answer to a keep-alive.
pub const KEEP_ALIVE_OUT: i32 = 0x10;

/// Received while logging in: set compression.
pub const SET_COMPRESSION: i32 = 0x03;

/// Received: chat message.
pub const CHAT_IN: i32 = 0x0E;

/// Received: keep-alive.
pub const KEEP_ALIVE_IN: i32 = 0x1F;

/// Received: roster update.
pub const PLAYER_LIST: i32 = 0x32;

/// The number of bytes in a keep-alive token.
pub const TOKEN_BYTES: usize = 8;

/// The longest string, in bytes, that `write_string` takes.
pub const MAX_STRING: usize = 0x7fff_0000;

/// A string as a field: the length of its UTF-8 bytes, then the bytes.
pub open spec fn string_field(text: Seq<char>) -> Seq<u8> {
    frame::framed(encode_utf8(text))
}

/// Appends `text` as a field.
pub fn write_string(out: &mut Vec<u8>, text: &str)
    requires
        encode_utf8(text@).len() <= MAX_STRING,
    ensures
        final(out)@ == old(out)@ + string_field(text@),
{
    frame::write_frame(out, text.as_bytes());
}

/// A port as a field: two bytes, the high one first.
pub open spec fn port_field(port: u16) -> Seq<u8> {
    seq![(port / 256) as u8, (port % 256) as u8]
}

/// The payload of a handshake: protocol revision, host, port and intent.
pub open spec fn handshake(host: Seq<char>, port: u16, intent: i32) -> Seq<u8> {
    varint::encoding(PROTOCOL_VERSION) + string_field(host) + port_field(port) + varint::encoding(
        intent,
    )
}

/// The payload of a handshake.
pub fn handshake_payload(host: &str, port: u16, intent: i32) -> (payload: Vec<u8>)
    requires
        encode_utf8(host@).len() <= MAX_STRING,
    ensures
        payload@ == handshake(host@, port, intent),
        payload@.len() <= MAX_STRING + 17,
{
    let mut payload: Vec<u8> = Vec::new();
    varint::write_varint(&mut payload, PROTOCOL_VERSION);
    write_string(&mut payload, host);
    payload.push((port / 256) as u8);
    payload.push((port % 256) as u8);
    let ghost before = payload@;
    varint::write_varint(&mut payload, intent);
    proof {
        assert(before =~= varint::encoding(PROTOCOL_VERSION) + string_field(host@) + port_field(
            port,
        ));
        varint::lemma_round_trip(PROTOCOL_VERSION, Seq::empty());
        varint::lemma_round_trip(intent, Seq::empty());
        varint::lemma_round_trip(encode_utf8(host@).len() as i32, Seq::empty());
    }
    payload
}

/// The frame that carries a handshake with `intent`, compression off.
pub fn send_handshake_packet(host: &str, port: u16, intent: i32) -> (bytes: Vec<u8>)
    requires
        encode_utf8(host@).len() <= MAX_STRING,
    ensures
        packet::frame_of(
            HANDSHAKE,
            handshake(host@, port, intent),
            NO_COMPRESSION,
        ) == Some(bytes@),
{
    let payload = handshake_payload(host, port, intent);
    packet::send_packet_raw(HANDSHAKE, payload.as_slice())
}

/// The payload that carries one string and nothing else.
pub fn string_payload(text: &str) -> (payload: Vec<u8>)
    requires
        encode_utf8(text@).len() <= MAX_STRING,
    ensures
        payload@ == string_field(text@),
        payload@.len() <= encode_utf8(text@).len() + 5,
{
    let mut payload: Vec<u8> = Vec::new();
    write_string(&mut payload, text);
    proof {
        varint::lemma_round_trip(encode_utf8(text@).len() as i32, Seq::empty());
        assert(payload@ =~= string_field(text@));
    }
    payload
}

} // verus!
