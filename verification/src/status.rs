//! The one-shot status query: a handshake and a request out, a JSON document
//! back, and in it a description and perhaps an icon as a data URI.
//!
//! The JSON reader is `serde_json`'s and the base64 decoder `base64`'s. What
//! this library relies on is stated at the two wrappers and believed, not
//! proved.

use crate::bytes::find;
use crate::cursor::dynamic_array;
use crate::cursor::read_array_dynamic_cursor;
use crate::cursor::Cursor;
use crate::error::Error;
use crate::packet;
use crate::protocol;
use crate::text::string_from_utf8;
use base64::engine::Engine;
use base64::prelude::BASE64_STANDARD;
use vstd::prelude::*;
use vstd::slice::slice_subrange;
use vstd::utf8::decode_utf8;
use vstd::utf8::encode_utf8;
use vstd::utf8::valid_utf8;

verus! {

/// The byte of a comma.
pub const COMMA: u8 = 0x2c;

/// What a status document says.
#[derive(Clone, Debug, PartialEq, Eq)]
pub struct Status {
    /// The server's description.
    pub description: String,
    /// The server's icon as a data URI, where it has one.
    pub favicon: Option<String>,
}

/// The string that stands in the JSON document `json` at the end of `path`,
/// a chain of keys followed from the document's root: `None` where `json` is
/// no JSON, `Some(None)` where the chain ends at no string.
pub uninterp spec fn json_string_at(json: Seq<char>, path: Seq<Seq<char>>) -> Option<
    Option<Seq<char>>,
>;

/// The bytes that the base64 text `text` stands for in the standard alphabet
/// with padding, or `None` where it is no such text.
pub uninterp spec fn base64_decoded(text: Seq<u8>) -> Option<Seq<u8>>;

/// The keys of a path, each by its characters.
pub open spec fn path_view(path: Seq<&str>) -> Seq<Seq<char>> {
    path.map_values(|key: &str| key@)
}

/// What was found at the end of a path, by its characters.
pub open spec fn found_view(found: Option<Option<String>>) -> Option<Option<Seq<char>>> {
    match found {
        None => None,
        Some(None) => Some(None),
        Some(Some(text)) => Some(Some(text@)),
    }
}

/// Reads `json` with `serde_json::from_str`, follows `path` from the value
/// by `Value`'s index operator, one key after the other, and takes the
/// string there with `Value::as_str`.
///
/// Believed of it: the outcome is a function of `json` and `path` alone.
#[verifier::external_body]
pub(crate) fn string_at(json: &str, path: &[&str]) -> (r: Option<Option<String>>)
    ensures
        found_view(r) == json_string_at(json@, path_view(path@)),
{
    let value: serde_json::Value = match serde_json::from_str(json) {
        Ok(value) => value,
        Err(_) => return None,
    };
    let mut at = &value;
    for key in path {
        at = &at[*key];
    }
    Some(at.as_str().map(String::from))
}

/// Decodes `text` with `base64::prelude::BASE64_STANDARD.decode`.
///
/// Believed of it: the outcome is a function of `text` alone.
#[verifier::external_body]
pub(crate) fn base64_decode(text: &[u8]) -> (r: Option<Vec<u8>>)
    ensures
        match r {
            Some(bytes) => base64_decoded(text@) == Some(bytes@),
            None => base64_decoded(text@) is None,
        },
{
    BASE64_STANDARD.decode(text).ok()
}

/// The frame that asks for the status: a packet without payload, compression
/// off.
pub fn send_status_request() -> (bytes: Vec<u8>)
    ensures
        packet::frame_of(
            protocol::STATUS_REQUEST,
            Seq::<u8>::empty(),
            protocol::NO_COMPRESSION,
        ) == Some(bytes@),
{
    let payload: Vec<u8> = Vec::new();
    packet::send_packet_raw(protocol::STATUS_REQUEST, payload.as_slice())
}

/// The JSON text in the payload of a status response: a length-prefixed
/// string that must be UTF-8.
pub open spec fn response_text(payload: Seq<u8>) -> Result<Seq<char>, Error> {
    match dynamic_array(payload) {
        Err(e) => Err(e),
        Ok((text, _)) => if valid_utf8(text) {
            Ok(decode_utf8(text))
        } else {
            Err(Error::ProtocolDecodeError)
        },
    }
}

/// The JSON text in the frame body of a status response, read with
/// compression off.
pub open spec fn response_in(body: Seq<u8>) -> Result<Seq<char>, Error> {
    match packet::packet_of(body, protocol::NO_COMPRESSION) {
        Err(e) => Err(e),
        Ok((_, payload)) => response_text(payload),
    }
}

/// The JSON text of the status response whose frame body is `body`.
pub fn receive_status_response(body: &[u8]) -> (r: Result<String, Error>)
    ensures
        match r {
            Ok(text) => response_in(body@) == Ok::<Seq<char>, Error>(text@),
            Err(e) => response_in(body@) == Err::<Seq<char>, Error>(e),
        },
{
    let (_, payload) = match packet::decode_body(body, protocol::NO_COMPRESSION) {
        Ok(found) => found,
        Err(e) => {
            return Err(e);
        },
    };
    let mut cursor = Cursor::new(payload);
    proof {
        assert(cursor.remaining() =~= payload@);
    }
    let text = match read_array_dynamic_cursor(&mut cursor) {
        Ok(v) => v,
        Err(e) => {
            return Err(e);
        },
    };
    match string_from_utf8(text) {
        Some(json) => Ok(json),
        None => Err(Error::ProtocolDecodeError),
    }
}

/// The path to the description of a status document.
pub open spec fn description_path() -> Seq<Seq<char>> {
    seq!["description"@, "text"@]
}

/// The path to the icon of a status document.
pub open spec fn favicon_path() -> Seq<Seq<char>> {
    seq!["favicon"@]
}

/// What a status document amounts to, given what stands at its two paths:
/// without a document, or without a description in it, a
/// `ProtocolDecodeError`.
pub open spec fn status_from(
    description: Option<Option<Seq<char>>>,
    favicon: Option<Option<Seq<char>>>,
) -> Result<(Seq<char>, Option<Seq<char>>), Error> {
    match (description, favicon) {
        (Some(Some(text)), Some(icon)) => Ok((text, icon)),
        _ => Err(Error::ProtocolDecodeError),
    }
}

/// A status as spec values.
pub open spec fn status_view(status: Status) -> (Seq<char>, Option<Seq<char>>) {
    (
        status.description@,
        match status.favicon {
            Some(text) => Some(text@),
            None => None,
        },
    )
}

/// The status that what was found at the two paths amounts to.
pub fn status_of(description: Option<Option<String>>, favicon: Option<Option<String>>) -> (r:
    Result<Status, Error>)
    ensures
        match r {
            Ok(status) => status_from(found_view(description), found_view(favicon)) == Ok::<
                (Seq<char>, Option<Seq<char>>),
                Error,
            >(status_view(status)),
            Err(e) => status_from(found_view(description), found_view(favicon)) == Err::<
                (Seq<char>, Option<Seq<char>>),
                Error,
            >(e),
        },
{
    match (description, favicon) {
        (Some(Some(description)), Some(favicon)) => Ok(Status { description, favicon }),
        _ => Err(Error::ProtocolDecodeError),
    }
}

/// The status in the document `json`: the string at `description.text`, which
/// must be there, and the string at `favicon`, if there is one.
pub fn read_status(json: &str) -> (r: Result<Status, Error>)
    ensures
        match r {
            Ok(status) => status_from(
                json_string_at(json@, description_path()),
                json_string_at(json@, favicon_path()),
            ) == Ok::<(Seq<char>, Option<Seq<char>>), Error>(status_view(status)),
            Err(e) => status_from(
                json_string_at(json@, description_path()),
                json_string_at(json@, favicon_path()),
            ) == Err::<(Seq<char>, Option<Seq<char>>), Error>(e),
        },
{
    let to_description: Vec<&str> = vec!["description", "text"];
    let to_favicon: Vec<&str> = vec!["favicon"];
    proof {
        assert(path_view(to_description@) =~= description_path());
        assert(path_view(to_favicon@) =~= favicon_path());
    }
    status_of(string_at(json, to_description.as_slice()), string_at(json, to_favicon.as_slice()))
}

/// The part of a data URI that holds the data: all that follows its first
/// comma, or `None` where it has no comma.
pub open spec fn data_part(uri: Seq<u8>) -> Option<Seq<u8>> {
    if exists|i: int| 0 <= i < uri.len() && uri[i] == COMMA {
        let first = choose|i: int|
            0 <= i < uri.len() && uri[i] == COMMA && forall|k: int| 0 <= k < i ==> uri[k] != COMMA;
        Some(uri.skip(first + 1))
    } else {
        None
    }
}

/// The part of a data URI that holds the data.
pub fn favicon_data(uri: &[u8]) -> (r: Option<&[u8]>)
    ensures
        match r {
            Some(part) => data_part(uri@) == Some(part@),
            None => data_part(uri@) is None,
        },
{
    match find(uri, COMMA) {
        Some(at) => {
            let end: usize = uri.len();
            let part = slice_subrange(uri, at + 1, end);
            proof {
                let first = choose|i: int|
                    0 <= i < uri@.len() && uri@[i] == COMMA && forall|k: int|
                        0 <= k < i ==> uri@[k] != COMMA;
                assert(first == at) by {
                    if first < at {
                        assert(uri@[first] != COMMA);
                    }
                    if at < first {
                        assert(uri@[at as int] != COMMA);
                    }
                }
                assert(part@ =~= uri@.skip(at + 1));
            }
            Some(part)
        },
        None => None,
    }
}

/// The image that a data URI stands for, given its data part decoded: a URI
/// without a comma, or with data that is no base64, is a
/// `ProtocolDecodeError`.
pub open spec fn image_of(uri: Seq<u8>) -> Result<Seq<u8>, Error> {
    match data_part(uri) {
        None => Err(Error::ProtocolDecodeError),
        Some(part) => match base64_decoded(part) {
            Some(image) => Ok(image),
            None => Err(Error::ProtocolDecodeError),
        },
    }
}

/// The image that the data URI `uri` stands for.
pub fn favicon_image(uri: &str) -> (r: Result<Vec<u8>, Error>)
    ensures
        match r {
            Ok(image) => image_of(encode_utf8(uri@)) == Ok::<Seq<u8>, Error>(image@),
            Err(e) => image_of(encode_utf8(uri@)) == Err::<Seq<u8>, Error>(e),
        },
{
    match favicon_data(uri.as_bytes()) {
        None => Err(Error::ProtocolDecodeError),
        Some(part) => match base64_decode(part) {
            Some(image) => Ok(image),
            None => Err(Error::ProtocolDecodeError),
        },
    }
}

} // verus!
