use mclient::error::Error;
use mclient::packet::send_packet_raw;
use mclient::protocol::handshake_payload;
use mclient::protocol::string_payload;
use mclient::protocol::write_string;
use mclient::status::favicon_data;
use mclient::status::favicon_image;
use mclient::status::read_status;
use mclient::status::receive_status_response;
use mclient::protocol::send_handshake_packet;
use mclient::status::send_status_request;
use mclient::status::status_of;
use mclient::status::Status;

#[test]
fn handshake_payload_bytes() {
    let mut want = vec![0xf2, 0x05, 0x09];
    want.extend_from_slice(b"127.0.0.1");
    want.extend_from_slice(&[0x63, 0xdd, 0x02]);
    assert_eq!(handshake_payload("127.0.0.1", 25565, 2), want);
}

#[test]
fn handshake_frame_bytes() {
    let mut want = vec![0x0b, 0x00, 0xf2, 0x05, 0x04];
    want.extend_from_slice(b"host");
    want.extend_from_slice(&[0x00, 0x50, 0x01]);
    assert_eq!(send_handshake_packet("host", 80, 1), want);
}

#[test]
fn handshake_with_an_empty_host_and_the_highest_port() {
    assert_eq!(handshake_payload("", 65535, 1), vec![0xf2, 0x05, 0x00, 0xff, 0xff, 0x01]);
    assert_eq!(handshake_payload("", 0, 2), vec![0xf2, 0x05, 0x00, 0x00, 0x00, 0x02]);
}

#[test]
fn status_request_frame_bytes() {
    assert_eq!(send_status_request(), vec![0x01, 0x00]);
}

#[test]
fn strings_are_length_prefixed_in_bytes() {
    assert_eq!(string_payload("Tester12"), [&[0x08u8][..], b"Tester12"].concat());
    assert_eq!(string_payload(""), vec![0x00]);
    assert_eq!(string_payload("\u{e9}"), vec![0x02, 0xc3, 0xa9]);
    let mut out = vec![0x07];
    write_string(&mut out, "ab");
    assert_eq!(out, vec![0x07, 0x02, 0x61, 0x62]);
    let long = "x".repeat(200);
    let field = string_payload(&long);
    assert_eq!(&field[..2], &[0xc8, 0x01]);
    assert_eq!(field.len(), 202);
}

#[test]
fn status_response_is_read_from_its_frame() {
    let json = "{\"description\":{\"text\":\"A server\"}}";
    let frame = send_packet_raw(0x00, &string_payload(json));
    assert_eq!(receive_status_response(&frame[1..]), Ok(String::from(json)));
}

#[test]
fn status_response_errors() {
    assert_eq!(receive_status_response(&[]), Err(Error::MalformedVarInt));
    assert_eq!(receive_status_response(&[0x00]), Err(Error::MalformedVarInt));
    assert_eq!(receive_status_response(&[0x00, 0x05, 0x41]), Err(Error::ProtocolDecodeError));
    assert_eq!(
        receive_status_response(&[0x00, 0xff, 0xff, 0xff, 0xff, 0x0f]),
        Err(Error::ProtocolDecodeError)
    );
    assert_eq!(receive_status_response(&[0x00, 0x02, 0xc3, 0x28]), Err(Error::ProtocolDecodeError));
    assert_eq!(receive_status_response(&[0x00, 0x00]), Ok(String::new()));
}

#[test]
fn status_with_description_and_icon() {
    let json = "{\"version\":{\"name\":\"1.16.5\",\"protocol\":754},\
                \"description\":{\"text\":\"Welcome\"},\
                \"favicon\":\"data:image/png;base64,aGVsbG8=\"}";
    assert_eq!(
        read_status(json),
        Ok(Status {
            description: String::from("Welcome"),
            favicon: Some(String::from("data:image/png;base64,aGVsbG8=")),
        })
    );
}

#[test]
fn status_without_icon() {
    assert_eq!(
        read_status("{\"description\":{\"text\":\"\"}}"),
        Ok(Status { description: String::new(), favicon: None })
    );
    assert_eq!(
        read_status("{\"description\":{\"text\":\"x\"},\"favicon\":17}"),
        Ok(Status { description: String::from("x"), favicon: None })
    );
}

#[test]
fn status_without_description_is_a_protocol_error() {
    assert_eq!(read_status("{}"), Err(Error::ProtocolDecodeError));
    assert_eq!(read_status("{\"description\":\"plain\"}"), Err(Error::ProtocolDecodeError));
    assert_eq!(read_status("{\"description\":{\"text\":5}}"), Err(Error::ProtocolDecodeError));
    assert_eq!(read_status("[1,2]"), Err(Error::ProtocolDecodeError));
}

#[test]
fn status_that_is_no_json_is_a_protocol_error() {
    assert_eq!(read_status(""), Err(Error::ProtocolDecodeError));
    assert_eq!(read_status("{\"description\""), Err(Error::ProtocolDecodeError));
}

#[test]
fn status_of_what_stands_at_the_paths() {
    assert_eq!(status_of(None, None), Err(Error::ProtocolDecodeError));
    assert_eq!(status_of(Some(None), Some(None)), Err(Error::ProtocolDecodeError));
    assert_eq!(
        status_of(Some(None), Some(Some(String::from("icon")))),
        Err(Error::ProtocolDecodeError)
    );
    assert_eq!(status_of(Some(Some(String::from("d"))), None), Err(Error::ProtocolDecodeError));
    assert_eq!(
        status_of(Some(Some(String::from("d"))), Some(None)),
        Ok(Status { description: String::from("d"), favicon: None })
    );
    assert_eq!(
        status_of(Some(Some(String::from("d"))), Some(Some(String::from("icon")))),
        Ok(Status { description: String::from("d"), favicon: Some(String::from("icon")) })
    );
}

#[test]
fn status_fields_are_found_by_their_keys_only() {
    assert_eq!(
        read_status("{\"text\":\"top\",\"description\":{\"text\":\"inner\",\"favicon\":\"no\"}}"),
        Ok(Status { description: String::from("inner"), favicon: None })
    );
    assert_eq!(
        read_status("{\"description\":[{\"text\":\"in a list\"}]}"),
        Err(Error::ProtocolDecodeError)
    );
}

#[test]
fn icon_data_follows_the_first_comma() {
    assert_eq!(favicon_data(b"data:image/png;base64,AAAA"), Some(&b"AAAA"[..]));
    assert_eq!(favicon_data(b"a,b,c"), Some(&b"b,c"[..]));
    assert_eq!(favicon_data(b"abc,"), Some(&b""[..]));
    assert_eq!(favicon_data(b","), Some(&b""[..]));
    assert_eq!(favicon_data(b"no comma"), None);
    assert_eq!(favicon_data(b""), None);
}

#[test]
fn icon_is_decoded_from_base64() {
    assert_eq!(favicon_image("data:image/png;base64,aGVsbG8="), Ok(b"hello".to_vec()));
    assert_eq!(favicon_image("x,iVBORw0KGgo="), Ok(vec![0x89, 0x50, 0x4e, 0x47, 0x0d, 0x0a, 0x1a, 0x0a]));
    assert_eq!(favicon_image("x,"), Ok(vec![]));
}

#[test]
fn icon_errors() {
    assert_eq!(favicon_image("aGVsbG8="), Err(Error::ProtocolDecodeError));
    assert_eq!(favicon_image("x,not base64!"), Err(Error::ProtocolDecodeError));
    assert_eq!(favicon_image("x,aGVsbG8"), Err(Error::ProtocolDecodeError));
    assert_eq!(favicon_image("a,b,aGVsbG8="), Err(Error::ProtocolDecodeError));
}
