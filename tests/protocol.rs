use mojika::protocol::{
    frame, parse_header, FramingError, MojikaProtocol, MojikaProtocolHeader,
    PROTOCOL_HEADER_MAX_LEN,
};

#[test]
fn protocol_header_from_read() {
    let content = "test content";
    let header = MojikaProtocolHeader {
        message_type: "Request".to_string(),
        len: content.len(),
    };
    let mut header_str = header.serialize();
    header_str.push_str(content);
    let result = MojikaProtocol::from_bytes(header_str.as_bytes());
    assert!(result.is_ok());
    let header_result = result.unwrap().header;
    assert_eq!(header_result.message_type, "Request");
    assert_eq!(header_result.len, content.len());
}

#[test]
fn header_serializes_to_its_line() {
    let header = MojikaProtocolHeader { message_type: "Response".to_string(), len: 1234 };
    assert_eq!(header.serialize(), "type_name=Response,len=1234\n");
    let empty = MojikaProtocolHeader { message_type: "Request".to_string(), len: 0 };
    assert_eq!(empty.serialize(), "type_name=Request,len=0\n");
}

#[test]
fn header_parses_fields_in_any_order() {
    let h = parse_header("len=5,type_name=Request\n").unwrap();
    assert_eq!(h.message_type, "Request");
    assert_eq!(h.len, 5);
}

#[test]
fn header_ignores_unknown_keys_and_white_space() {
    let h = parse_header("  type_name=Response,extra=1,len=+42 \r\n").unwrap();
    assert_eq!(h.message_type, "Response");
    assert_eq!(h.len, 42);
}

#[test]
fn header_repeated_key_keeps_last_value() {
    let h = parse_header("type_name=A,len=1,type_name=B,len=2").unwrap();
    assert_eq!(h.message_type, "B");
    assert_eq!(h.len, 2);
}

#[test]
fn header_value_stops_at_second_equals() {
    let h = parse_header("type_name=A=B,len=3").unwrap();
    assert_eq!(h.message_type, "A");
}

#[test]
fn header_errors() {
    assert_eq!(parse_header("len=3\n").unwrap_err(), FramingError::MissingTypeName);
    assert_eq!(parse_header("type_name=Request\n").unwrap_err(), FramingError::MissingLen);
    assert_eq!(parse_header("type_name=Request,len=x\n").unwrap_err(), FramingError::InvalidLen);
    assert_eq!(parse_header("type_name=Request,len=-1\n").unwrap_err(), FramingError::InvalidLen);
    assert_eq!(parse_header("type_name=Request,len=+\n").unwrap_err(), FramingError::InvalidLen);
    assert_eq!(
        parse_header("type_name=Request,len=99999999999999999999999\n").unwrap_err(),
        FramingError::InvalidLen
    );
    assert_eq!(parse_header("type_name,len=3\n").unwrap_err(), FramingError::MissingValue);
    assert_eq!(parse_header("").unwrap_err(), FramingError::MissingValue);
    assert_eq!(parse_header("type_name=Request,,len=3").unwrap_err(), FramingError::MissingValue);
}

#[test]
fn header_len_takes_largest_usize() {
    let text = format!("type_name=T,len={}", usize::MAX);
    assert_eq!(parse_header(&text).unwrap().len, usize::MAX);
}

#[test]
fn frame_round_trip() {
    let payload: Vec<u8> = (0..=255u8).collect();
    let bytes = frame("Request", &payload);
    let mut expected = b"type_name=Request,len=256\n".to_vec();
    expected.extend_from_slice(&payload);
    assert_eq!(bytes, expected);
    let m = MojikaProtocol::from_bytes(&bytes).unwrap();
    assert_eq!(m.header.message_type, "Request");
    assert_eq!(m.header.len, 256);
    assert_eq!(m.content, payload);
}

#[test]
fn frame_of_empty_payload() {
    let bytes = frame("Response", &[]);
    assert_eq!(bytes, b"type_name=Response,len=0\n".to_vec());
    let m = MojikaProtocol::from_bytes(&bytes).unwrap();
    assert!(m.content.is_empty());
}

#[test]
fn deframe_reads_only_announced_bytes() {
    let m = MojikaProtocol::from_bytes(b"type_name=Request,len=3\nabcdef").unwrap();
    assert_eq!(m.content, b"abc".to_vec());
}

#[test]
fn deframe_payload_may_hold_newlines() {
    let m = MojikaProtocol::from_bytes(b"type_name=Request,len=3\n\n\n\n").unwrap();
    assert_eq!(m.content, b"\n\n\n".to_vec());
}

#[test]
fn deframe_errors() {
    assert_eq!(
        MojikaProtocol::from_bytes(b"type_name=Request,len=3").unwrap_err(),
        FramingError::Unterminated
    );
    assert_eq!(
        MojikaProtocol::from_bytes(b"type_name=Request,len=4\nabc").unwrap_err(),
        FramingError::Truncated
    );
    assert_eq!(
        MojikaProtocol::from_bytes(b"type_name=\xff,len=0\n").unwrap_err(),
        FramingError::InvalidUtf8
    );
    assert_eq!(MojikaProtocol::from_bytes(b"").unwrap_err(), FramingError::Unterminated);
}

#[test]
fn deframe_caps_header_length() {
    let long_name = "A".repeat(PROTOCOL_HEADER_MAX_LEN);
    let bytes = frame(&long_name, b"x");
    assert_eq!(MojikaProtocol::from_bytes(&bytes).unwrap_err(), FramingError::Unterminated);
    let fitting = "A".repeat(PROTOCOL_HEADER_MAX_LEN - "type_name=,len=1\n".len());
    let bytes = frame(&fitting, b"x");
    let m = MojikaProtocol::from_bytes(&bytes).unwrap();
    assert_eq!(m.header.message_type, fitting);
    assert_eq!(m.content, b"x".to_vec());
}

#[test]
fn protocol_new_parses_header() {
    let m = MojikaProtocol::new("type_name=Request,len=2\n", vec![1, 2]).unwrap();
    assert_eq!(m.header.message_type, "Request");
    assert_eq!(m.content, vec![1, 2]);
    assert_eq!(
        MojikaProtocol::new("len=2", vec![]).unwrap_err(),
        FramingError::MissingTypeName
    );
}

#[test]
fn framing_error_messages() {
    assert_eq!(FramingError::MissingLen.message(), "header 'len' is missing");
    assert_eq!(FramingError::MissingValue.message(), "value not found in header");
}
