use picoserve::request::{Headers, RequestParts};
use picoserve::url_encoded::UrlEncodedString;
use picoserve::ws::{
    accept_key, close, read_frame, read_message, send_binary, send_ping, send_pong, send_text,
    write_frame, Control, Data, FrameWriter, Message, Opcode, ReadFrameError, ReadMessageError,
    WebSocketUpgrade, WebSocketUpgradeRejection,
};
use picoserve::futures::Either;
use picoserve::ws::{into_nested_result, InternalError};

#[test]
fn accept_key_of_the_rfc_example() {
    let key = accept_key(b"dGhlIHNhbXBsZSBub25jZQ==");
    assert_eq!(&key, b"s3pPLMBiTxaQ9kYGzzhZRbK+xOo=");
}

#[test]
fn text_frames_round_trip() {
    let frame = send_text("Hello");
    assert_eq!(frame, vec![0x81, 5, b'H', b'e', b'l', b'l', b'o']);
    let (message, used) = read_message(&frame, 64).unwrap();
    assert_eq!(message, Message::Text("Hello".to_string()));
    assert_eq!(used, frame.len());
}

#[test]
fn masked_frames_are_unmasked() {
    let input = [0x82, 0x83, 1, 2, 3, 4, 1 ^ 10, 2 ^ 20, 3 ^ 30];
    let (frame, payload, used) = read_frame(&input, 16).unwrap();
    assert!(frame.is_final);
    assert_eq!(frame.opcode, Opcode::Data(Data::Binary));
    assert_eq!(frame.length, 3);
    assert_eq!(payload, vec![10, 20, 30]);
    assert_eq!(used, input.len());
}

#[test]
fn frame_errors() {
    assert_eq!(read_frame(&[0x81], 16), Err(ReadFrameError::UnexpectedEof));
    assert_eq!(read_frame(&[0x81, 5, b'a'], 16), Err(ReadFrameError::UnexpectedEof));
    assert_eq!(read_frame(&[0x81, 5, 1, 2, 3, 4, 5], 4), Err(ReadFrameError::OutOfSpace));
}

#[test]
fn long_lengths_use_extended_headers() {
    let data = vec![7u8; 300];
    let frame = send_binary(&data);
    assert_eq!(&frame[..4], &[0x82, 126, 1, 44]);
    let (message, _) = read_message(&frame, 1024).unwrap();
    assert_eq!(message, Message::Binary(data));
}

#[test]
fn fragmented_messages_are_joined() {
    let mut writer = FrameWriter::new();
    writer.write(b"Hel");
    writer.write(b"lo");
    let bytes = writer.finish();
    let (message, used) = read_message(&bytes, 64).unwrap();
    assert_eq!(message, Message::Text("Hello".to_string()));
    assert_eq!(used, bytes.len());
}

#[test]
fn message_errors() {
    assert_eq!(
        read_message(&[0x80, 0], 16),
        Err(ReadMessageError::MessageStartsWithContinuation)
    );
    assert_eq!(read_message(&[0x83, 0], 16), Err(ReadMessageError::ReservedOpcode(3)));
    assert_eq!(
        read_message(&[0x81, 2, 0xC3, 0x28], 16),
        Err(ReadMessageError::TextIsNotUtf8)
    );
    assert_eq!(
        read_message(&[0x01, 1, b'a', 0x81, 1, b'b'], 16),
        Err(ReadMessageError::UnexpectedMessageStart)
    );
    assert_eq!(ReadMessageError::TextIsNotUtf8.code(), 1007);
}

#[test]
fn control_messages() {
    assert_eq!(
        read_message(&send_ping(b"p"), 16).unwrap().0,
        Message::Ping(b"p".to_vec())
    );
    assert_eq!(
        read_message(&send_pong(b"q"), 16).unwrap().0,
        Message::Pong(b"q".to_vec())
    );
    let frame = close(Some((1000, "bye")));
    assert_eq!(frame, vec![0x88, 5, 0x03, 0xE8, b'b', b'y', b'e']);
    assert_eq!(
        read_message(&frame, 16).unwrap().0,
        Message::Close(Some((1000, "bye".to_string())))
    );
    assert_eq!(close(None), vec![0x88, 0]);
    assert_eq!(Opcode::from_u8(9), Opcode::Control(Control::Ping));
    assert_eq!(write_frame(false, 2, b"x"), vec![0x02, 1, b'x']);
}

fn upgrade_request(headers: &[(&str, &str)]) -> RequestParts {
    let mut h = Headers::new();
    for (name, value) in headers {
        h.push(name, value.as_bytes());
    }
    RequestParts {
        method: "GET".to_string(),
        path: UrlEncodedString::new("/ws"),
        query: None,
        http_version: "HTTP/1.1".to_string(),
        headers: h,
    }
}

#[test]
fn upgrade_requests() {
    let ok = upgrade_request(&[
        ("Connection", "Upgrade"),
        ("Upgrade", "websocket"),
        ("Sec-WebSocket-Version", "13"),
        ("Sec-WebSocket-Key", "dGhlIHNhbXBsZSBub25jZQ=="),
    ]);
    let upgraded = WebSocketUpgrade::from_request(&ok).unwrap().on_upgrade(7u8);
    assert_eq!(upgraded.status_code().0, 101);
    let headers = upgraded.headers();
    assert_eq!(headers.len(), 3);
    assert_eq!(headers[2].1, "s3pPLMBiTxaQ9kYGzzhZRbK+xOo=");
    let with_protocol = upgraded.with_protocol("chat");
    assert_eq!(with_protocol.headers()[3], ("Sec-WebSocket-Protocol".to_string(), "chat".to_string()));
    let (_token, callback) = with_protocol.into_upgrade();
    assert_eq!(callback, 7u8);

    let missing_key = upgrade_request(&[
        ("Connection", "keep-alive, Upgrade"),
        ("Upgrade", "websocket"),
        ("Sec-WebSocket-Version", "13"),
    ]);
    assert!(matches!(
        WebSocketUpgrade::from_request(&missing_key),
        Err(WebSocketUpgradeRejection::WebSocketKeyHeaderMissing)
    ));
    let rejection = WebSocketUpgradeRejection::WebSocketKeyHeaderMissing;
    assert_eq!(rejection.status_code().0, 400);
}

#[test]
fn upgrades_need_a_connection_header_listing_upgrade() {
    let without_connection = upgrade_request(&[
        ("Upgrade", "websocket"),
        ("Sec-WebSocket-Version", "13"),
        ("Sec-WebSocket-Key", "k"),
    ]);
    assert!(matches!(
        WebSocketUpgrade::from_request(&without_connection),
        Err(WebSocketUpgradeRejection::InvalidConnectionHeader)
    ));
    let keep_alive_only = upgrade_request(&[
        ("Connection", "keep-alive"),
        ("Upgrade", "websocket"),
        ("Sec-WebSocket-Version", "13"),
        ("Sec-WebSocket-Key", "k"),
    ]);
    assert!(matches!(
        WebSocketUpgrade::from_request(&keep_alive_only),
        Err(WebSocketUpgradeRejection::InvalidConnectionHeader)
    ));
    let listed = upgrade_request(&[
        ("Connection", "keep-alive,  UPGRADE "),
        ("Upgrade", "websocket"),
        ("Sec-WebSocket-Version", "13"),
        ("Sec-WebSocket-Key", "k"),
    ]);
    assert!(WebSocketUpgrade::from_request(&listed).is_ok());
}

#[test]
fn nested_results_are_split() {
    let ok: Result<Either<u8, char>, InternalError<&str, i32>> = Ok(Either::First(1));
    assert!(matches!(into_nested_result(ok), Ok(Either::First(Ok(1)))));
    let signal: Result<Either<u8, char>, InternalError<&str, i32>> = Ok(Either::Second('s'));
    assert!(matches!(into_nested_result(signal), Ok(Either::Second('s'))));
    let io: Result<Either<u8, char>, InternalError<&str, i32>> = Err(InternalError::Io("io"));
    assert!(matches!(into_nested_result(io), Err("io")));
    let other: Result<Either<u8, char>, InternalError<&str, i32>> = Err(InternalError::Other(3));
    assert!(matches!(into_nested_result(other), Ok(Either::First(Err(3)))));
}

#[test]
fn rejection_messages() {
    assert_eq!(WebSocketUpgradeRejection::MethodNotGet.message(), "Websocket upgrades must use the `GET` method");
}
