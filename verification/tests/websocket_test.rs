use bmw::websocket::{
    build_messages, client_upgrade_request, close_message, encode_message, get_frame_header_info, handshake_end,
    handshake_response, upgrade_request, websocket_accept_key, websocket_message_to_vec, FrameType,
    WebSocketConnectionState, WebSocketMessage, WebSocketMessageType,
};

fn text(s: &str) -> WebSocketMessage {
    WebSocketMessage {
        mtype: WebSocketMessageType::Text,
        payload: s.as_bytes().to_vec(),
    }
}

#[test]
fn accept_key_of_the_rfc_example() {
    // RFC 6455, section 1.3
    assert_eq!(
        websocket_accept_key("dGhlIHNhbXBsZSBub25jZQ=="),
        "s3pPLMBiTxaQ9kYGzzhZRbK+xOo=".to_string()
    );
}

#[test]
fn handshake_answer() {
    let r = handshake_response("dGhlIHNhbXBsZSBub25jZQ==", None, true);
    assert_eq!(
        r,
        "HTTP/1.1 101 Switching Protocols\r\nUpgrade: websocket\r\nConnection: Upgrade\r\nSec-WebSocket-Protocol: nomatches\r\nSec-WebSocket-Accept: s3pPLMBiTxaQ9kYGzzhZRbK+xOo=\r\n\r\n".to_string()
    );
    let r = handshake_response("dGhlIHNhbXBsZSBub25jZQ==", Some("chat".to_string()), false);
    assert!(r.contains("Sec-WebSocket-Protocol: chat\r\n"));
}

#[test]
fn unmasked_text_frame() {
    let v = encode_message(&text("hi"), None);
    assert_eq!(v, vec![0x81, 2, b'h', b'i']);
    let h = get_frame_header_info(&v).unwrap().unwrap();
    assert_eq!(h.ftype, FrameType::Text);
    assert!(h.fin);
    assert!(!h.mask);
    assert_eq!(h.payload_len, 2);
    assert_eq!(h.start_content, 2);
}

#[test]
fn masked_frame_round_trip() {
    let m = text("hello world");
    let v = encode_message(&m, Some(0x01020304));
    assert_eq!(v[1], 0x80 | 11);
    assert_eq!(&v[2..6], &[1, 2, 3, 4]);
    assert_eq!(v[6], b'h' ^ 1);
    let (msgs, off) = build_messages(&v).unwrap();
    assert_eq!(off, v.len());
    assert_eq!(msgs, vec![m]);
}

#[test]
fn long_frames_use_extended_lengths() {
    let m = WebSocketMessage {
        mtype: WebSocketMessageType::Binary,
        payload: vec![7u8; 300],
    };
    let v = encode_message(&m, None);
    assert_eq!(&v[0..4], &[0x82, 126, 1, 44]);
    let (msgs, off) = build_messages(&v).unwrap();
    assert_eq!(off, 304);
    assert_eq!(msgs[0], m);
}

#[test]
fn incomplete_frame_waits() {
    let v = encode_message(&text("abc"), None);
    assert_eq!(get_frame_header_info(&v[0..1]).unwrap(), None);
    let (msgs, off) = build_messages(&v[0..4]).unwrap();
    assert!(msgs.is_empty());
    assert_eq!(off, 0);
}

#[test]
fn bad_opcode_is_refused() {
    assert!(get_frame_header_info(&[0x83, 0]).is_err());
}

#[test]
fn masked_send_decodes_to_the_message() {
    let m = text("xyz");
    let v = websocket_message_to_vec(&m, true).unwrap();
    let (msgs, _) = build_messages(&v).unwrap();
    assert_eq!(msgs, vec![m]);
    let c = close_message();
    assert_eq!(c.mtype, WebSocketMessageType::Close);
}

#[test]
fn handshake_end_finds_last_blank_line() {
    assert_eq!(handshake_end(b"abc"), 0);
    assert_eq!(handshake_end(b"HTTP/1.1 101\r\n\r\nxx"), 16);
}

#[test]
fn connection_state_switches_then_reads_messages() {
    let mut st = WebSocketConnectionState::new();
    let msgs = st.receive(b"HTTP/1.1 101 Switching Protocols\r\n\r\n").unwrap();
    assert!(st.switched);
    assert!(msgs.is_empty());
    let msgs = st.receive(&encode_message(&text("ok"), None)).unwrap();
    assert_eq!(msgs, vec![text("ok")]);
    assert!(st.buffer.is_empty());
}

#[test]
fn frame_bytes_before_the_switch_are_not_utf8() {
    let mut st = WebSocketConnectionState::new();
    let mut data = b"HTTP/1.1 101 Switching Protocols\r\n\r\n".to_vec();
    data.extend(encode_message(&text("ok"), None));
    assert!(st.receive(&data).is_err());
    assert!(!st.switched);
}

#[test]
fn upgrade_request_text() {
    let r = upgrade_request("/chat", "example.com", 8080, "dGhlIHNhbXBsZSBub25jZQ==");
    assert_eq!(
        r,
        "GET /chat HTTP/1.1\r\nHost: example.com:8080\r\nSec-WebSocket-Key: dGhlIHNhbXBsZSBub25jZQ==\r\nUpgrade: websocket\r\nConnection: Upgrade\r\n\r\n"
    );
}

#[test]
fn client_upgrade_request_has_a_fresh_key() {
    let a = client_upgrade_request("/", "localhost", 80);
    let b = client_upgrade_request("/", "localhost", 80);
    let prefix = "GET / HTTP/1.1\r\nHost: localhost:80\r\nSec-WebSocket-Key: ";
    assert!(a.starts_with(prefix));
    let key = &a[prefix.len()..a.find("\r\nUpgrade").unwrap()];
    // the base64 of 16 bytes
    assert_eq!(key.len(), 24);
    assert!(key.ends_with("=="));
    assert!(a.ends_with("\r\nUpgrade: websocket\r\nConnection: Upgrade\r\n\r\n"));
    assert_ne!(a, b);
}

#[test]
fn two_frames_decode_to_both_messages() {
    let a = text("first");
    let b = WebSocketMessage { mtype: WebSocketMessageType::Binary, payload: vec![1, 2, 3] };
    let mut buf = websocket_message_to_vec(&a, true).unwrap();
    buf.extend(encode_message(&b, None));
    let (msgs, off) = build_messages(&buf).unwrap();
    assert_eq!(msgs, vec![a, b]);
    assert_eq!(off, buf.len());
}
