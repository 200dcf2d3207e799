use orbital_time_server::websocket::{base64_encode, encode_ws_frame, handshake_response, sha1, websocket_accept_key};

#[test]
fn test_sha1_and_base64() {
    let hash = sha1("dGhlIHNhbXBsZSBub25jZQ==258EAFA5-E914-47DA-95CA-C5AB0DC85B11");
    let b64 = base64_encode(&hash);
    assert_eq!(b64, "s3pPLMBiTxaQ9kYGzzhZRbK+xOo=");
}

#[test]
fn sha1_of_empty_and_abc() {
    let empty = sha1("");
    assert_eq!(
        empty.to_vec(),
        vec![
            0xda, 0x39, 0xa3, 0xee, 0x5e, 0x6b, 0x4b, 0x0d, 0x32, 0x55, 0xbf, 0xef, 0x95, 0x60, 0x18,
            0x90, 0xaf, 0xd8, 0x07, 0x09
        ]
    );
    let abc = sha1("abc");
    assert_eq!(
        abc.to_vec(),
        vec![
            0xa9, 0x99, 0x3e, 0x36, 0x47, 0x06, 0x81, 0x6a, 0xba, 0x3e, 0x25, 0x71, 0x78, 0x50, 0xc2,
            0x6c, 0x9c, 0xd0, 0xd8, 0x9d
        ]
    );
}

#[test]
fn sha1_two_block_message() {
    // 56 bytes: the padding spills into a second block.
    let d = sha1("abcdbcdecdefdefgefghfghighijhijkijkljklmklmnlmnomnopnopq");
    assert_eq!(
        d.to_vec(),
        vec![
            0x84, 0x98, 0x3e, 0x44, 0x1c, 0x3b, 0xd2, 0x6e, 0xba, 0xae, 0x4a, 0xa1, 0xf9, 0x51, 0x29,
            0xe5, 0xe5, 0x46, 0x70, 0xf1
        ]
    );
}

#[test]
fn base64_padding_cases() {
    assert_eq!(base64_encode(b""), "");
    assert_eq!(base64_encode(b"f"), "Zg==");
    assert_eq!(base64_encode(b"fo"), "Zm8=");
    assert_eq!(base64_encode(b"foo"), "Zm9v");
    assert_eq!(base64_encode(b"foob"), "Zm9vYg==");
    assert_eq!(base64_encode(b"fooba"), "Zm9vYmE=");
    assert_eq!(base64_encode(b"foobar"), "Zm9vYmFy");
    assert_eq!(base64_encode(&[0xfb, 0xff]), "+/8=");
}

#[test]
fn ws_frame_short_payload() {
    let f = encode_ws_frame("hi");
    assert_eq!(f, vec![0x81, 2, b'h', b'i']);
}

#[test]
fn ws_frame_medium_payload() {
    let payload = "x".repeat(300);
    let f = encode_ws_frame(&payload);
    assert_eq!(&f[..4], &[0x81, 126, 1, 44]);
    assert_eq!(f.len(), 304);
}

#[test]
fn ws_frame_long_payload() {
    let payload = "y".repeat(70000);
    let f = encode_ws_frame(&payload);
    assert_eq!(&f[..10], &[0x81, 127, 0, 0, 0, 0, 0, 1, 0x11, 0x70]);
    assert_eq!(f.len(), 70010);
}

#[test]
fn ws_frame_boundaries() {
    assert_eq!(encode_ws_frame(&"a".repeat(125))[1], 125);
    let f = encode_ws_frame(&"a".repeat(126));
    assert_eq!(&f[..4], &[0x81, 126, 0, 126]);
    let g = encode_ws_frame(&"a".repeat(65535));
    assert_eq!(&g[..4], &[0x81, 126, 0xff, 0xff]);
    let h = encode_ws_frame(&"a".repeat(65536));
    assert_eq!(&h[..10], &[0x81, 127, 0, 0, 0, 0, 0, 1, 0, 0]);
}

#[test]
fn accept_key_of_rfc_example() {
    assert_eq!(websocket_accept_key("dGhlIHNhbXBsZSBub25jZQ=="), "s3pPLMBiTxaQ9kYGzzhZRbK+xOo=");
}

#[test]
fn handshake_reply_for_request() {
    let req = "GET / HTTP/1.1\r\nHost: 127.0.0.1:19876\r\nUpgrade: websocket\r\nConnection: Upgrade\r\nSec-WebSocket-Key: dGhlIHNhbXBsZSBub25jZQ==\r\nSec-WebSocket-Version: 13\r\n\r\n";
    let reply = handshake_response(req).expect("reply");
    assert!(reply.contains("HTTP/1.1 101 Switching Protocols"));
    assert!(reply.contains("Sec-WebSocket-Accept: s3pPLMBiTxaQ9kYGzzhZRbK+xOo="));
    assert_eq!(
        reply,
        "HTTP/1.1 101 Switching Protocols\r\nUpgrade: websocket\r\nConnection: Upgrade\r\nSec-WebSocket-Accept: s3pPLMBiTxaQ9kYGzzhZRbK+xOo=\r\n\r\n"
    );
}

#[test]
fn handshake_key_is_trimmed() {
    let req = "Sec-WebSocket-Key:   dGhlIHNhbXBsZSBub25jZQ==  \r\n";
    let reply = handshake_response(req).expect("reply");
    assert!(reply.contains("s3pPLMBiTxaQ9kYGzzhZRbK+xOo="));
}

#[test]
fn handshake_without_key_or_line_end_fails() {
    assert_eq!(handshake_response("GET / HTTP/1.1\r\n\r\n"), None);
    assert_eq!(handshake_response("Sec-WebSocket-Key: abc"), None);
}

#[test]
fn test_base64_padding_and_alphabet() {
    for (input, pad) in [(&b"a"[..], 2usize), (&b"ab"[..], 1), (&b"abc"[..], 0), (&[0xffu8, 0xfe, 0xfd, 0x00][..], 2)] {
        let out = base64_encode(input);
        let trailing = out.chars().rev().take_while(|&c| c == '=').count();
        assert_eq!(trailing, pad);
        assert!(out
            .chars()
            .take(out.len() - pad)
            .all(|c| c.is_ascii_alphanumeric() || c == '+' || c == '/'));
    }
    assert_eq!(base64_encode(&[0xff, 0xfe, 0xfd, 0x00]), "//79AA==");
}
