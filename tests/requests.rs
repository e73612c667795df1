use embedded_websocket::WebSocketServer;
use http_fun::{
    connection_end, echo_step, not_found, plain_response, push_decimal, root_page, ConnectionEnd,
    EchoAction, HeaderReader, Route, Step, StreamError, WebServerError, HANDSHAKE_FIELD_MAX,
    NOT_FOUND, READ_BUF_LEN, ROOT_BODY,
};

const UPGRADE_CHAT: &str = "GET /chat HTTP/1.1\r\nHost: localhost:1337\r\nUpgrade: websocket\r\nConnection: Upgrade\r\nSec-WebSocket-Key: dGhlIHNhbXBsZSBub25jZQ==\r\nSec-WebSocket-Version: 13\r\n\r\n";
const UPGRADE_OTHER: &str = "GET /other HTTP/1.1\r\nHost: localhost:1337\r\nUpgrade: websocket\r\nConnection: Upgrade\r\nSec-WebSocket-Key: dGhlIHNhbXBsZSBub25jZQ==\r\nSec-WebSocket-Version: 13\r\n\r\n";
const GET_ROOT: &str = "GET / HTTP/1.1\r\nHost: localhost:1337\r\n\r\n";
const GET_OTHER: &str = "GET /missing.html HTTP/1.1\r\nHost: localhost:1337\r\n\r\n";

/// Feeds `bytes` in chunks of `size` bytes until the reader settles.
fn deliver(bytes: &[u8], size: usize) -> (Result<Step, WebServerError>, HeaderReader) {
    let mut reader = HeaderReader::new();
    let mut at = 0;
    loop {
        let end = (at + size).min(bytes.len()).min(at + reader.space());
        let step = reader.receive(&bytes[at..end]);
        at = end;
        match step {
            Ok(Step::NeedMore) if at < bytes.len() => continue,
            other => return (other, reader),
        }
    }
}

fn kind(step: &Result<Step, WebServerError>) -> &'static str {
    match step {
        Ok(Step::NeedMore) => "need_more",
        Ok(Step::Done(Route::Upgrade(_))) => "upgrade",
        Ok(Step::Done(Route::RootPage)) => "root",
        Ok(Step::Done(Route::NotFound)) => "not_found",
        Err(WebServerError::HeaderTooLarge) => "too_large",
        Err(WebServerError::Http(_)) => "malformed",
        Err(WebServerError::HandshakeFieldTooLong) => "field_too_long",
        Err(WebServerError::WebSocket(_)) => "upgrade_rejected",
        Err(_) => "other",
    }
}

#[test]
fn upgrade_to_chat_is_accepted() {
    let (step, reader) = deliver(UPGRADE_CHAT.as_bytes(), READ_BUF_LEN);
    match step {
        Ok(Step::Done(Route::Upgrade(context))) => {
            assert_eq!(context.sec_websocket_key.as_str(), "dGhlIHNhbXBsZSBub25jZQ==");
        }
        other => panic!("unexpected {}", kind(&other)),
    }
    assert_eq!(reader.cursor(), 0);
}

#[test]
fn upgrade_to_other_path_is_not_found() {
    let (step, _) = deliver(UPGRADE_OTHER.as_bytes(), READ_BUF_LEN);
    assert_eq!(kind(&step), "not_found");
    let response = plain_response(&Route::NotFound).unwrap();
    assert_eq!(response, NOT_FOUND.as_bytes());
}

#[test]
fn split_reads_give_the_same_outcome() {
    for request in [UPGRADE_CHAT, UPGRADE_OTHER, GET_ROOT, GET_OTHER] {
        let (whole, _) = deliver(request.as_bytes(), READ_BUF_LEN);
        for size in [1, 2, 3, 7, 16, 50] {
            let (split, reader) = deliver(request.as_bytes(), size);
            assert_eq!(kind(&split), kind(&whole));
            assert_eq!(reader.cursor(), 0);
        }
    }
}

#[test]
fn zero_length_read_keeps_waiting() {
    let mut reader = HeaderReader::new();
    assert!(matches!(reader.receive(b"GET / HT"), Ok(Step::NeedMore)));
    assert!(matches!(reader.receive(b""), Ok(Step::NeedMore)));
    assert_eq!(reader.cursor(), 8);
    assert_eq!(reader.leftover(), b"GET / HT");
    assert!(matches!(reader.receive(b"TP/1.1\r\n\r\n"), Ok(Step::Done(Route::RootPage))));
}

#[test]
fn bytes_after_the_head_are_kept() {
    let mut bytes = GET_ROOT.as_bytes().to_vec();
    bytes.extend_from_slice(b"abc");
    let (step, reader) = deliver(&bytes, READ_BUF_LEN);
    assert_eq!(kind(&step), "root");
    assert_eq!(reader.cursor(), 3);
    assert_eq!(reader.leftover(), b"abc");
}

#[test]
fn first_frame_in_the_same_read_is_decoded() {
    let mut bytes = UPGRADE_CHAT.as_bytes().to_vec();
    let mask = [1u8, 2, 3, 4];
    bytes.extend_from_slice(&[0x81, 0x82]);
    bytes.extend_from_slice(&mask);
    bytes.extend_from_slice(&[b'H' ^ mask[0], b'i' ^ mask[1]]);
    let (step, reader) = deliver(&bytes, READ_BUF_LEN);
    let context = match step {
        Ok(Step::Done(Route::Upgrade(context))) => context,
        other => panic!("unexpected {}", kind(&other)),
    };
    assert_eq!(reader.cursor(), 8);
    let mut server = WebSocketServer::new_server();
    let mut handshake = [0u8; 1024];
    server.server_accept(&context.sec_websocket_key, None, &mut handshake).unwrap();
    let mut text = [0u8; 64];
    let read = server.read(reader.leftover(), &mut text).unwrap();
    assert_eq!(read.len_from, 8);
    assert_eq!(&text[..read.len_to], b"Hi");
}

#[test]
fn root_path_gets_the_page() {
    let (step, _) = deliver(GET_ROOT.as_bytes(), READ_BUF_LEN);
    let route = match step {
        Ok(Step::Done(route)) => route,
        other => panic!("unexpected {}", kind(&other)),
    };
    assert!(matches!(route, Route::RootPage));
    let response = plain_response(&route).unwrap();
    assert_eq!(response, root_page());
    let text = String::from_utf8(response).unwrap();
    assert!(text.starts_with("HTTP/1.1 200 OK\r\nContent-Type: text/html; charset=UTF-8\r\n"));
    assert!(text.contains("\r\nContent-Length: 2585\r\nConnection: keep-alive\r\n\r\n<!doctype html>"));
    assert!(text.ends_with(ROOT_BODY));
    assert_eq!(ROOT_BODY.len(), 2585);
}

#[test]
fn other_path_gets_not_found() {
    let (step, _) = deliver(GET_OTHER.as_bytes(), READ_BUF_LEN);
    assert_eq!(kind(&step), "not_found");
    assert_eq!(
        not_found(),
        b"HTTP/1.1 404 Not Found\r\nContent-Length: 0\r\nConnection: close\r\n\r\n".to_vec()
    );
}

#[test]
fn upgrade_route_has_no_plain_response() {
    let (step, _) = deliver(UPGRADE_CHAT.as_bytes(), READ_BUF_LEN);
    match step {
        Ok(Step::Done(route)) => assert!(plain_response(&route).is_none()),
        other => panic!("unexpected {}", kind(&other)),
    }
}

#[test]
fn oversized_head_is_rejected_in_any_chunking() {
    let mut bytes = b"GET / HTTP/1.1\r\nX-Filler: ".to_vec();
    bytes.resize(READ_BUF_LEN + 100, b'a');
    for size in [READ_BUF_LEN, 1000, 97, 1] {
        let (step, reader) = deliver(&bytes, size);
        assert_eq!(kind(&step), "too_large");
        assert_eq!(reader.cursor(), READ_BUF_LEN);
    }
}

#[test]
fn malformed_head_is_rejected() {
    let mut reader = HeaderReader::new();
    let step = reader.receive(b"GET / HTTP/1.1\r\nBad Header\r\n\r\n");
    assert_eq!(kind(&step), "malformed");
}

#[test]
fn overlong_handshake_key_is_rejected() {
    let request = format!(
        "GET /chat HTTP/1.1\r\nUpgrade: websocket\r\nSec-WebSocket-Key: {}\r\n\r\n",
        "k".repeat(HANDSHAKE_FIELD_MAX + 1)
    );
    let (step, _) = deliver(request.as_bytes(), READ_BUF_LEN);
    assert_eq!(kind(&step), "field_too_long");
}

#[test]
fn non_utf8_upgrade_field_is_rejected() {
    let mut bytes = b"GET /chat HTTP/1.1\r\nUpgrade: web".to_vec();
    bytes.push(0xff);
    bytes.extend_from_slice(b"\r\n\r\n");
    let mut reader = HeaderReader::new();
    let step = reader.receive(&bytes);
    assert_eq!(kind(&step), "upgrade_rejected");
}

#[test]
fn decimal_lengths() {
    for (n, text) in [(0usize, "0"), (7, "7"), (10, "10"), (2585, "2585"), (4096, "4096")] {
        let mut out = b"x".to_vec();
        push_decimal(&mut out, n);
        assert_eq!(out, format!("x{}", text).into_bytes());
    }
}

#[test]
fn echo_replies_with_the_same_text() {
    for text in ["hello", "", "grüße ✓"] {
        match echo_step(Some(text)) {
            EchoAction::Reply(reply) => assert_eq!(reply, text),
            EchoAction::Finish => panic!("expected a reply"),
        }
    }
    assert!(matches!(echo_step(None), EchoAction::Finish));
}

#[test]
fn connection_outcomes_for_logging() {
    assert_eq!(connection_end(&Ok(())), ConnectionEnd::Closed);
    assert_eq!(
        connection_end(&Err(WebServerError::from(StreamError::Interrupted))),
        ConnectionEnd::UnexpectedEnd
    );
    assert_eq!(
        connection_end(&Err(WebServerError::from(StreamError::Other))),
        ConnectionEnd::Aborted
    );
    assert_eq!(connection_end(&Err(WebServerError::HeaderTooLarge)), ConnectionEnd::Aborted);
    assert_eq!(
        connection_end(&Err(WebServerError::from(httparse::Error::Token))),
        ConnectionEnd::Aborted
    );
}

#[test]
fn errors_convert_into_their_variants() {
    assert!(matches!(
        WebServerError::from(StreamError::Other),
        WebServerError::Io(StreamError::Other)
    ));
    assert!(matches!(
        WebServerError::from(httparse::Error::HeaderName),
        WebServerError::Http(httparse::Error::HeaderName)
    ));
    assert!(matches!(
        WebServerError::from(embedded_websocket::Error::Utf8Error),
        WebServerError::WebSocket(embedded_websocket::Error::Utf8Error)
    ));
    assert!(matches!(
        WebServerError::from(embedded_websocket::framer::FramerError::<StreamError>::FrameTooLarge(9)),
        WebServerError::Framer(_)
    ));
    let bad = std::str::from_utf8(&[0xffu8]).unwrap_err();
    assert!(matches!(WebServerError::from(bad), WebServerError::Utf8Error(_)));
}

#[test]
fn leftover_is_handed_out_once_in_order() {
    let mut bytes = GET_ROOT.as_bytes().to_vec();
    bytes.extend_from_slice(b"12345");
    let (step, mut reader) = deliver(&bytes, READ_BUF_LEN);
    assert_eq!(kind(&step), "root");
    let mut out = [b'.'; 2];
    assert_eq!(reader.take_leftover(&mut out), 2);
    assert_eq!(&out, b"12");
    let mut out = [b'.'; 10];
    assert_eq!(reader.take_leftover(&mut out), 3);
    assert_eq!(&out, b"345.......");
    assert_eq!(reader.take_leftover(&mut out), 0);
    assert_eq!(reader.cursor(), 0);
}

const PROTOCOLS: &str = "Sec-WebSocket-Protocol: chat, superchat, megachat\r\n";

fn with_field(request: &str, field: &str) -> String {
    let at = request.find("\r\n").unwrap() + 2;
    format!("{}{}{}", &request[..at], field, &request[at..])
}

#[test]
fn long_protocol_list_with_short_items_is_upgraded() {
    let request = with_field(UPGRADE_CHAT, PROTOCOLS);
    let (step, _) = deliver(request.as_bytes(), READ_BUF_LEN);
    match step {
        Ok(Step::Done(Route::Upgrade(context))) => {
            assert_eq!(context.sec_websocket_protocol_list.len(), 3);
            assert_eq!(context.sec_websocket_protocol_list[1].as_str(), "superchat");
        }
        other => panic!("unexpected {}", kind(&other)),
    }
}

#[test]
fn long_protocol_list_keeps_plain_routing() {
    let (step, _) = deliver(with_field(GET_ROOT, PROTOCOLS).as_bytes(), READ_BUF_LEN);
    assert_eq!(kind(&step), "root");
    let (step, _) = deliver(with_field(GET_OTHER, PROTOCOLS).as_bytes(), READ_BUF_LEN);
    assert_eq!(kind(&step), "not_found");
    let (step, _) = deliver(with_field(UPGRADE_OTHER, PROTOCOLS).as_bytes(), READ_BUF_LEN);
    assert_eq!(kind(&step), "not_found");
}

#[test]
fn overlong_protocol_item_is_rejected() {
    let field = format!(
        "Sec-WebSocket-Protocol: chat, {}\r\n",
        "p".repeat(HANDSHAKE_FIELD_MAX + 1)
    );
    let (step, _) = deliver(with_field(UPGRADE_CHAT, &field).as_bytes(), READ_BUF_LEN);
    assert_eq!(kind(&step), "field_too_long");
    let field = format!(
        "Sec-WebSocket-Protocol: chat, {}\r\n",
        "p".repeat(HANDSHAKE_FIELD_MAX)
    );
    let (step, _) = deliver(with_field(UPGRADE_CHAT, &field).as_bytes(), READ_BUF_LEN);
    assert_eq!(kind(&step), "upgrade");
}

#[test]
fn rejected_head_still_leaves_the_bytes_past_it() {
    let request = format!(
        "GET /chat HTTP/1.1\r\nUpgrade: websocket\r\nSec-WebSocket-Key: {}\r\n\r\nxyz",
        "k".repeat(HANDSHAKE_FIELD_MAX + 1)
    );
    let mut reader = HeaderReader::new();
    let step = reader.receive(request.as_bytes());
    assert_eq!(kind(&step), "field_too_long");
    assert_eq!(reader.leftover(), b"xyz");
}

#[test]
fn long_fourth_protocol_item_is_skipped() {
    let field = format!("Sec-WebSocket-Protocol: , , , {}\r\n", "p".repeat(HANDSHAKE_FIELD_MAX + 1));
    let (step, _) = deliver(with_field(UPGRADE_CHAT, &field).as_bytes(), READ_BUF_LEN);
    assert_eq!(kind(&step), "upgrade");
    let (step, _) = deliver(with_field(GET_ROOT, &field).as_bytes(), READ_BUF_LEN);
    assert_eq!(kind(&step), "root");
    let (step, _) = deliver(with_field(UPGRADE_OTHER, &field).as_bytes(), READ_BUF_LEN);
    assert_eq!(kind(&step), "not_found");
}

#[test]
fn protocol_slots_are_shared_between_fields() {
    let long = "p".repeat(HANDSHAKE_FIELD_MAX + 1);
    let fourth = format!(
        "Sec-WebSocket-Protocol: a, b\r\nSec-WebSocket-Protocol: c, {}\r\n",
        long
    );
    let (step, _) = deliver(with_field(UPGRADE_CHAT, &fourth).as_bytes(), READ_BUF_LEN);
    assert_eq!(kind(&step), "upgrade");
    let third = format!(
        "Sec-WebSocket-Protocol: a\r\nSec-WebSocket-Protocol: b, {}\r\n",
        long
    );
    let (step, _) = deliver(with_field(UPGRADE_CHAT, &third).as_bytes(), READ_BUF_LEN);
    assert_eq!(kind(&step), "field_too_long");
}

#[test]
fn handshake_error_before_a_long_key_wins() {
    let mut bytes = b"GET /chat HTTP/1.1\r\nUpgrade: web".to_vec();
    bytes.push(0xff);
    bytes.extend_from_slice(
        format!("\r\nSec-WebSocket-Key: {}\r\n\r\n", "k".repeat(HANDSHAKE_FIELD_MAX + 1)).as_bytes(),
    );
    let mut reader = HeaderReader::new();
    assert_eq!(kind(&reader.receive(&bytes)), "upgrade_rejected");
}

#[test]
fn buffer_is_kept_while_incomplete_or_malformed() {
    let mut reader = HeaderReader::new();
    assert_eq!(kind(&reader.receive(b"GET / HTTP/1.1\r\nBad Header\r\n\r\n")), "malformed");
    assert_eq!(reader.leftover(), b"GET / HTTP/1.1\r\nBad Header\r\n\r\n");
}
