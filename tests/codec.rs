use bytes::BytesMut;
use yaya::simple_http::{DecodeError, Http, Outcome, Request};
use yaya::Payload;

const OK_EMPTY: &[u8] = b"HTTP/1.1 200 OK\r\nContent-Length: 0\r\n\r\n";
const OK_CLOSE: &[u8] = b"HTTP/1.1 200 OK\r\nContent-Length: 0\r\nConnection: close\r\n\r\n";

fn sample_request() -> Request {
    Request {
        method: "POST".to_string(),
        path: "/api/items".to_string(),
        headers: vec![
            ("Host".to_string(), "localhost:3000".to_string()),
            ("Content-Type".to_string(), "application/json".to_string()),
        ],
        body: "{\"a\":1}".to_string(),
    }
}

/// Feeds `chunks` one by one to a buffer, decoding until no frame is left after each.
fn feed(chunks: &[&[u8]]) -> (Vec<Outcome>, BytesMut) {
    let mut codec = Http;
    let mut buf = BytesMut::new();
    let mut outcomes = Vec::new();
    for chunk in chunks {
        buf.extend_from_slice(chunk);
        while let Some(o) = codec.decode(&mut buf).unwrap() {
            outcomes.push(o);
        }
    }
    (outcomes, buf)
}

#[test]
fn encode_writes_the_exact_frame() {
    let mut codec = Http;
    let mut dst = BytesMut::new();
    codec.encode(sample_request(), &mut dst);
    let expected = b"POST /api/items HTTP/1.1\r\nContent-Length: 7\r\nHost: localhost:3000\r\nContent-Type: application/json\r\n\r\n{\"a\":1}";
    assert_eq!(&dst[..], &expected[..]);
}

#[test]
fn encode_appends_behind_existing_bytes() {
    let mut codec = Http;
    let mut dst = BytesMut::from(&b"xy"[..]);
    let req = Request { method: "GET".to_string(), path: "/".to_string(), headers: vec![], body: String::new() };
    codec.encode(req, &mut dst);
    assert_eq!(&dst[..], &b"xyGET / HTTP/1.1\r\nContent-Length: 0\r\n\r\n"[..]);
}

#[test]
fn encode_counts_body_bytes_not_chars() {
    let mut codec = Http;
    let mut dst = BytesMut::new();
    let req = Request { method: "PUT".to_string(), path: "/x".to_string(), headers: vec![], body: "é€".to_string() };
    codec.encode(req, &mut dst);
    let text = String::from_utf8(dst.to_vec()).unwrap();
    assert!(text.starts_with("PUT /x HTTP/1.1\r\nContent-Length: 5\r\n\r\n"));
    assert!(text.ends_with("é€"));
}

#[test]
fn encoded_request_parses_back() {
    let payload = Payload {
        host: "example.com:8080".to_string(),
        path: "/bench".to_string(),
        method: "POST".to_string(),
        body: "{}".to_string(),
    };
    let mut codec = Http;
    let mut dst = BytesMut::new();
    codec.encode(payload.request(), &mut dst);
    let mut slots = [httparse::EMPTY_HEADER; 16];
    let mut parsed = httparse::Request::new(&mut slots);
    let head_len = match parsed.parse(&dst).unwrap() {
        httparse::Status::Complete(n) => n,
        httparse::Status::Partial => panic!("request head incomplete"),
    };
    assert_eq!(parsed.method, Some("POST"));
    assert_eq!(parsed.path, Some("/bench"));
    let host = parsed.headers.iter().find(|h| h.name == "Host").unwrap();
    assert_eq!(host.value, b"example.com:8080");
    let length = parsed.headers.iter().find(|h| h.name == "Content-Length").unwrap();
    assert_eq!(length.value, b"2");
    assert_eq!(&dst[head_len..], b"{}");
}

#[test]
fn payload_request_carries_host_and_content_type() {
    let payload = Payload {
        host: "h:1".to_string(),
        path: "/p".to_string(),
        method: "GET".to_string(),
        body: "b".to_string(),
    };
    let req = payload.request();
    assert_eq!(req.method, "GET");
    assert_eq!(req.path, "/p");
    assert_eq!(req.body, "b");
    assert_eq!(
        req.headers,
        vec![
            ("Host".to_string(), "h:1".to_string()),
            ("Content-Type".to_string(), "application/json".to_string()),
        ]
    );
}

#[test]
fn decode_empty_buffer_awaits() {
    let mut codec = Http;
    let mut buf = BytesMut::new();
    assert_eq!(codec.decode(&mut buf), Ok(None));
    assert_eq!(buf.len(), 0);
}

#[test]
fn decode_one_frame_takes_exactly_its_bytes() {
    let mut codec = Http;
    let mut buf = BytesMut::from(OK_EMPTY);
    assert_eq!(codec.decode(&mut buf), Ok(Some(Outcome::Okay)));
    assert!(buf.is_empty());
}

#[test]
fn decode_connection_close_is_peer_closing() {
    let mut codec = Http;
    let mut buf = BytesMut::from(OK_CLOSE);
    assert_eq!(codec.decode(&mut buf), Ok(Some(Outcome::OkWithPeerClosing)));
    assert!(buf.is_empty());
}

#[test]
fn decode_close_value_is_case_sensitive() {
    let mut codec = Http;
    let mut buf = BytesMut::from(&b"HTTP/1.1 200 OK\r\nConnection: Close\r\n\r\n"[..]);
    assert_eq!(codec.decode(&mut buf), Ok(Some(Outcome::Okay)));
}

#[test]
fn decode_other_status_fails() {
    let mut codec = Http;
    let mut buf = BytesMut::from(&b"HTTP/1.1 404 Not Found\r\nContent-Length: 3\r\n\r\nnopHTTP"[..]);
    assert_eq!(codec.decode(&mut buf), Ok(Some(Outcome::Failed)));
    assert_eq!(&buf[..], b"HTTP");
}

#[test]
fn decode_content_length_any_case() {
    let mut codec = Http;
    let mut buf = BytesMut::from(&b"HTTP/1.1 200 OK\r\ncOnTeNt-LeNgTh: 2\r\n\r\nhi!"[..]);
    assert_eq!(codec.decode(&mut buf), Ok(Some(Outcome::Okay)));
    assert_eq!(&buf[..], b"!");
}

#[test]
fn decode_last_content_length_counts() {
    let mut codec = Http;
    let mut buf = BytesMut::from(&b"HTTP/1.1 200 OK\r\nContent-Length: 9\r\nContent-Length: 1\r\n\r\nab"[..]);
    assert_eq!(codec.decode(&mut buf), Ok(Some(Outcome::Okay)));
    assert_eq!(&buf[..], b"b");
}

#[test]
fn decode_malformed_head_is_an_error() {
    let mut codec = Http;
    let mut buf = BytesMut::from(&b"garbage that is no response\r\n\r\n"[..]);
    assert_eq!(codec.decode(&mut buf), Err(DecodeError::Malformed));
    assert_eq!(buf.len(), 31);
}

#[test]
fn decode_bad_content_length_is_an_error() {
    let mut codec = Http;
    let mut buf = BytesMut::from(&b"HTTP/1.1 200 OK\r\nContent-Length: 1x\r\n\r\n"[..]);
    assert_eq!(codec.decode(&mut buf), Err(DecodeError::InvalidContentLength));
}

#[test]
fn decode_huge_content_length_is_an_error() {
    let mut codec = Http;
    let mut buf = BytesMut::from(&b"HTTP/1.1 200 OK\r\nContent-Length: 99999999999999999999999\r\n\r\n"[..]);
    assert_eq!(codec.decode(&mut buf), Err(DecodeError::InvalidContentLength));
}

#[test]
fn decode_too_many_headers_is_an_error() {
    let mut text = String::from("HTTP/1.1 200 OK\r\n");
    for i in 0..17 {
        text.push_str(&format!("X-H{}: v\r\n", i));
    }
    text.push_str("\r\n");
    let mut codec = Http;
    let mut buf = BytesMut::from(text.as_bytes());
    assert_eq!(codec.decode(&mut buf), Err(DecodeError::Malformed));
}

#[test]
fn decode_sixteen_headers_are_enough() {
    let mut text = String::from("HTTP/1.1 200 OK\r\n");
    for i in 0..16 {
        text.push_str(&format!("X-H{}: v\r\n", i));
    }
    text.push_str("\r\n");
    let mut codec = Http;
    let mut buf = BytesMut::from(text.as_bytes());
    assert_eq!(codec.decode(&mut buf), Ok(Some(Outcome::Okay)));
    assert!(buf.is_empty());
}

#[test]
fn partial_body_is_held_back() {
    let head = b"HTTP/1.1 200 OK\r\nContent-Length: 5\r\n\r\n";
    let mut codec = Http;
    let mut buf = BytesMut::from(&head[..]);
    buf.extend_from_slice(b"abc");
    assert_eq!(codec.decode(&mut buf), Ok(None));
    assert_eq!(buf.len(), head.len() + 3);
    buf.extend_from_slice(b"de");
    assert_eq!(codec.decode(&mut buf), Ok(Some(Outcome::Okay)));
    assert!(buf.is_empty());
    assert_eq!(codec.decode(&mut buf), Ok(None));
}

#[test]
fn partial_head_is_held_back() {
    let mut codec = Http;
    let mut buf = BytesMut::from(&b"HTTP/1.1 200 OK\r\nContent-Len"[..]);
    assert_eq!(codec.decode(&mut buf), Ok(None));
    assert_eq!(buf.len(), 28);
}

#[test]
fn pipelined_frames_decode_in_order() {
    let mut codec = Http;
    let mut buf = BytesMut::from(OK_EMPTY);
    buf.extend_from_slice(OK_CLOSE);
    assert_eq!(codec.decode(&mut buf), Ok(Some(Outcome::Okay)));
    assert_eq!(&buf[..], OK_CLOSE);
    assert_eq!(codec.decode(&mut buf), Ok(Some(Outcome::OkWithPeerClosing)));
    assert!(buf.is_empty());
    assert_eq!(codec.decode(&mut buf), Ok(None));
}

#[test]
fn any_split_gives_one_outcome() {
    let frame: &[u8] = b"HTTP/1.1 200 OK\r\nContent-Length: 4\r\nX-A: b\r\n\r\nbody";
    for a in 0..=frame.len() {
        for b in a..=frame.len() {
            let (outcomes, rest) = feed(&[&frame[..a], &frame[a..b], &frame[b..]]);
            assert_eq!(outcomes, vec![Outcome::Okay], "split at {} and {}", a, b);
            assert!(rest.is_empty());
        }
    }
}

#[test]
fn byte_by_byte_gives_one_outcome() {
    let chunks: Vec<&[u8]> = OK_CLOSE.chunks(1).collect();
    let (outcomes, rest) = feed(&chunks);
    assert_eq!(outcomes, vec![Outcome::OkWithPeerClosing]);
    assert!(rest.is_empty());
}
