use gx::framing::{frame_message, next_frame};

fn message(method: &str, id: Option<i64>) -> serde_json::Value {
    let mut m = serde_json::Map::new();
    m.insert("jsonrpc".to_string(), serde_json::Value::String("2.0".to_string()));
    m.insert("method".to_string(), serde_json::Value::String(method.to_string()));
    if let Some(i) = id {
        m.insert("id".to_string(), serde_json::Value::from(i));
    }
    serde_json::Value::Object(m)
}

fn frame(value: &serde_json::Value) -> Vec<u8> {
    frame_message(&serde_json::to_vec(value).unwrap())
}

/// Reads the frame at `pos`: its value and where the next frame starts.
fn read_at(bytes: &[u8], pos: usize) -> Option<(serde_json::Value, usize)> {
    let (a, b) = next_frame(bytes, pos)?;
    let v = serde_json::from_slice(&bytes[a..b]).ok()?;
    Some((v, b))
}

#[test]
fn read_message_round_trips_a_written_message() {
    let value = message("initialize", Some(1));
    let bytes = frame(&value);
    let (read, end) = read_at(&bytes, 0).unwrap();
    assert_eq!(read, value);
    assert_eq!(end, bytes.len());
}

#[test]
fn read_message_returns_none_on_eof() {
    assert!(next_frame(&[], 0).is_none());
}

#[test]
fn read_message_returns_none_on_a_missing_content_length_header() {
    assert!(next_frame(b"\r\n{}", 0).is_none());
}

#[test]
fn read_message_rejects_an_absurdly_large_content_length() {
    assert!(next_frame(b"Content-Length: 999999999999\r\n\r\n", 0).is_none());
}

#[test]
fn read_message_handles_two_consecutive_frames() {
    let a = message("a", None);
    let b = message("b", None);
    let mut bytes = frame(&a);
    bytes.extend(frame(&b));
    let (first, p) = read_at(&bytes, 0).unwrap();
    assert_eq!(first, a);
    let (second, q) = read_at(&bytes, p).unwrap();
    assert_eq!(second, b);
    assert!(read_at(&bytes, q).is_none());
}

#[test]
fn a_frame_is_its_header_then_its_body() {
    assert_eq!(frame_message(b"{}"), b"Content-Length: 2\r\n\r\n{}".to_vec());
    assert_eq!(frame_message(b""), b"Content-Length: 0\r\n\r\n".to_vec());
}

#[test]
fn other_headers_are_skipped_and_the_last_length_counts() {
    let bytes = b"Content-Type: application/json\r\nContent-Length: 9\r\nContent-Length: 2\r\n\r\n{}rest";
    assert_eq!(next_frame(bytes, 0), Some((72, 74)));
    let bare = b"Content-Length: 2\n\n{}";
    assert_eq!(next_frame(bare, 0), Some((19, 21)));
}

#[test]
fn a_cut_short_body_or_a_bad_length_is_no_frame() {
    assert!(next_frame(b"Content-Length: 5\r\n\r\n{}", 0).is_none());
    assert!(next_frame(b"Content-Length: two\r\n\r\n{}", 0).is_none());
    assert!(next_frame(b"Content-Length: 2\r\n", 0).is_none());
    assert!(next_frame(b"X: \xff\xfe\r\nContent-Length: 2\r\n\r\n{}", 0).is_none());
}
