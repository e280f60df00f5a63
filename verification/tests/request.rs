use picoserve::request::{bytes_eq_ignore_ascii_case, HeaderValue, Headers, Path};
use picoserve::url_encoded::UrlEncodedString;

#[test]
fn header_lookup_ignores_case_and_takes_first() {
    let mut headers = Headers::new();
    headers.push("Content-Type", b"text/plain");
    headers.push("content-type", b"text/html");
    let value = headers.get("CONTENT-TYPE").unwrap();
    assert_eq!(value.as_raw(), b"text/plain");
    assert!(headers.get("Accept").is_none());
}

#[test]
fn header_values_compare_ignoring_case() {
    let value = HeaderValue::new(b"WebSocket");
    assert!(value.eq_str("websocket"));
    assert!(!value.eq_str("websockets"));
    assert!(bytes_eq_ignore_ascii_case(b"Keep-Alive", b"keep-alive"));
}

#[test]
fn header_values_split_on_commas() {
    let value = HeaderValue::new(b" a ,b,, c ");
    let parts: Vec<Vec<u8>> = value.split_commas().iter().map(|p| p.as_raw().to_vec()).collect();
    assert_eq!(parts, vec![b"a".to_vec(), b"b".to_vec(), b"".to_vec(), b"c".to_vec()]);
    assert_eq!(HeaderValue::new(b"\t x \r\n").trim().as_raw(), b"x");
}

#[test]
fn path_segments() {
    let path = Path(UrlEncodedString::new("/user/42/name"));
    let (segment, rest) = path.split_first_segment().unwrap();
    assert_eq!(segment.encoded_text(), "user");
    assert_eq!(rest.0.encoded_text(), "/42/name");
    assert!(Path(UrlEncodedString::new("user")).split_first_segment().is_none());
    let stripped = Path(UrlEncodedString::new("/static/a.css"))
        .strip_slash_and_prefix("static")
        .unwrap();
    assert_eq!(stripped.0.encoded_text(), "/a.css");
    assert!(Path(UrlEncodedString::new("")).is_empty());
}
