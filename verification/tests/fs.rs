use picoserve::fs::{Directory, File};
use picoserve::request::Headers;
use picoserve::url_encoded::UrlEncodedString;

const HTML: &str = "<h1>Hello World</h1>";
const CSS: &str = "h1 { font-weight: bold; }";

fn files() -> Directory {
    let mut styles = Directory::new();
    styles.files.push(("index.css", File::css(CSS)));
    let mut root = Directory::new();
    root.files.push(("index.html", File::html(HTML)));
    root.sub_directories.push(("styles", styles));
    root
}

#[test]
fn file_routing() {
    let dir = files();
    let html = dir.matching_file(&UrlEncodedString::new("/index.html")).unwrap();
    assert_eq!(html.body, HTML.as_bytes());
    assert_eq!(html.content_type, "text/html; charset=utf-8");
    let css = dir.matching_file(&UrlEncodedString::new("/styles/index.css")).unwrap();
    assert_eq!(css.body, CSS.as_bytes());
    assert_eq!(css.content_type, "text/css");
    for path in ["/index.css", "/styles/index.html", "/styles", "index.html"] {
        assert!(dir.matching_file(&UrlEncodedString::new(path)).is_none(), "{path}");
    }
}

#[test]
fn file_etag_based_cache() {
    let file = File::html(HTML);
    let etag = String::from_utf8(file.etag.text()).unwrap();
    assert!(etag.starts_with('"'));
    assert!(etag.ends_with('"'));
    assert_eq!(etag.len(), 42);

    assert_eq!(file.response_status(&Headers::new()).0, 200);

    let mut headers = Headers::new();
    headers.push("If-None-Match", etag.as_bytes());
    assert_eq!(file.response_status(&headers).0, 304);

    let mut listed = Headers::new();
    listed.push("if-none-match", format!("\"00\", {etag}").as_bytes());
    assert_eq!(file.response_status(&listed).0, 304);

    let mut other = Headers::new();
    other.push("If-None-Match", b"\"0000000000000000000000000000000000000000\"");
    assert_eq!(file.response_status(&other).0, 200);
}

#[test]
fn etag_is_sha1_in_hex() {
    let file = File::with_content_type("text/plain", b"abc");
    assert_eq!(
        String::from_utf8(file.etag.text()).unwrap(),
        "\"a9993e364706816aba3e25717850c26c9cd0d89d\""
    );
    assert!(file.etag.matches(b"\"A9993E364706816ABA3E25717850C26C9CD0D89D\""));
    assert!(!file.etag.matches(b"a9993e364706816aba3e25717850c26c9cd0d89d"));
    assert_eq!(File::javascript("x").content_type, "application/javascript; charset=utf-8");
}

#[test]
fn file_responses_carry_content_headers_and_etag() {
    let file = File::with_content_type_and_headers("text/plain", b"abc", &[("X-A", "1")]);
    let etag = "\"a9993e364706816aba3e25717850c26c9cd0d89d\"".to_string();
    assert_eq!(file.etag.header_value(), etag);
    let response = file.response(&Headers::new());
    assert_eq!(response.status_code.0, 200);
    assert_eq!(
        response.headers,
        vec![
            ("Content-Type".to_string(), "text/plain".to_string()),
            ("Content-Length".to_string(), "3".to_string()),
            ("X-A".to_string(), "1".to_string()),
            ("ETag".to_string(), etag.clone()),
        ]
    );
    assert_eq!(response.body, b"abc");

    let mut headers = Headers::new();
    headers.push("If-None-Match", etag.as_bytes());
    let cached = file.response(&headers);
    assert_eq!(cached.status_code.0, 304);
    assert_eq!(cached.headers, vec![("ETag".to_string(), etag)]);
    assert!(cached.body.is_empty());
}

#[test]
fn directories_answer_get_only() {
    let dir = files();
    let found = dir
        .respond("get", "/static/index.html", &UrlEncodedString::new("/index.html"), &Headers::new())
        .unwrap();
    assert_eq!(found.body, HTML.as_bytes());
    let missing = dir
        .respond("GET", "/static/none", &UrlEncodedString::new("/none"), &Headers::new())
        .unwrap_err();
    assert_eq!(missing, (picoserve::status::StatusCode(404), "/static/none not found\r\n".to_string()));
    let post = dir
        .respond("POST", "/static/index.html", &UrlEncodedString::new("/index.html"), &Headers::new())
        .unwrap_err();
    assert_eq!(
        post,
        (
            picoserve::status::StatusCode(405),
            "Method POST not allowed for /static/index.html\r\n".to_string()
        )
    );
}
