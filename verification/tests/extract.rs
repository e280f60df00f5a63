use picoserve::extract::{form_pairs, FormRejection, NoUpgradeHeaderError, QueryRejection, UpgradeToken};
use picoserve::request::{Headers, RequestParts};
use picoserve::url_encoded::UrlEncodedString;
use picoserve::extract::{body_as_string, form_pairs_from_body, FailedToExtractEntireBodyAsStringError};
use picoserve::request::{check_body_fits, ReadAllBodyError};

fn decoded_pairs(form: &str) -> Vec<(String, String)> {
    form_pairs(&UrlEncodedString::new(form))
        .unwrap()
        .into_iter()
        .map(|(k, v)| (k.encoded_text(), v.encoded_text()))
        .collect()
}

#[test]
fn forms_split_into_pairs() {
    assert_eq!(
        decoded_pairs("a=1&b=x%20y&&c="),
        vec![
            ("a".to_string(), "1".to_string()),
            ("b".to_string(), "x%20y".to_string()),
            ("c".to_string(), "".to_string()),
        ]
    );
    assert!(decoded_pairs("").is_empty());
    assert!(form_pairs(&UrlEncodedString::new("novalue")).is_err());
}

#[test]
fn rejections_answer_bad_request() {
    assert_eq!(QueryRejection.status_code().0, 400);
    assert_eq!(FormRejection::BadForm.status_code().0, 400);
    assert_eq!(NoUpgradeHeaderError.status_code().0, 400);
}

#[test]
fn upgrade_token_needs_upgrade_header() {
    let mut headers = Headers::new();
    let parts = |headers: Headers| RequestParts {
        method: "GET".to_string(),
        path: UrlEncodedString::new("/"),
        query: None,
        http_version: "HTTP/1.1".to_string(),
        headers,
    };
    assert!(UpgradeToken::from_request_parts(&parts(Headers::new())).is_err());
    headers.push("Upgrade", b"test");
    assert!(UpgradeToken::from_request_parts(&parts(headers)).is_ok());
}

#[test]
fn bodies_as_text_and_forms() {

    assert_eq!(body_as_string(Ok("héllo".as_bytes())).unwrap(), "héllo");
    let not_utf8 = body_as_string(Ok(&[0xFF, 0xFE])).unwrap_err();
    assert!(matches!(not_utf8, FailedToExtractEntireBodyAsStringError::StringIsNotUtf8(_)));
    assert_eq!(not_utf8.status_code().map(|s| s.0), Some(400));
    assert!(matches!(
        body_as_string(Err(ReadAllBodyError::UnexpectedEof)),
        Err(FailedToExtractEntireBodyAsStringError::FailedToExtractEntireBody(ReadAllBodyError::UnexpectedEof))
    ));

    assert_eq!(check_body_fits(4, 4), Ok(()));
    assert_eq!(
        check_body_fits(5, 4),
        Err(ReadAllBodyError::BufferIsTooSmall { content_length: 5, buffer_length: 4 })
    );

    let pairs = form_pairs_from_body(b"x=1&y=2").unwrap();
    assert_eq!(pairs.len(), 2);
    assert_eq!(pairs[1].0.encoded_text(), "y");
    assert_eq!(form_pairs_from_body(&[0xC3]).unwrap_err(), FormRejection::BodyIsNotUtf8);
    assert_eq!(form_pairs_from_body(b"x").unwrap_err(), FormRejection::BadForm);
    assert_eq!(FormRejection::BadForm.message(), "Bad Form");
    assert_eq!(QueryRejection.message(), "Bad Query");
}
