use picoserve::url_encoded::{
    DecodeError, UrlDecodedCharacter, UrlEncodedCharacterDecodeError, UrlEncodedString,
};

#[test]
fn decodes_literal_plus_and_percent() {
    let s = UrlEncodedString::new("a+b%20c%C3%A9");
    assert_eq!(s.try_into_std_string(), Ok("a b cé".to_string()));
}

#[test]
fn reports_bad_percent_encoding() {
    assert_eq!(
        UrlEncodedString::new("%2").try_into_std_string(),
        Err(UrlEncodedCharacterDecodeError::BadlyFormattedPercentEncoding)
    );
    assert_eq!(
        UrlEncodedString::new("%zz").try_into_std_string(),
        Err(UrlEncodedCharacterDecodeError::BadlyFormattedPercentEncoding)
    );
    assert_eq!(
        UrlEncodedString::new("%80").try_into_std_string(),
        Err(UrlEncodedCharacterDecodeError::Utf8Error)
    );
    assert_eq!(
        UrlEncodedString::new("%C3x").try_into_std_string(),
        Err(UrlEncodedCharacterDecodeError::Utf8Error)
    );
}

#[test]
fn decoding_into_a_bounded_buffer() {
    assert_eq!(UrlEncodedString::new("abc").try_into_string(3), Ok("abc".to_string()));
    assert_eq!(UrlEncodedString::new("abcd").try_into_string(3), Err(DecodeError::NoSpace));
    assert_eq!(UrlEncodedString::new("%C3%A9").try_into_string(1), Err(DecodeError::NoSpace));
    assert_eq!(
        UrlEncodedString::new("%G1").try_into_string(8),
        Err(DecodeError::BadUrlEncodedCharacter(
            UrlEncodedCharacterDecodeError::BadlyFormattedPercentEncoding
        ))
    );
}

#[test]
fn decoded_characters_remember_how_they_were_written() {
    let mut chars = UrlEncodedString::new("a%41+").chars();
    assert_eq!(chars.next(), Some(Ok(UrlDecodedCharacter::Literal('a'))));
    assert_eq!(chars.as_str().encoded_text(), "%41+");
    assert_eq!(chars.next(), Some(Ok(UrlDecodedCharacter::Encoded('A'))));
    assert_eq!(chars.next(), Some(Ok(UrlDecodedCharacter::Encoded(' '))));
    assert_eq!(chars.next(), None);
    assert_eq!(UrlDecodedCharacter::Encoded('x').into_char(), 'x');
}

#[test]
fn strip_prefix_matches_slashes_literally() {
    let s = UrlEncodedString::new("/a%62/c");
    let rest = s.strip_prefix("/ab").unwrap();
    assert_eq!(rest.encoded_text(), "/c");
    assert!(UrlEncodedString::new("%2Fab").strip_prefix("/ab").is_none());
    assert!(UrlEncodedString::new("/x").strip_prefix("/ab").is_none());
    assert!(UrlEncodedString::new("").is_empty());
}

#[test]
fn invalid_utf8_sequences_are_refused() {
    let utf8_error = Some(Err(UrlEncodedCharacterDecodeError::Utf8Error));
    assert_eq!(UrlEncodedString::new("%FF").chars().next(), utf8_error);
    assert_eq!(UrlEncodedString::new("%ff").chars().next(), utf8_error);
    assert_eq!(UrlEncodedString::new("%C0%AF").chars().next(), utf8_error);
    assert_eq!(UrlEncodedString::new("%ED%A0%80").chars().next(), utf8_error);
    assert_eq!(UrlEncodedString::new("%F4%90%80%80").chars().next(), utf8_error);
    assert_eq!(UrlEncodedString::new("%F8%80%80%80%80").chars().next(), utf8_error);
    assert_eq!(
        UrlEncodedString::new("%E2%82%AC").chars().next(),
        Some(Ok(UrlDecodedCharacter::Encoded('\u{20AC}')))
    );
    assert_eq!(
        UrlEncodedString::new("%F0%9F%98%80").chars().next(),
        Some(Ok(UrlDecodedCharacter::Encoded('\u{1F600}')))
    );
    assert!(UrlEncodedString::new("/a%FFb").strip_prefix("/a").is_some());
    assert!(UrlEncodedString::new("/%FFb").strip_prefix("/a").is_none());
    assert_eq!(
        UrlEncodedString::new("%FF").try_into_string(16),
        Err(DecodeError::BadUrlEncodedCharacter(UrlEncodedCharacterDecodeError::Utf8Error))
    );
}

#[test]
fn empty_strings_decode_to_nothing() {
    assert!(UrlEncodedString::new("").is_empty());
    assert_eq!(UrlEncodedString::new("").chars().next(), None);
    assert!(!UrlEncodedString::new("%20").is_empty());
}

#[test]
fn error_messages() {
    assert_eq!(
        UrlEncodedCharacterDecodeError::BadlyFormattedPercentEncoding.message(),
        "Percent symbol is not followed by two hex digits"
    );
    assert_eq!(
        UrlEncodedCharacterDecodeError::Utf8Error.message(),
        "Percent-encoded sequence does not decode into UTF-8 byte sequence"
    );
}

#[test]
fn decode_error_messages() {
    assert_eq!(DecodeError::NoSpace.message(), "No space to decode url-encoded string");
    assert_eq!(
        DecodeError::BadUrlEncodedCharacter(UrlEncodedCharacterDecodeError::Utf8Error).message(),
        "Percent-encoded sequence does not decode into UTF-8 byte sequence"
    );
}

#[test]
fn decoded_values_are_handed_to_the_closure() {
    let value = UrlEncodedString::new("a%20b");
    assert_eq!(value.with_decoded("k", |text| text.len()).unwrap(), 3);
    let too_long = UrlEncodedString::new(&"x".repeat(1025));
    let error = too_long.with_decoded("key", |text| text.len()).unwrap_err();
    assert_eq!(error.key, "key");
    assert_eq!(error.error, DecodeError::NoSpace);
    let fits = UrlEncodedString::new(&"x".repeat(1024));
    assert_eq!(fits.with_decoded("key", |text| text.len()).unwrap(), 1024);
}
