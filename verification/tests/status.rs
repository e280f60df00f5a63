use picoserve::status::StatusCode;
use picoserve::time::Duration;

#[test]
fn status_code_classes() {
    assert!(StatusCode::new(101).is_informational());
    assert!(StatusCode::new(200).is_success());
    assert!(StatusCode::new(304).is_redirection());
    assert!(StatusCode::new(404).is_client_error());
    assert!(StatusCode::new(503).is_server_error());
    assert!(!StatusCode::new(600).is_server_error());
    assert!(!StatusCode::new(99).is_informational());
    assert_eq!(StatusCode::new(418).as_u16(), 418);
}

#[test]
fn durations() {
    assert_eq!(Duration::from_secs(3).as_millis(), 3000);
    assert_eq!(Duration::from_millis(2999).as_secs(), 2);
    assert_eq!(Duration::default().as_millis(), 0);
}
