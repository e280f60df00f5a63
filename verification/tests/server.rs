use picoserve::time::Duration;
use picoserve::request::Headers;
use picoserve::server::{
    after_bad_request_response, after_handling, after_wait, bad_request_message, closing_action,
    next_request_count, response_connection, start_read_timeout, Closing, Config, Error,
    HandlingOutcome, KeepAlive, LoopStep, ReadError, ShutdownWait, Timeouts, WaitOutcome,
    WriteOutcome,
};
use picoserve::server::swap_errors;

fn headers(entries: &[(&str, &str)]) -> Headers {
    let mut h = Headers::new();
    for (name, value) in entries {
        h.push(name, value.as_bytes());
    }
    h
}

#[test]
fn only_one_request() {
    let config = Config::const_default();
    let connection = response_connection(&config, "HTTP/1.1", &Headers::new());
    assert_eq!(connection, KeepAlive::Close);
    match after_handling::<(), ()>(0, connection, HandlingOutcome::Sent) {
        LoopStep::Stop(Ok(info)) => {
            assert_eq!(info.handled_requests_count, 1);
            assert!(info.shutdown_reason.is_none());
        }
        _ => panic!("serving should stop after one request"),
    }
}

#[test]
fn keep_alive() {
    let config = Config::const_default().keep_connection_alive();
    let connection = response_connection(&config, "HTTP/1.1", &Headers::new());
    assert_eq!(connection, KeepAlive::KeepAlive);
    assert!(matches!(
        after_handling::<(), ()>(0, connection, HandlingOutcome::Sent),
        LoopStep::Continue
    ));
    assert_eq!(next_request_count(0), 1);
    assert_eq!(next_request_count(u64::MAX), u64::MAX);
}

#[test]
fn keep_alive_follows_the_request() {
    assert_eq!(KeepAlive::from_request("HTTP/1.0", &Headers::new()), KeepAlive::Close);
    assert_eq!(KeepAlive::from_request("HTTP/1.1", &Headers::new()), KeepAlive::KeepAlive);
    assert_eq!(
        KeepAlive::from_request("HTTP/1.0", &headers(&[("Connection", "keep-alive")])),
        KeepAlive::Close
    );
    assert_eq!(
        KeepAlive::from_request("HTTP/1.1", &headers(&[("connection", "Close")])),
        KeepAlive::Close
    );
    assert_eq!(
        KeepAlive::from_request("HTTP/1.1", &headers(&[("Connection", "Keep-Alive, Upgrade")])),
        KeepAlive::Close
    );
    assert_eq!(
        KeepAlive::from_request("HTTP/1.1", &headers(&[("Connection", "keep-alive")])),
        KeepAlive::KeepAlive
    );
    assert_eq!(KeepAlive::Close.header_value(), "close");
    assert_eq!(KeepAlive::KeepAlive.header_value(), "keep-alive");
    assert_eq!(KeepAlive::default_for_http_version("HTTP/1.1"), KeepAlive::KeepAlive);
    assert_eq!(KeepAlive::const_default(), KeepAlive::Close);
}

#[test]
fn timeouts_and_waiting() {
    let config = Config::new(Timeouts::const_default());
    assert_eq!(start_read_timeout(&config, 0).unwrap().as_millis(), 5000);
    assert_eq!(start_read_timeout(&config, 3).unwrap().as_millis(), 1000);
    assert_eq!(config.timeouts.read_request.unwrap().as_secs(), 3);
    let unlimited = Config::new(Timeouts {
        start_read_request: None,
        persistent_start_read_request: None,
        read_request: None,
        write: None,
    });
    assert!(start_read_timeout(&unlimited, 0).is_none());
    assert!(after_wait::<u8, ()>(2, WaitOutcome::RequestPending).is_none());
    match after_wait::<u8, ()>(2, WaitOutcome::Shutdown(7)) {
        Some(Ok(info)) => {
            assert_eq!(info.handled_requests_count, 2);
            assert_eq!(info.shutdown_reason, Some(7));
        }
        _ => panic!("shutdown should end serving"),
    }
    assert!(matches!(
        after_wait::<u8, ()>(2, WaitOutcome::Failed(Error::BadRequest)),
        Some(Err(Error::BadRequest))
    ));
}

#[test]
fn shutdown_while_handling() {
    match after_handling::<u8, ()>(4, KeepAlive::KeepAlive, HandlingOutcome::Shutdown(1, ShutdownWait::Sent)) {
        LoopStep::Stop(Ok(info)) => assert_eq!(info.handled_requests_count, 5),
        _ => panic!("shutdown should stop serving"),
    }
    match after_handling::<u8, ()>(4, KeepAlive::KeepAlive, HandlingOutcome::Shutdown(1, ShutdownWait::TimedOut)) {
        LoopStep::Stop(Ok(info)) => assert_eq!(info.handled_requests_count, 4),
        _ => panic!("shutdown should stop serving"),
    }
}

#[test]
fn bad_requests() {
    assert_eq!(bad_request_message::<()>(ReadError::BadRequestLine), Ok("Bad Request Line"));
    assert_eq!(
        bad_request_message::<()>(ReadError::HeaderDoesNotContainColon),
        Ok("Invalid Header line: No ':' character")
    );
    assert_eq!(
        bad_request_message::<()>(ReadError::UnexpectedEof),
        Ok("Unexpected EOF while reading request")
    );
    assert!(matches!(after_bad_request_response::<()>(WriteOutcome::Sent), Error::BadRequest));
    assert_eq!(closing_action(false, false), Closing::Shutdown);
    assert_eq!(closing_action(true, false), Closing::Abort);
    assert_eq!(closing_action(false, true), Closing::Abort);
}

#[test]
fn swapping_errors() {
    assert_eq!(swap_errors::<u8, &str, i32>(Ok(Ok(1))), Ok(Ok(1)));
    assert_eq!(swap_errors::<u8, &str, i32>(Ok(Err("inner"))), Err("inner"));
    assert_eq!(swap_errors::<u8, &str, i32>(Err(7)), Ok(Err(7)));
}

#[test]
fn defaults_match_the_documented_timeouts() {
    let timeouts = Timeouts::const_default();
    assert_eq!(timeouts.start_read_request, Some(Duration::from_secs(5)));
    assert_eq!(timeouts.persistent_start_read_request, Some(Duration::from_secs(1)));
    assert_eq!(timeouts.read_request, Some(Duration::from_secs(3)));
    assert_eq!(timeouts.write, Some(Duration::from_secs(1)));
    assert_eq!(Timeouts::default(), timeouts);
    let config = Config::default();
    assert_eq!(config, Config::const_default());
    assert_eq!(config.timeouts, timeouts);
    assert_eq!(config.connection, KeepAlive::Close);
    assert_eq!(Duration::from_secs(5), Duration::from_millis(5000));
}
