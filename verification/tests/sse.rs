use picoserve::sse::{write_event, write_keepalive, EventDataWriter, EventStream};
use picoserve::sse::{event_result_is_returned, write_events_poll, EventWriterState, WriteEventsPoll};

#[test]
fn event_data_lines_start_with_data() {
    let mut writer = EventDataWriter::new();
    let mut out = b"data:".to_vec();
    out.extend(writer.write(b"first\nsec"));
    out.extend(writer.write(b"ond\n"));
    out.extend(writer.write(b"third"));
    out.extend(writer.finalize());
    assert_eq!(out, b"data:first\ndata:second\ndata:third\n\n");
}

#[test]
fn event_data_ending_in_newline_is_closed_once() {
    let mut writer = EventDataWriter::new();
    let mut out = b"data:".to_vec();
    out.extend(writer.write(b"line\n"));
    out.extend(writer.finalize());
    assert_eq!(out, b"data:line\n\n");
}

#[test]
fn whole_events() {
    assert_eq!(write_event("tick", "1\n2"), b"event:tick\ndata:1\ndata:2\n\n");
    assert_eq!(write_keepalive(), b":\n\n");
}

#[test]
fn event_stream_response() {
    let stream = EventStream;
    assert_eq!(stream.status_code().0, 200);
    assert_eq!(
        stream.headers(),
        [("Cache-Control", "no-cache"), ("Content-Type", "text/event-stream")]
    );
}

#[test]
fn shutting_down_lets_the_current_event_finish() {
    let mut state = EventWriterState::new();
    assert_eq!(write_events_poll(&state), WriteEventsPoll::PollEvents);
    assert!(event_result_is_returned(&state));
    state.is_running = false;
    assert_eq!(write_events_poll(&state), WriteEventsPoll::Finish);
    state.is_currently_writing_event = true;
    assert_eq!(write_events_poll(&state), WriteEventsPoll::PollEventsUntilEventWritten);
    assert!(!event_result_is_returned(&state));
}
