use picoserve::io::{write_fmt_step, FormatBuffer, FormatBufferWriteError, WriteFmtStep};

#[test]
fn format_buffer_writes_whole_text_when_it_fits() {
    let mut storage = [0u8; 16];
    let buffer = FormatBuffer::new(&mut storage, 0);
    let written = buffer.write_fmt(&["Hello", ", ", "World"]).unwrap();
    assert_eq!(written, 12);
    assert_eq!(&storage[..written], b"Hello, World");
}

#[test]
fn format_buffer_skips_and_stops_when_full() {
    let mut storage = [0u8; 4];
    let buffer = FormatBuffer::new(&mut storage, 3);
    let result = buffer.write_fmt(&["ab", "cdef", "gh"]);
    assert_eq!(result, Err(FormatBufferWriteError::OutOfSpace));
    assert_eq!(&storage, b"defg");
}

#[test]
fn format_buffer_retries_cover_the_text() {
    let pieces = ["The quick ", "brown fox ", "jumps"];
    let mut sent = Vec::new();
    let mut skip_count = 0;
    loop {
        let mut storage = [0u8; 7];
        let buffer = FormatBuffer::new(&mut storage, skip_count);
        let outcome = buffer.write_fmt(&pieces);
        match write_fmt_step(skip_count, storage.len(), outcome) {
            WriteFmtStep::Finished { write_size } => {
                sent.extend_from_slice(&storage[..write_size]);
                break;
            }
            WriteFmtStep::Retry { write_size, skip_count: next } => {
                sent.extend_from_slice(&storage[..write_size]);
                skip_count = next;
            }
        }
    }
    assert_eq!(sent, b"The quick brown fox jumps");
}

#[test]
fn format_buffer_write_str_counts_down_skip() {
    let mut storage = [0u8; 8];
    let mut buffer = FormatBuffer::new(&mut storage, 5);
    assert_eq!(buffer.write_str("abc"), Ok(()));
    assert_eq!(buffer.skip_count, 2);
    assert_eq!(buffer.write_position, 0);
    assert_eq!(buffer.write_str("defg"), Ok(()));
    assert_eq!(buffer.skip_count, 0);
    assert_eq!(buffer.write_position, 2);
    assert_eq!(&buffer.buffer[..2], b"fg");
}

#[test]
fn write_fmt_step_outcomes() {
    assert_eq!(write_fmt_step(0, 10, Ok(3)), WriteFmtStep::Finished { write_size: 3 });
    assert_eq!(
        write_fmt_step(4, 10, Err(FormatBufferWriteError::FormatError)),
        WriteFmtStep::Finished { write_size: 0 }
    );
    assert_eq!(
        write_fmt_step(4, 10, Err(FormatBufferWriteError::OutOfSpace)),
        WriteFmtStep::Retry { write_size: 10, skip_count: 14 }
    );
}
