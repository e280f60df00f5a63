use picoserve::mem::{BorrowedBuffer, FailedToAppendError};

/// A small deterministic source of test data.
struct TestData {
    state: u64,
}

impl TestData {
    fn new(test_name: &str) -> Self {
        let mut state: u64 = 0xcbf2_9ce4_8422_2325;
        for b in test_name.bytes() {
            state ^= b as u64;
            state = state.wrapping_mul(0x0100_0000_01b3);
        }
        TestData { state: state | 1 }
    }

    fn next_u64(&mut self) -> u64 {
        let mut x = self.state;
        x ^= x >> 12;
        x ^= x << 25;
        x ^= x >> 27;
        self.state = x;
        x.wrapping_mul(0x2545_f491_4f6c_dd1d)
    }

    fn generate_usize(&mut self, low: usize, high_inclusive: usize) -> usize {
        low + (self.next_u64() % ((high_inclusive - low + 1) as u64)) as usize
    }

    fn generate_bool(&mut self) -> bool {
        self.next_u64() & 1 == 1
    }

    fn generate_blob(&mut self, length: usize) -> Vec<u8> {
        (0..length).map(|_| self.next_u64() as u8).collect()
    }

    fn generate_blob_in(&mut self, low: usize, high_inclusive: usize) -> Vec<u8> {
        let length = self.generate_usize(low, high_inclusive);
        self.generate_blob(length)
    }
}

fn run_sync(test_name: &str, test: impl Fn(&mut TestData)) {
    let mut test_data = TestData::new(test_name);
    for _ in 0..100 {
        test(&mut test_data)
    }
}

#[test]
fn zero_length_buffer() {
    run_sync("zero_length_buffer", |test_data| {
        let mut storage: [u8; 0] = [];
        let mut buffer = BorrowedBuffer::new(&mut storage);

        let data = test_data.generate_blob_in(1, 128);

        let FailedToAppendError {
            written_data,
            unwritten_data,
        } = buffer.unfilled().try_append(&data).unwrap_err();

        assert!(written_data.is_empty());
        assert_eq!(unwritten_data, &data[..]);
    });
}

#[test]
fn exact_fit_try_append() {
    run_sync("exact_fit_try_append", |test_data| {
        let mut buffer = test_data.generate_blob_in(1, 128);

        for data_split_point in 0..=buffer.len() {
            let data = test_data.generate_blob(buffer.len());
            let (first_data, second_data) = data.split_at(data_split_point);

            let mut buffer = BorrowedBuffer::new(&mut buffer);

            buffer.unfilled().try_append(first_data).unwrap();
            buffer.unfilled().try_append(second_data).unwrap();

            assert_eq!(buffer.filled(), &data[..]);
        }
    });
}

#[test]
fn one_byte_too_big_try_append() {
    run_sync("one_byte_too_big_try_append", |test_data| {
        let mut buffer = test_data.generate_blob_in(1, 128);

        for data_split_point in 0..=buffer.len() {
            let data = test_data.generate_blob(buffer.len() + 1);
            let (first_data, second_data) = data.split_at(data_split_point);

            let mut buffer = BorrowedBuffer::new(&mut buffer);

            buffer.unfilled().try_append(first_data).unwrap();

            let FailedToAppendError {
                written_data,
                unwritten_data,
            } = buffer.unfilled().try_append(second_data).unwrap_err();

            assert_eq!(written_data, &data[data_split_point..(data.len() - 1)]);
            assert_eq!(unwritten_data, core::slice::from_ref(data.last().unwrap()));
        }
    });
}

#[test]
fn advance() {
    run_sync("advance", |test_data| {
        let mut buffer = test_data.generate_blob_in(1, 128);

        for advance_by in 0..=buffer.len() {
            let mut buffer = BorrowedBuffer::new(&mut buffer);

            buffer.unfilled().advance(advance_by);

            assert_eq!(buffer.filled().len(), advance_by);
        }
    });
}

#[test]
fn advance_max() {
    run_sync("advance_max", |test_data| {
        let mut buffer = test_data.generate_blob_in(1, 128);
        let mut buffer = BorrowedBuffer::new(&mut buffer);

        buffer.unfilled().advance(usize::MAX);

        assert_eq!(buffer.len(), buffer.capacity());
    });
}

#[test]
fn with_unfilled_buf() {
    run_sync("with_unfilled_buf", |test_data| {
        let mut buffer = test_data.generate_blob_in(1, 128);

        for data_split_point in 0..=buffer.len() {
            let data = test_data.generate_blob(buffer.len());
            let (first_data, remaining_data) = data.split_at(data_split_point);
            for data_split_point in 0..=remaining_data.len() {
                let (second_data, third_data) = remaining_data.split_at(data_split_point);

                let mut buffer = BorrowedBuffer::new(&mut buffer);

                buffer.unfilled().try_append(first_data).unwrap();

                buffer.unfilled().with_unfilled_buf(|buffer| {
                    buffer.unfilled().try_append(second_data).unwrap();
                    buffer.unfilled().with_unfilled_buf(|buffer| {
                        buffer.unfilled().try_append(third_data).unwrap();
                    });
                });

                assert_eq!(buffer.filled(), data);
            }
        }
    });
}

#[test]
fn buffer_invariants() {
    run_sync("buffer_invariants", |test_data| {
        let mut buffer = test_data.generate_blob_in(1, 128);
        let mut buffer = BorrowedBuffer::new(&mut buffer);

        let start_position = buffer.unfilled().position();

        assert_eq!(start_position.0, 0);

        for _ in 1..=test_data.generate_usize(1, 100) {
            if test_data.generate_bool() {
                let data = test_data.generate_blob_in(0, 10);
                let _ = buffer.unfilled().try_append(&data);
            } else {
                let n = test_data.generate_usize(0, 10);
                buffer.unfilled().advance(n);
            }

            assert!(buffer.len() <= buffer.capacity());

            let cursor = buffer.unfilled();
            assert_eq!(
                cursor.position().sub(start_position) + cursor.remaining_capacity(),
                buffer.capacity(),
            );
        }
    });
}

#[test]
fn try_append_fills_in_order() {
    let mut storage = [0u8; 5];
    let mut buffer = BorrowedBuffer::new(&mut storage);
    buffer.unfilled().try_append(b"ab").unwrap();
    let error = buffer.unfilled().try_append(b"cdef").unwrap_err();
    assert_eq!(error.written_data, b"cde");
    assert_eq!(error.unwritten_data, b"f");
    assert_eq!(buffer.filled(), b"abcde");
    assert_eq!(buffer.len(), 5);
    assert!(!buffer.is_empty());
}

#[test]
fn advance_is_capped_at_capacity() {
    let mut storage = [0u8; 4];
    let mut buffer = BorrowedBuffer::new(&mut storage);
    assert!(buffer.is_empty());
    buffer.unfilled().advance(3);
    assert_eq!(buffer.len(), 3);
    buffer.unfilled().advance(3);
    assert_eq!(buffer.len(), 4);
    assert_eq!(buffer.unfilled().remaining_capacity(), 0);
}

#[test]
fn unfilled_slice_is_written_in_place() {
    let mut storage = [0u8; 6];
    let mut buffer = BorrowedBuffer::new(&mut storage);
    buffer.unfilled().try_append(b"ab").unwrap();
    {
        let mut cursor = buffer.unfilled();
        let slice = cursor.as_mut_slice();
        assert_eq!(slice.len(), 4);
        slice[0] = b'c';
        slice[1] = b'd';
    }
    buffer.unfilled().advance(2);
    assert_eq!(buffer.filled(), b"abcd");
    buffer.filled_mut()[0] = b'A';
    assert_eq!(buffer.filled(), b"Abcd");
}
