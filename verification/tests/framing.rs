use mini_executor::framing::{after_read, ReadStep};

#[test]
fn bytes_that_arrive_are_parsed() {
    assert_eq!(after_read(1, 1), ReadStep::Parse);
    assert_eq!(after_read(4096, 5000), ReadStep::Parse);
}

#[test]
fn end_of_stream_with_an_empty_buffer_is_clean() {
    assert_eq!(after_read(0, 0), ReadStep::Closed);
}

#[test]
fn end_of_stream_inside_a_frame_is_a_reset() {
    assert_eq!(after_read(0, 1), ReadStep::Reset);
    assert_eq!(after_read(0, usize::MAX), ReadStep::Reset);
}
