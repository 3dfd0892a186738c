use video_scheduler::stream::{ChunkStream, StreamAction};

#[test]
fn new_stream_is_empty() {
    let s = ChunkStream::new(500);
    assert_eq!(s.quantum_ms, 500);
    assert_eq!(s.bytes_read, 0);
    assert_eq!(s.chunks_sent, 0);
    assert!(!s.finished);
}

#[test]
fn read_then_write_then_read() {
    let mut s = ChunkStream::new(500);
    assert_eq!(s.on_read(1024), StreamAction::Write(1024));
    assert_eq!(s.on_write(true, 10), StreamAction::Read);
    assert_eq!(s.on_read(10), StreamAction::Write(10));
    assert_eq!(s.on_write(true, 500), StreamAction::Read);
    assert_eq!(s.bytes_read, 1034);
    assert_eq!(s.chunks_sent, 2);
}

#[test]
fn quantum_exceeded_yields() {
    let mut s = ChunkStream::new(4);
    assert_eq!(s.on_read(1), StreamAction::Write(1));
    assert_eq!(s.on_write(true, 5), StreamAction::Yield);
    assert!(!s.finished);
}

#[test]
fn end_of_file_finishes() {
    let mut s = ChunkStream::new(4);
    assert_eq!(s.on_read(0), StreamAction::Finish);
    assert!(s.finished);
    assert_eq!(s.chunks_sent, 0);
}

#[test]
fn failed_write_finishes_without_counting() {
    let mut s = ChunkStream::new(4);
    s.on_read(8);
    assert_eq!(s.on_write(false, 0), StreamAction::Finish);
    assert!(s.finished);
    assert_eq!(s.chunks_sent, 0);
    assert_eq!(s.bytes_read, 8);
}
