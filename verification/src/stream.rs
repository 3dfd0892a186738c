use vstd::prelude::*;

verus! {

/// What the loop that streams the video to one client does next.
#[derive(Clone, Copy, Debug, PartialEq, Eq, Structural)]
pub enum StreamAction {
    /// Send the first `n` bytes of the chunk just read, then report with `on_write`.
    Write(usize),
    /// Give the scheduler a turn, start a new quantum, then read the next chunk.
    Yield,
    /// Read the next chunk, then report with `on_read`.
    Read,
    /// Stop: the file has ended or the client can no longer be written to.
    Finish,
}

/// The decisions of the loop that streams the video to one client: it reads the file
/// chunk by chunk, sends each chunk, and yields to the other clients once its quantum
/// of milliseconds has run out.
pub struct ChunkStream {
    /// The time quantum of this client, in milliseconds.
    pub quantum_ms: u128,
    /// The bytes read from the file so far.
    pub bytes_read: usize,
    /// The chunks sent so far.
    pub chunks_sent: u128,
    /// The loop has stopped.
    pub finished: bool,
}

impl ChunkStream {
    /// A stream that has read and sent nothing, with a quantum of `quantum_ms` milliseconds.
    pub fn new(quantum_ms: u128) -> (s: ChunkStream)
        ensures
            s == (ChunkStream { quantum_ms, bytes_read: 0, chunks_sent: 0, finished: false }),
    {
        ChunkStream { quantum_ms, bytes_read: 0, chunks_sent: 0, finished: false }
    }

    /// A read of the file returned `bytes_read` bytes: none means the file has ended.
    pub fn on_read(&mut self, bytes_read: usize) -> (action: StreamAction)
        requires
            !old(self).finished,
            old(self).bytes_read + bytes_read <= usize::MAX,
        ensures
            final(self).bytes_read == old(self).bytes_read + bytes_read,
            final(self).quantum_ms == old(self).quantum_ms,
            final(self).chunks_sent == old(self).chunks_sent,
            bytes_read == 0 ==> action == StreamAction::Finish && final(self).finished,
            bytes_read > 0 ==> action == StreamAction::Write(bytes_read) && !final(self).finished,
    {
        self.bytes_read = self.bytes_read + bytes_read;
        if bytes_read == 0 {
            self.finished = true;
            StreamAction::Finish
        } else {
            StreamAction::Write(bytes_read)
        }
    }

    /// A chunk was sent (`sent`) or could not be; `elapsed_ms` milliseconds have passed
    /// since the quantum began.
    pub fn on_write(&mut self, sent: bool, elapsed_ms: u128) -> (action: StreamAction)
        requires
            !old(self).finished,
            old(self).chunks_sent < u128::MAX,
        ensures
            final(self).bytes_read == old(self).bytes_read,
            final(self).quantum_ms == old(self).quantum_ms,
            !sent ==> action == StreamAction::Finish && final(self).finished
                && final(self).chunks_sent == old(self).chunks_sent,
            sent ==> !final(self).finished && final(self).chunks_sent == old(self).chunks_sent + 1
                && action == (if elapsed_ms > old(self).quantum_ms {
                StreamAction::Yield
            } else {
                StreamAction::Read
            }),
    {
        if !sent {
            self.finished = true;
            return StreamAction::Finish;
        }
        self.chunks_sent = self.chunks_sent + 1;
        if elapsed_ms > self.quantum_ms {
            StreamAction::Yield
        } else {
            StreamAction::Read
        }
    }
}

} // verus!
