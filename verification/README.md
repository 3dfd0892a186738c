# video_scheduler

The logic of a 360° video server with a user-space task scheduler, verified with Verus.

- `src/` — the verified library: error type, connection counter, decimal writing,
  byte-range parsing (`Range: bytes=a-b`), request classification on top of httparse,
  the response header, and the state machine of the per-client streaming loop.
- `app/` — the server program: sockets, files, the thread-local counter, the
  cooperative executor over `futures`, and the streaming loop that follows the
  library's decisions.
- `tests/` — tests of the library on concrete inputs.
