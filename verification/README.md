# nget

A resumable HTTP downloader that fetches a file over several connections,
each taking one byte range, and records its progress so that an interrupted
download can be resumed.

- `src/` is the verified library (Verus): configuration, range planning and
  bookkeeping, `Range`/`Content-Length` header values, the start/resume
  decisions, the state-file location and the progress counters, each with
  its contract, and the laws that relate them.
- `app/` is the command line program: argument parsing, HTTP requests,
  file writes, the JSON state file, terminal progress bars and the async
  tasks, all taking their decisions from the library.
- `tests/` runs the library on concrete values.
