# mcp_cli

The verified core of a command-line client for Model Context Protocol servers,
written in Verus, with the process around it in ordinary Rust.

## Layout

- `src/` holds the logic, every item of it verified.
  - `text`, `bytes`, `order`, `assoc`, `time`, `unix_path`: shared vocabulary.
  - `json`, `domain`, `config`, `connection`: the values that commands work on.
  - `error`, `output`, `boundary`: error kinds, rendering, and exit codes.
  - `policy`: redaction, retries, name globs, and tool filters.
  - `runtime`: deadlines, cancellation, and the runtime policy.
  - `daemon`: the wire protocol, its framing, the runtime directory and its
    artifacts, PID metadata with its JSON form and what publications of it leave
    on a disk, process identity, the client, and the worker.
- `app/` holds the process: argument handling, files, sockets, signals, and
  child processes.
- `tests/` exercises the library on concrete values.

## How the library meets the outside

A check that needs the file system, a process, or a socket is a function of the
answers so far. It asks its next question, gives its result, or fails. The
caller performs what is asked, appends the answer, and asks again. What such a
check decides is therefore proved for every answer that the system may give.

Calls that only compute (JSON, URLs, Unicode case, lossy decoding) and the two
system values that the daemon compares with (the user and the clock tick rate)
stand in `src/` behind small wrappers whose contracts say what is relied on.
