# ser2mcp

UART serial ports as tools for AI clients, over the Model Context Protocol.

A reader for each open port moves received bytes into a bounded ring buffer. The tools take them
from there: they read until a response seems complete, exchange a command for its answer, wait for
a pattern, or send a file chunk by chunk. When a buffer is full the oldest bytes make room for new
ones, and every lost byte is counted and reported.

## Layout

- `src/` is the library, verified with Verus. It holds everything that decides or computes, and
  performs no input or output.
  - `hex`, `b64`, `text`: bytes as text.
  - `search`, `ansi`, `ring`: the ring buffer and the search for patterns in it.
  - `io`, `read`, `expect`, `send`: operations on a port, as step functions. A step says what the
    caller is to do next, and takes what came of it.
  - `manager`: the open ports. `reader`: what the reader of a port does.
  - `sendfile`: cutting a file into chunks, and the estimate.
  - `server`, `cli`: the arguments and answers of the tools, and the command line.
- `app/` is the program around it: devices, threads, files, the protocol.
- `tests/` holds the tests of the library.

Proof functions named `law_...` state what holds of several functions together.

Trusted are, besides Verus and its library: what the items at the head of `src/text.rs` say of
strings of the standard library, and the base64 encoder in `src/b64.rs`. Each says what it claims.
