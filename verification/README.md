# rmcp_proxy

A proxy between MCP (Model Context Protocol) servers that speak over stdio and clients that speak
over HTTP and server-sent events, written in Rust and verified with Verus.

- `src/` is the library: every decision of the proxy, with its contract and the laws that follow.
  - `text`, `string_map`, `json`, `status`, `clock`: texts, maps, JSON objects, status codes, time.
  - `logging`: what is logged on the console and what is posted to a remote service.
  - `process`, `child`: the child process that runs the stdio server, its output, input and end.
  - `notifications`, `capture`, `events`: which messages are notifications, how they are picked from
    the reads, and the stream that listeners get.
  - `headers`: the headers that requests and responses are completed with.
  - `sse_client`, `sse_server`, `cli`: connecting to a remote server, running a local one, and
    what a command line asks for.
- `app/` is the program around it: arguments, sockets, the child process, the HTTP server. Without
  `--pass-environment` the child gets the variables of the command line alone, so that `PATH` has
  to be among them where the program is found by it.
- `tests/` runs the library.

Contracts that are believed rather than proved are the `external_body` functions and the
`assume_specification` items; each names the function of the outside crate or of the standard
library that it speaks of.
