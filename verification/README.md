# picoserve

The logic of a small `no_std` HTTP server toolkit, with its behaviour stated in contracts and
proved by Verus.

## Layout

- `src/` — the verified library:
  - `url_encoded` — percent-decoding, prefix stripping, bounded decoding;
  - `request` — header lookup, header values, request paths;
  - `routing` — path descriptions, method routing, nested routers, and the laws of routing;
  - `response` — response heads, the `connection` header, custom responses;
  - `io` — formatting into borrowed transmit buffers, and the window law of retried writes;
  - `mem` — incrementally filled borrowed buffers;
  - `json` — escaped strings and the punctuation of arrays, objects and maps;
  - `ws` — web socket frames and messages, upgrade checks, and round-trip laws;
  - `sse` — server-sent event framing;
  - `fs` — static files, entity tags, directories;
  - `server` — the decisions of the connection loop;
  - `extract`, `futures`, `status`, `time`, `text` — smaller pieces.
- `tests/` — tests of the library on concrete values.
- `app/` — the asynchronous and trait-driven glue: futures, signals, buffered formatted
  writes, a `serde` serializer which writes JSON through the verified functions, and a `serde`
  deserializer of url-encoded forms over the pairs that the library splits.

Handlers and services are named by numbers in the router; the application maps them to code.
