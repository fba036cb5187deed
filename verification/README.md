# moonbeam

The request and response core of a single-threaded-first HTTP/1.1 server, with its
behaviour stated in contracts and proved with Verus.

- `src/` is the verified library: request heads (finding, parsing, the headers the
  server reads), query parameters, cookies, paths, percent decoding, forms (URL-encoded
  and multipart), responses and their heads, server-sent events, MIME types, the
  decisions a connection makes (body reading, buffer compaction, response layout),
  compression decisions, chunk framing and the streamed-body writer, and the buffer pool.
- `app/` is the server around it: sockets, executors, signals, TLS, compression streams,
  static files, async stream bodies and serde glue.
- `tests/` runs the library on concrete values.
