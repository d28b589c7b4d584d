# webaves

Building blocks of web archive software, verified with Verus: HTTP start
lines, headers and messages (parsing, formatting, chunked transfer coding,
body framing and content decoding), compression and decompression with
the DEFLATE, Gzip, Brotli and Zstandard codecs, a lossless byte-to-text
escaping scheme, byte readers with peeking and counting, safe file names for
URLs, and small naming helpers.

Layout:

- `src/` — the library. Each public function carries a contract over
  mathematical models (`Seq`, `Map`-like views, spec functions); the laws that
  relate several functions are public proof functions named `law_*`.
- `tests/` — tests run against the compiled library.
- `app/` — a command-line tool around the library: file I/O, hashing with
  the digest crates, and path conflict handling on disk.
