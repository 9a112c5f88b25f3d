# tofino

The fingerpaint version of a web browser: `tofino URL` fetches a page over
HTTP/1.0 (plain or TLS) and prints its body with the markup removed.

- `src/` is the verified library: URL parsing (`url`), request text and
  response parsing (`schemes`), response headers (`headers`), resources
  (`resources`), console rendering (`html`), the command-line steps (`cli`)
  and the character-level helpers they share (`text`).
- `app/main.rs` is the program: it reads the arguments, opens the TCP or TLS
  connection, and prints what the library renders.
