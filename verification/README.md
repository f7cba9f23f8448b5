# ferriskey_sdk

A verified core for a client of the FerrisKey OpenAPI contract.

- `src/` is the library, written in Verus. Its functions carry
  `requires`/`ensures` contracts and are proved, except a few small trusted
  wrappers (marked `#[verifier::external_body]`) around the outside code they
  call: `serde_json` parsing and writing, `percent_encoding`, and the std
  string conversions (building a `String` from characters,
  `String::from_utf8_lossy`, `Debug` quoting). Their contracts are stated in their doc comments.
  - `document`, `json`, `contract`: a JSON document model read from and
    written to JSON text; the registry of operations, tags and schemas built
    from an OpenAPI document; the normalization of that document (servers,
    root tags, bearer security scheme), with proofs that normalization is
    idempotent, keeps the registry, and changes nothing else; the artifacts
    generated from a contract text.
  - `encoding`, `client`, `config`, `transport`: turning an operation input
    into an HTTP request (path substitution, percent-encoding, one query pair
    per value, header rules), decoding responses by documented status into
    the document model, URL resolution and bearer authentication.
  - `cli`: the command tree built from the registry (with the `login`
    subcommand), the normalization of parsed arguments into an invocation —
    the base URL and bearer token may come from saved credentials — and the
    structured JSON output of a response.
  - `login`: the token request a login sends, the token read from the
    answer, and the text of the credentials file `~/.ferriskey-cli/config.toml`.
  - `render`: the Rust metadata module generated from a registry, and the
    identifier rules it uses.
  - `cart`: line items, carts, orders and checkout.
- `app/` is the binary around the library: clap argument parsing, files
  (the contract document, request bodies, the credentials file), the `hpx`
  HTTP transport and asynchronous execution.
- `tests/` exercises the library on concrete values.
