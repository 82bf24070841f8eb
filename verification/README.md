# frama_c_mcp

The decisions of an MCP server for Frama-C, written in Rust and proved with
Verus.

- `src/frama_c/`: the protocol of the Frama-C server. Messages and frames
  (`codec`), and the client's decisions (`client`): how requests are named,
  which response settles one, when to poll, when to cancel, how a handshake
  ends, how a list is fetched page by page, and what is traced.
- `src/mcp/propose.rs`: which annotations the AST determines, and which of them
  a dry run lets through.
- `src/mcp/receipt.rs`: proof receipts, by which two runs are compared.
- `src/mcp/proc.rs`: what is decided about the Frama-C processes.
- `src/mcp/status.rs`: what a goal says of its own proof.
- `src/json.rs`, `src/text.rs`, `src/digits.rs`, `src/digest.rs`,
  `src/order.rs`, `src/lists.rs`, `src/span.rs`, `src/unambiguous.rs`: the
  values that all of this is about.
- `app/`: sockets, processes and files around the library.
- `tests/`: the library on concrete values.

Functions named `law_...` state what holds of the library as a whole. What is
taken on trust from other crates and from the standard library stands in the few
functions marked `external_body`, in the specification assumed of
`String::push`, and in the names `sha256`, `lossy` and `span_text` for what such
a function returns. Each has a comment on what is claimed.
