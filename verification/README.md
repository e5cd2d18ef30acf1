# cino

cino is a deterministic domain language: a program declares state, event and query types and
pure `update` and `query` functions over them. This crate is its toolchain and runtime as a
verified library:

- `syntax` — the lexer and the recursive-descent parser. `syntax::grammar` states the grammar
  as spec functions over tokens; `parse_program` returns exactly what the grammar gives for the
  text's tokens, or the position and message where lexing or the grammar first fails.
- `sema` — the static checks (types, purity, signatures of `update`/`query`, exhaustive and
  reachable `match` arms); `sema::model` states the findings, messages included, as spec
  functions.
- `ir` — lowering to a typed IR (`ir::lowering` is its specification) and IR validation.
- `vm` — the evaluator with step, memory and recursion limits; `vm::machine` states evaluation
  and proves that update and query are deterministic; errors carry stated messages.
- `runtime` — the host-facing API over a program; program errors become runtime errors.
- `codec` — runtime values to and from canonical CBOR with ciborium (map keys in RFC 8949
  order, stated by `cbor_order`), with a proved round trip for values nested at most 256 levels
  deep, the depth ciborium's reader accepts.
- `host_cbor`, `ffi` — the C host interface's values (CBOR with serde_cbor, canonical order) and
  its update/query calls on a counter program, with a proved round trip for values nested at
  most 127 levels deep; `app/ffi_c.rs` holds the C ABI around them.
- `json` — runtime values to and from the JSON documents of the command-line tool, with a
  proved round trip; `json_text` reads such a document from its text with serde_json.
- `docgen` — the Markdown document that lists a program's declarations.

`app/` is the `cino` command-line tool (`check`, `run update|query`, `docgen`) and the C ABI.
