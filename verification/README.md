# toroidal_tql

The query layer of a hybrid vector and graph database: the TQL query
language and its schema statements, a GQL translator, query planning, graph
traversal and analytics, sharded routing, two-phase commit, stream windows,
subscriptions, caches, backups and the command-line client's decisions.

## Layout

- `src/` is the library, verified with Verus. Each module states its
  behaviour in `requires`/`ensures` contracts over spec functions; the
  grammars (`parser`, `ddl_parser`, `gql_bridge`) are spec functions over
  the characters of the input, and the readers are proved to follow them.
  Decimal numbers are kept as the literal written; `decimal` computes the
  distance bound `1 - t` of a similarity bound exactly.
- `app/` holds what the library leaves to ordinary Rust: network servers and
  clients, file access, floating-point scoring (costs, distances,
  centralities, window sums, number comparisons in expressions) and
  shared-state wrappers.
- `tests/` exercises the library through its public interface.

Calls into other crates and into the parts of `std` that the verifier does
not model (the clock, random identifiers, hashing, Unicode case and
character classes) go through small wrappers whose contracts say what the
callee's documentation promises.

The query executor that runs parsed queries against the vector store, and
the store itself, are not part of this crate: the executor ranks results by
`f32` scores from the store's vector search, which the crate does not hold.
