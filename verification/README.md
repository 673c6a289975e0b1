# agentdb

A memory store for software agents, written in Verus: five memory kinds
(working, episodic, semantic, procedural, tools), typed weighted links
between records, a planner that turns parsed AQL statements into plans,
and an executor that runs them. Every executable function in `src/` carries
a `requires`/`ensures` contract that Verus proves.

## Layout

- `src/` — the verified library.
  - `json`, `text`, `seqs`, `float`, `time`, `scope`: documents, strings,
    sequence lemmas, floating-point values as bit patterns, instants and
    spans, access scopes.
  - `predicate`, `memory`, `order`, `records`: query predicates and
    modifiers, records and their metadata, record orders, shared selection
    steps.
  - `working`, `episodic`, `semantic`, `procedural`, `tools`, `link`,
    `links`: the memory kinds and the link store, each with a view and a
    well-formedness invariant.
  - `adb`: the database over all kinds, with its laws (a record stored in
    working memory is found again by its key, forgetting removes what
    matched, a link is found from its source).
  - `ast`, `plan`, `planner`, `executor`, `steps`, `result`: statements,
    plans, planning, execution and results.  `Planner::plan` states the
    plan of every statement (`planned`) and the error of every statement
    it refuses (`plan_failed`); `Executor::execute_statement` runs exactly
    that plan.
  - `mcp`: the tool list and the argument handling of the MCP server.
- `tests/` — tests of the library on concrete values.
- `app/` — the command-line program: the MCP server over standard
  input and output, the HTTP server, the expiry reaper, the vector index,
  JSON conversion, and the floating-point work the library asks of its
  caller through closures (reading doubles from text, weighing tool
  rankings, blending weights, reducing aggregated values).

## Queries as text

The library starts from parsed statements (`ast`).  No AQL parser is part
of this project, so the command-line program refuses query text: the
`query` command and the MCP server's `aql_query` tool answer with an
error, while the other MCP tools work.

## Collections

Every store keeps its entries in `Vec`s that the library owns, with the
invariants of a map (keys unique) stated and proved.  Concurrent maps that
change through shared references cannot be described by a contract that
relates a value before and after a call, and the database here is used
through `&mut` by one owner at a time; the graph of procedures is a list
of edges between procedure ids, so its contract speaks of plain values.

## Outside calls

The clock (`chrono`), random link ids (`uuid`) and a few std routines are
reached through small trusted wrappers whose contracts state what the
outside code does. Floating-point arithmetic is not written in `src/`:
where a query needs it, the library fixes what is handed to a caller's
closure and states what it does with the answer.

## Checking

`src/lib.rs` is the crate root; Verus verifies it with its outside crates
given as dependencies, and `cargo test` runs the tests under `tests/`.
