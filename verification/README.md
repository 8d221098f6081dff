# memdag

A local, durable memory for coding agents. Memories (decisions, tasks,
invariants, blockers, scratch notes) are the nodes of a directed graph; edges
say what supersedes, depends on, blocks or references what. The graph lives in
a SQLite file and is reached from the command line or by an assistant over the
Model Context Protocol.

## Layout

- `src/` is the library, verified with Verus.
  - `models`: kinds, states, edge types and the records made of them.
  - `tables`, `plans`: the graph as two tables, the changes that can be made to
    it, and which changes each request makes or why it is refused.
  - `store`: the graph in memory with its journal of changes.
  - `rows`, `queries`, `search`: neighbours, lists, the ready queue, counts, and
    what is made of the hits of the text index and of the vector index.
  - `laws`, `reading`: what holds of every change and of everything read.
  - `render`, `calls`, `tools`, `schema`, `json`, `serial`, `mcp`: the tools and
    the protocol, JSON values and their text.
  - `cli`, `config`, `db`, `change`: commands and their output, client
    configuration files, the schema and the statements that store a change.
- `app/` is the program: arguments, files, standard input and output, SQLite.
- `tests/` runs the library, with a real in-memory database where it matters.

## How a request is served

The program opens a transaction, reads all rows, asks an index if the request
needs one, hands rows, hits and the time to the library, runs the statements of
the journal that comes back, and commits.

## Settings

| Variable | Meaning |
| --- | --- |
| `MEMDAG_DB` | the database file |
| `MEMDAG_EPHEMERAL_TTL_SECS` | after how many seconds a scratch note is swept away (one day) |
| `MEMDAG_USER_CONFIG` | the client's configuration file, in the home directory, for `mcp install --global` |
