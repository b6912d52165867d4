# karta_server

The library behind the Karta graph server, written in Verus: every
function in `src/` carries a contract that Verus proves.

- `graph`: the index of the graph (nodes by identifier and path, edges,
  `contains` edges between a directory and what it holds) and its
  operations: insertion, lookup, moving a subtree, deleting nodes and edges.
  A new index holds the root node and the vault node. The index lives in
  memory: it is not kept across restarts of the server. A move onto a path
  that another node already has overwrites it; both nodes then have the
  path, a lookup by path finds the first, and a listing of the indexed
  paths gives each path once.
- `contexts`: opening the context of a node (its parent, its children on
  disk, the nodes joined to it by edges, the nodes of its saved context)
  and choosing the edges shown; `context_plan`: what the graph view keeps,
  spawns and links when it changes context.
- `service`: the service that owns a vault; it reconciles the index with
  what is on disk (given to it as plain facts) for opening, moving,
  renaming, deleting and searching nodes.
- `write_ops`: the write requests of the HTTP API (moves, renames, updates,
  creation) on top of the service.
- `node_path`, `moves`, `requests`, `unique_name`, `text`, `order`: path
  arithmetic, request checks and the text helpers they rest on.
- `completion`, `vaults`: the vault prompt.
- `bundle`, `search`, `settings`, `payloads`, `bookmarks`: export previews,
  fuzzy search, settings paths, request and response types, saved access
  bookmarks.
- `interaction`, `modes`, `node_types`, `nodetype`, `context_view`: the
  state of the graph view.

`app/` is the server program: the prompt, the HTTP handlers, the disk I/O
(including the saved context files under `.karta/contexts`) and the JSON
forms of the library's types. `tests/` exercises the library.
