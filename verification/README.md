# workbench

The logic of a handful of small programs, written as a Verus library whose
functions carry contracts that Verus proves, and a thin command-line crate
around it. Where a function draws on chance or the clock (random identifiers,
positions, the time), its contract states what holds of every outcome.

## Layout

- `src/` — the verified library.
  - `connect_four` — a four-in-a-row board: dropping pieces, finding four in a row, drawing it as text.
  - `graph`, `shortest_path` — a graph with identified nodes and weighted edges;
    depth-first search recording a shortest path to every reachable node, and
    Dijkstra's algorithm returning a cheapest path along the edges' direction.
  - `grid` — the grid that a layout starts nodes on.
  - `life` — a random seed of distinct living cells, and sorting.
  - `chat` — the users and payloads of a chat room, the server's state
    (unique user names, every payload broadcast) and the client's buttons.
  - `mirror` — the bookkeeping of a crawler that mirrors GitHub repositories.
  - `oauth` — reading the code and state from an OAuth redirect, and the reply.
  - `static_files` — which file a request names and its headers.
  - `points` — points of a fixed number of coordinates stored one after another:
    reading, writing and removing one or two by number, and walking them.
  - `json_split` — splitting a JSON array into pieces of a given size, each
    piece's text, file name and folder.
  - `fs_map`, `subnet`, `text_image`, `paths`, `text`, `slices` — smaller helpers.
- `tests/` — tests of the library on concrete values.
- `app/` — `main` and everything that reads, writes, talks to the network,
  draws, or computes in floating point, calling the library for its decisions.
  The first argument names the program to run.
