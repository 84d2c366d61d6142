# storage_planner

The logic behind `sp`, a command-line tool for planning storage purchases:
topologies of nodes, volumes, datasets, placements, links and sync regimes,
forks of topologies and their differences, purchase decisions, and an
undo/redo log of every change.

## Layout

- `src/` — the library, verified with Verus. Each public function states
  its result in its contract; the laws that span several functions are
  public proof functions.
  - `events` — the event log: recording, undo, redo and what each asks of
    the store; laws on undo/redo round trips and the redo stack.
  - `remap` — fresh identities for forks and imports, template stripping;
    laws that every reference of a copy resolves inside the copy.
  - `decision` — the decision lifecycle (draft, open, decided, abandoned);
    laws on reopening and on the considered set.
  - `topology` — tags (at most one topology is current), fork names.
  - `diff` — field and entity differences between two topologies.
  - `lineage`, `diagram` — the fork tree and the text diagrams.
  - `resolve`, `fields`, `export`, `specs`, `text`, `cli` — name-or-ID
    resolution, argument checks, export sections and import names,
    capacity and speed texts, string helpers, and the command line as data.
- `tests/` — tests of the library.
- `app/` — the program: argument parsing, the SQLite store, output, and
  the decimal arithmetic of capacities and speeds.
