# treesnap_core

TreeSnapshots records a file system tree with `tree` and keeps the output as
plain-text snapshots under `~/TreeSnapshots/snapshots/`.

This crate is the verified core of the tool, written in Verus. Every public
function states what it returns in its `requires`/`ensures` contract, and
Verus proves the code against it.

- `src/` — the library: byte-size formatting (`size`), drive listing
  (`drives`), snapshot paths (`paths`), the scan arguments and line counting
  (`scan`), machine description (`system`), the snapshot list (`logs`),
  installation and helper programs (`install`), the command-line menus
  (`cli`), the desktop front end's own pieces (`desktop`), the local clock
  through `chrono` (`clock`), and the text and ordering helpers they share
  (`text`, `order`).
- `app/` — the `treesnap` command-line program: environment, processes,
  files, threads and the terminal interface around the library.
- `tests/` — tests of the library on concrete values.
