# ix

`ix` lists things (git status, files, processes, ports, containers, ...),
gives each a short numeric slot, and expands slots back to the things they
name: `git add $(ix 1-3)`.

This crate holds the logic of `ix` with Verus contracts and proofs:

- `selection`, `index`, `item`, `grouping` — parsing slot selectors
  (`3`, `1-4`, `1,3`, exclusions `^2` and `^2-3`), numbering a listing in
  display order, resolving slots against an index.
- `order`, `paths`, `text`, `quoting` — sorting, Unix path components,
  character-level text helpers, shell quoting.
- `lines`, `env`, `sys`, `port`, `docker`, `git`, `files`, `ssh` — turning
  what each provider reads into items.
- `cli`, `display`, `theme`, `picker` — output formats, `do` and `diff`,
  the coloured listing, `IX_COLORS`, and the interactive picker's state
  (typed slots, or a fuzzy search over the labels).

`app/` is the command-line program around the library: argument parsing,
reading the machine (git, the file system, processes, sockets, Docker), the
index file, and the terminal.
