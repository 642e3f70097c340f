# steamtop

An htop-style terminal monitor for running Steam games. The library under
`src/` holds the monitor's logic, verified with Verus:

- `text` — trimming, substring search, decimal parsing as `str::parse` does
  it, line and field splitting, and the code-point order of strings;
- `gpu` — reading `nvidia-smi`'s output and the DRM cards' sysfs files, and
  the order in which the GPU sources are tried;
- `games` — which processes count as Steam games, and the game list that joins
  detected games, pinned processes and pinned processes that are gone;
- `rows` — table rows, the sort columns, and a stable sort with its laws
  (ordered, a permutation, stable, idempotent);
- `monitor` — the monitor's state, its invariant, a new sample, key handling,
  pinning and the refresh interval, with the laws that tie them together.

`app/` is the program around it: the terminal and event loop (crossterm,
ratatui), system sampling (sysinfo), running `nvidia-smi` and reading sysfs
(glob). `tests/` runs the library on concrete values.
