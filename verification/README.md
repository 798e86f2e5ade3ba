# impeccable_terminal

Terminal-UI linting with machine-checked contracts: parsing `tmux
capture-pane -e` output into a cell grid, the `tui-rt-*` runtime rules over
captured frames, the `tui-*` source rules over Rust, Go, Python, Textual CSS
and Ink code, the tmux engine's decisions, and the boot checks on a
project's artifacts (platform evidence, product record, design sidecar,
config files, build path, surface briefs, `projectRoots`).

## Layout

- `src/` — the verified library (Verus). Every public function states what
  it returns as a spec function over `Seq`, `int` and the views of its
  types; the laws (`law_*`) are proof functions over those specs.
  - `text`, `pattern` — characters and strings, and regex matching through
    the `regex` crate.
  - `capture` — SGR and escape handling, rows, frames, capture files.
  - `palette`, `findings`, `rules` — colors, rule findings, runtime rules.
  - `source_rules` — stack detection, comment blanking, source rules.
  - `tmux`, `engine` — version checks, executable search, pane geometry,
    live frames, error wording.
  - `staleness`, `artifacts`, `paths` — project artifact checks, config
    JSON read through `serde_json`, project paths, and the boot report.
- `app/` — ordinary Rust around the library: running tmux, sleeping,
  reading files, JSON truthiness, WCAG contrast ratios (floating point), and the
  serde forms of findings.
- `tests/` — the test suite, run against the compiled library.
