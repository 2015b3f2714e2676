# dunnopc

Desktop-control helpers for an LLM agent, with their logic verified by Verus.

- `src/wm/sway.rs` — a sway layout tree and the map from each non-empty
  workspace to the applications running in it, with the laws that the map
  obeys; `info` writes that map as pretty JSON.
- `src/browser/chromium.rs` — page descriptions (`PageInfo`), listing the page
  targets of a DevTools endpoint and selecting the page that a description
  names; `src/browser/brave.rs` lists pages as `(id, title, url)` tuples.
- `app/` — the `dpc` command line: its commands talk to the browser, hand the
  library plain values and print what comes back. `app/wm.rs` reads the sway
  tree over IPC and writes it through `info`, but no command calls it yet.
