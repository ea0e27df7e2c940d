# collect_diff_context

A verified library for building the impact context of a code change: which
files changed, what Rust symbols and text evidence they hold, how they relate
to the rest of the repository, and what budgets and limitations shaped the
result. Every function under `src/` is checked by Verus against its contract.

## Layout

- `src/` — the library, one module per concern:
  - contracts and checks of the output (`contracts`, `integrity`, `model`);
  - budgets and clocks (`budget`, `index_budget`, `clock`);
  - evidence from changed files (`text_adapter`, `text_scan`, `rust_syntax`,
    `normalizer`, `summarizer`, `engine`, `assembly`);
  - the repository index (`manifest`, `project_model`, `resolver`, `graph`,
    `generation`, `repository_index`, `overlay`, `overlay_path`,
    `traversal`, `locator`, `cache`, `cleanup`);
  - shared helpers (`strings`, `digest`, `keyed`, `ordering`, `candidate`,
    `review_scope`) and the laws that span functions (`laws`).
- `tests/` — tests that run the library on concrete values.
- `app/` — a small command-line program around the library: it runs Git,
  reads files and parses `Cargo.toml`, hands the library plain values and
  prints the results as JSON.

Outside calls (SHA-256, regular expressions, the standard library's UTF-8
decoding and clock) stand behind small trusted wrappers whose contracts say
what those crates document.
