# herdr core

The verified core of herdr's terminal workspace features, written in Verus.
Each public function states what it returns in its contract, and the laws
that hold across functions are proof functions beside them.

- `src/` — the library, verified by Verus:
  - `text`, `paths`, `layout`, `width`, `sorting`: characters and
    trimming, path names, rectangles on the terminal grid, display widths,
    and stable sorting.
  - `env_file`, `secrets`: setting a variable in a `.env` file, and which
    secret requests are refused and how.
  - `codex`, `codex_usage`, `cli`: renaming the calling pane's Codex thread,
    the context usage a Codex transcript shows, and the `herdr codex` and
    `herdr secret` command lines.
  - `projects`, `plugin_status`, `tabs`, `json`: the project picker, the
    plugins' status items, and the tab bar's layout.
- `tests/` — tests of the library on concrete values.
- `app/` — the code around the library: JSON shapes, files, terminal keys,
  command lines and drawing with ratatui.
