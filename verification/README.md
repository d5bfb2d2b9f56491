# rupt

A pytest-compatible Python test runner. Tests are collected by reading the
syntax trees of Python files instead of importing them, and run in Python
worker processes whose results the runner gathers and reports.

## Layout

- `src/` — the library, verified with Verus. It holds the logic of the runner:
  which definitions are tests and their node ids (`parser`, `parametrize`,
  `markers`), `-k`/`-m` selection (`selection`), configuration files
  (`config`), which files and directories are searched (`discovery`),
  conftest fixtures (`fixtures`, `conftest`, `paths`), what worker messages
  do to a run and how tests are split among workers (`executor`), coverage
  bookkeeping and reports (`coverage`), terminal and JUnit output
  (`reporting`, `junit`, `cli`), and the text operations they share (`text`).
  `ast` is the plain model of the Python syntax the collector reads, and
  `source` parses Python text with `ruff_python_parser` into that model.
- `app/` — the `rupt` command around the library: argument parsing, reading
  files and walking directories, spawning and reading workers, timing, watch
  mode, and writing files.
- `tests/` — tests of the library on concrete inputs.
