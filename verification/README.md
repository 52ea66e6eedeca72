# munchrs

An MCP server for codebase indexing and symbol retrieval. It parses source files with
tree-sitter, extracts their symbols (functions, classes, methods, constants, types), stores an
index per repository, and answers outline, symbol and search requests over stdio.

## Layout

- `src/` is the library, written in Verus; every function in it carries a contract that
  Verus proves.
  - `parser/`: languages and their node kinds, symbol extraction from syntax trees
    (`extractor`, `beam` for Elixir and Erlang), the symbol hierarchy, and `properties`, which
    proves that every extracted symbol points at its own bytes.
  - `store`: the index, symbol search and scoring, storage paths, change detection, building
    and merging indexes.
  - `indexing`: parsing a folder's files into symbols and language counts.
  - `tools`: the decisions and texts behind the server's tools.
  - `summarizer`, `security`, `format`, `savings`, `text`.
- `app/` is the program around it: the MCP server, command-line options, file system access,
  the directory walk and the summary model's HTTP client.
- `tests/` runs the library on concrete inputs.

## Storage

Each index is stored as `<owner>/<name>/index.json` under `~/.munchrs/` (or the directory
that `CODE_INDEX_PATH` names). Files are not copied: symbol sources and text searches read the
files from the folder that was indexed, and a content hash per symbol detects drift.

## Supported languages

Python, JavaScript, TypeScript, Go, Rust, Java, PHP, Dart, C#, C, C++, Swift, Elixir, Erlang.
