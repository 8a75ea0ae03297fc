# Tect

Tect is a small language for describing software architectures: artifacts
(`constant`, `variable`, `error`), groups, function contracts with
alternative outputs, and flows of function calls. This crate reads Tect
sources, resolves their symbols, simulates how tokens flow through the
declared functions, and renders the resulting graph; its logic is verified
with Verus.

## Layout

- `src/` — the verified library.
  - `parser.rs`: the grammar, as a parser on characters.
  - `analyzer.rs`: imports, cycle detection, definitions, resolution and
    unused-symbol warnings, over a workspace of files.
  - `engine.rs`: the token pools and the flow simulation.
  - `formatter.rs`: the standard layout of a source.
  - `export/`: DOT, Mermaid and TikZ renderings, and their theme.
  - `vis_js.rs`: the data of the interactive view and its page.
  - `html.rs`: a DOT graph as a page that renders it in the browser.
  - `lsp.rs`: the editor features (hover, definitions, references,
    outline, hints, completion, diagnostics).
  - `report.rs`: the `check` report.
  - `pipeline.rs`: named tokens flowing through a pipeline of functions.
  - `assignments.rs`: typed assignments checked against signatures.
  - `laws.rs`: properties that span operations.
- `tests/` — the tests.
- `app/` — the `tect` command and the language server: files, terminal,
  JSON and the protocol.

## Names

Identifiers may start with a lowercase or an uppercase letter: `constant
credentials` is as valid a definition as `constant Credentials`.

## Offsets

Spans are byte offsets into the UTF-8 text of a file; the source manager
turns them into lines and UTF-16 columns for editors.
