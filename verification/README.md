# mdlint

Markdown lint rules (the markdownlint `MD` rules and kramdown `KMD` rules)
whose behaviour is stated in Verus contracts and proved.

Each rule takes the lines of a document (each with its line ending), the
parser tokens where it needs them, and its options, and returns its
findings. Every `lint` function is specified exactly: its findings, as plain
values, equal a spec function of the document (for example `md009_errors`).
A finding may carry a fix; `fix::apply_fixes` applies the fixes of a list of
findings to a document, again with an exact contract.

## Layout

- `src/text.rs`: characters, UTF-8 lengths, trimming and searching, with
  their specifications.
- `src/types.rs`: findings, fixes, tokens and rule parameters.
- `src/config.rs`, `src/workspace.rs`: rule options and the heading anchors
  of other files.
- `src/pattern.rs`: regular expressions (the `regex` crate), behind
  contracts that name what the crate computes.
- `src/helpers.rs`: predicates and heading anchors shared by rules.
- `src/fix.rs`: applying fixes, and laws about it (findings without fixes
  keep a document; lines no fix targets are kept; split lines join back).
- `src/rules/`: one module per rule. Some rules also state laws, such as
  that fixing the MD009, MD010, MD012, MD019, MD023, MD027 or MD047
  findings leaves a document without them (on the documents where the
  fixes can do so).
- `tests/`: the tests of every rule, and tests of the laws on concrete
  documents.
- `app/`: reading rule options from JSON (`serde_json`) and splitting a
  document into lines.
