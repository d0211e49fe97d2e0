# bonsai

A syntax-guided test-case reducer built on tree-sitter grammars, with its
logic verified by Verus.

The reducer parses an input, takes its nodes largest first from a priority
queue, and asks transforms (delete, unwrap, dead-definition removal) for
candidate replacements. A candidate is kept when the replaced source still
parses without new errors, is shorter, and the interestingness test still
holds. Test answers are cached by content hash.

## Layout

- `src/` — the verified library.
  - `tree`, `parse`: the plain syntax tree built from tree-sitter's parse,
    and linking of parents from preorder depths.
  - `validity`: error sets, splicing replacements, accepting a reparse.
  - `transform`, `transforms/`: the candidate proposals.
  - `supertype`, `compat`, `languages`: node-type compatibility and the
    registered grammars.
  - `queue`, `cache`, `reducer`, `progress`, `interest`: the reduction loop.
  - `scope`: scope analysis from `locals.scm` captures.
  - `project`, `paths`, `config`: `bonsai.toml` discovery and merging.
  - `file_set`: a project's files with undoable changes.
  - `target`, `criteria`: the fuzz target's invocation and criteria.
- `tests/` — tests of the library.
- `app/` — the command-line program: argument handling, processes, files,
  TOML, and the working copy on disk.
