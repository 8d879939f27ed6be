# bladeink_compiler

A front end for the ink narrative scripting language, written in Verus: it
reads ink source into a syntax tree.  Every parser states in its contract,
proved by Verus, what it returns for each input; of an error, the contracts
state its class (`ErrorKind`), not its message or the line it reports.

Layout of `src/`:

- `text`, `lines`: character helpers, splitting a source into lines,
  indentation and comments.
- `expression`, `inline`, `content`, `header`, `declarations`, `choice`,
  `sequence`, `conditional`: the parsers of one line or one piece of a line,
  each with a specification over `Seq<char>`.
- `blocks`: what a statement means when it spans several lines (blocks,
  sequences, choices, gathers), as spec functions over the modelled lines.
- `statement`: the executable statement parsers, proved against `blocks`.
- `story`: the whole story (knots, functions, stitches, declarations).
- `ast`, `error`: the syntax tree and its mathematical model; errors.
- `stats`, `object`, `path`, `hierarchy`, `ported`: statistics over a parsed
  story, the object hierarchy, paths, and the newer front end's pieces.
- `parsed_object`, `content_list`, `list_definition`, `parsed_expressions`:
  nodes of the parsed hierarchy (identity, parent and content, reported
  errors and warnings; content lists and their trimming; list definitions
  and the values their items are numbered with; variable references and
  string expressions).
- `weave`: the structure of a weave (its entries at its own depth, deeper
  parts nested), over a model of each node as a choice, a gather or other.
- `runtime_tree`, `choice_export`, `sequence_export`, `conditional_export`,
  `weave_export`: a plain-value form of the runtime tree, and the runtime
  form of a choice (its flag word, its containers, their names and paths),
  a sequence, a conditional and a weave (its choice and gather containers,
  the diverts that tie loose ends, the paths of its labels), built from the
  exported form of their content.

Each module states its laws as public proof functions named `law_*`.
