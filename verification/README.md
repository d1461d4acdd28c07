# graphplot

A library for graphs whose vertices are identified by their labels, set
algebra on such graphs, and a small language of set expressions over the
vertex and edge sets of named graphs; around it, a desktop program that
draws the graphs, edits them by mouse, and runs expression programs and Lua
filter scripts.

The library in `src/` is written in Verus: every function carries a
contract over a mathematical model (sets of labels and of label pairs) and
is proved against it, and the laws of the operations are stated and proved
as proof functions.

- `order`, `ordset`: the order on labels and edges; finite sets kept as
  sorted vectors.
- `graph`, `graph_laws`: graphs, their operations (union, intersection,
  differences, complement, induced subgraphs, change of direction, random
  graphs from given coin flips) and their laws.
- `adjacency`: degrees, neighbours and a greedy maximal independent set.
- `namemap`: maps from names to values.
- `expr`: the expression language: tokens, syntax, parser, evaluator and
  its laws.
- `program`: cutting a program text into statements and running them line
  by line.
- `workbench`, `editor_laws`: what the editor decides (edit modes, canvas
  clicks, operations chosen from the menu, renaming) and its laws.

`app/` holds the window (eframe/egui), the force-directed layout, which
works on floating-point positions, and the Lua filters (mlua).
`tests/` exercise the library on concrete values.
