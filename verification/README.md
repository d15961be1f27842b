# parecode

The logic of a coding agent that works with small context windows: what it
reads, what it keeps, what it forgets, and what it sends to a model. Every
function under `src/` is verified by Verus against the contract that stands in
its header.

- `src/` holds the library. Each module opens with what it is about; spec
  functions say what a value is, and public proof functions state what holds of
  several functions together.
- `app/` is the program around it: arguments, files, processes, HTTP, and the
  types that are written to disk.
- `tests/` runs the library on concrete values.

What is not proved but believed is small: the items marked `external_body` or
`assume_specification` in `text`, `json`, `clock`, `planner`, `callgraph` and
`update`. Each says which outside function it calls and what it claims of it.
