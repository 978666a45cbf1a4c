# slang

A small compiler for a C-like language, from source text to AArch64
assembly, written in Verus: each stage is a function with a contract over a
mathematical model of its input and output, and Verus proves the code
against it.

## Layout

- `src/tokenize.rs`, `src/parse.rs`, `src/ast.rs`, `src/ir.rs`,
  `src/codegen.rs`: the first version of the language, a complete pipeline
  from text to assembly (`tokenize`, `parse`, `ir`, `assemble`, each with a
  `try_` form that returns `None` on the inputs it cannot handle).
- `src/stage/`: the current front end, stage by stage: the lexer, the
  parser into a syntax tree, name resolution, type checking (`ty`) and type
  propagation to the least typing (`infer`), constant folding of values
  (`fold`) and of the program to a fixpoint (`folding`), the lowering of each
  kind of node into instructions, and the assembly text of the
  instructions. Nodes of the tree are named by handles (`Node`) or by their
  position in a node table, and each stage reads plain tables of what it
  needs of them.
- `src/error.rs`: errors with spans, where in a source an error stands,
  and the report the compiler prints for an error.
- `src/text.rs`: byte-string helpers.
- `app/main.rs`: the command-line driver: reads a file, compiles it with
  the first pipeline, and hands the assembly to `as` and `ld`.
- `tests/`: tests of the library on concrete inputs.

The laws of the library are public proof functions named `law_*`.
