# dawn_project

The project model of the Dawn lighting tool: exact time and distance units,
colors and references; the effect-script language (lexer, parser, type checker,
bytecode compiler and the specializer for fixed parameter values); the YAML
source map; lowering checks of layouts and sequences; the analysis that turns
script and parameter problems into project diagnostics; and the document edits
that the editor applies to sequence timelines and Dawn files.

Layout:

- `src/` is the verified library. Every public function states what it returns
  in its contract, and the laws that relate several functions are public proof
  functions beside them.
- `tests/` runs the library on concrete inputs.
- `app/` holds what is not verified: reading and parsing files, the serde
  copies of library types, and the bytecode interpreter, whose registers hold
  floating-point values.
