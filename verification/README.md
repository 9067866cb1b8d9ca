# llamac

The front end of a compiler for Llama, a small ML-like language, written in
Verus: the verified library lives in `src/`, the command-line program around
it in `app/`.

## Layout

- `src/scan.rs` — the preprocessor's decisions: which line is a directive
  (`#include "file"`), which files are open, include cycles, line numbers.
  The program reads the files and hands the lines to it.
- `src/lex/` — the lexer: `token.rs` (token kinds, positions, values),
  `rules.rs` (character classes, literals, escapes, comments) and `mod.rs`
  (the lexer as a state machine; each call of `next_token` is specified by
  `next_token_spec`).
- `src/long_peekable.rs`, `src/longpeekable.rs` — iterators that can look
  any number of items ahead without consuming them.
- `src/parse/` — the parser: `mod.rs` (a recursive-descent parser over the
  tokens, one function per nonterminal), `stream.rs` (the token stream,
  comments in it, and what it means to advance in it), `grammar.rs` and
  `expr_grammar.rs` (the grammar as spec functions over the tokens: what
  each nonterminal builds and the tokens it leaves, or where it stops and
  which kinds would have fitted there; each parsing function is proved to
  give exactly that) and `ast/` (the syntax tree: type annotations,
  definitions, expressions and patterns; `view.rs` gives their values
  without positions, `print.rs` what each node says of itself and which
  nodes a printed tree shows below it).
- `src/pass/sem/types/` — types and type inference: `mod.rs` (types and
  their values), `subst.rs` (bindings of unknown types and what they give),
  `parts.rs` (parts of types in view of the bindings, and that unification
  brings no two distinct arrays of compatible dimensions into view where
  there were none), `type_map.rs` (the inference state,
  resolution with path shortening, the occurs check) and `inference.rs`
  (constraints, unification, inference groups); `type_map.rs` also keeps
  the type of each bound node and makes fresh instances of generic ones.
- `src/pass/sem/` — semantic analysis: `sem_table.rs` (the scopes of
  names), `pattern.rs` (what a match pattern binds and which unifications
  it adds, specified by `pattern_gen`), `expr.rs` (what unary and binary
  operators ask of their operands' types, specified by `unop_gen` and
  `binop_gen`), `gen.rs` (what analysing an expression or a definition
  gives, as spec functions over the state of the analysis: `expr_gen`,
  `def_gen` and the rest), `analysis.rs` (the analysis of expressions,
  definitions and whole programs, each proved to follow `gen.rs`: each
  expression's type becomes a node, each definition's unifications are
  solved at its end (`def_post`), recursive groups are bound first,
  generic definitions are marked (`letdef_post`); `sem` analyses a program
  as `program_post` says)
  and `mod.rs` (the semantic errors, and the names that a type definition
  binds).
- `src/cli.rs` — the command line's steps, print requests and warnings.
- `src/text.rs` — ASCII and UTF-8 helpers.
- `app/main.rs` — argument parsing (clap), file reading, logging and
  printing, including the table of inferred types; `app/ast_print.rs` draws the syntax tree with ptree, from
  the labels and children that `src/parse/ast/print.rs` computes.
- `tests/` — tests of the library.

Run `verus` on `src/lib.rs` to check the proofs.
