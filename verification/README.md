# fluid

A small reactive front-end toolkit, proved with Verus.

- `src/tokens.rs`: the flat token model that markup is read from and code is
  written in, with properly nested groups, and the two calls into `syn` that
  classify tokens.
- `src/ast.rs`: the tree of the `html!` markup and its model.
- `src/grammar.rs`: the markup syntax, stated over token sequences.
- `src/parse.rs`: the parser, proved to read exactly what the grammar states.
- `src/scope.rs`: proof that every range of Rust code a parsed tree records
  can be copied out with its groups whole.
- `src/codegen.rs`: the code that `html!` expands to, each template stated
  over the token model, and `html`, which reads the markup and writes the
  code that builds its DOM tree.
- `src/markup.rs`: how each construct is written as tokens; proofs that
  written markup is read back as itself and that every element read names
  each attribute once.
- `src/signal.rs`: signals and effects; the last created effect observes
  every read of a signal of its context. This is the reactive core that the
  generated code relies on.
- `src/strict.rs`: the same signals, refusing (by precondition) a read of a
  signal that is notifying its subscribers while an effect exists.
- `app/`: a command-line expander (markup on standard input, generated
  code on standard output), the closure-holding runtime around the signal
  core, and DOM helpers for the browser.
