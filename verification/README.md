# minimessage

A verified implementation of the MiniMessage markup used by Pumpkin text: a tokenizer,
a parser into element/text/placeholder nodes, the special tags (click and hover actions,
hex colors, rainbows), a builder of styled component trees with positional and named
arguments, the rainbow cursor used when rendering, and the decisions behind the
`minimessage!` code generator.

Layout:

- `src/` — the library, verified with Verus. Each public function states its result over
  a mathematical model (`spec_*` functions and `@` views); the `law_*` proof functions
  state properties that span several functions (tokenizing loses nothing, what a closed,
  unclosed or mismatched element parses to, what arguments fill, which characters a
  rainbow colors).
- `tests/` — tests run against the compiled library.
- `app/` — ordinary Rust around it: floating-point color math, error types with
  messages, the token-writing code generator, and conversion into Pumpkin components.
