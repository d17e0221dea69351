# philiprehberger_template

A small string template engine with variables (`{name}`, `{user.email}`),
filters (`{name|upper}`, `lower`, `trim`), conditionals (`{#if x}`, `{#if !x}`,
`{:else}`), loops (`{#each items}` with `{.}` for the current item) and
escaped braces (`{{`, `}}`), written in Verus.

The functions of the library in `src/` are verified against specifications,
apart from three small trusted wrappers around `String::push`,
`str::to_uppercase` and `str::to_lowercase`:

- `text.rs` — whitespace, trimming, prefixes, searching and splitting of characters.
- `value.rs` — `Value`, `Number` (a number held as the decimal text it is shown
  as) and `ValueMap` (names unique, later writes replace earlier ones).
- `error.rs` — `ParseError` and `RenderError`.
- `lexer.rs` — tokens of a template (`lex`, `tokenize`).
- `parser.rs` — the node tree built from the tokens (`parse_from`, `parse_tokens`).
- `render.rs` — path lookup, filters and rendering (`render_seq`, `render_nodes`).
- `template.rs` — `Template::parse` and `Template::render`.
- `laws.rs` — properties of the language proved over these specifications.

`app/` holds what cannot be verified: conversions between `f64` and `Number`,
and from a `HashMap` to a `ValueMap`.
