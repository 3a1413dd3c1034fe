# collage

A template engine for HTML and similar markup languages, written in Verus.

- `src/` is the verified library: HTML escaping (through `html_escape`),
  the `Render` trait and its impls for booleans, characters, strings,
  integers (through `itoa`), options and shared pointers, the validation of
  attribute keys, the reading of `markup!` tokens into a markup tree, and
  the lowering of that tree into static text and holes for interpolated
  expressions.
- `app/` is the `markup!` front end: it turns the macro's Rust tokens into
  the library's tokens (parsing each parenthesised group as a Rust
  expression with `syn`) and writes Rust code for the lowered parts with
  `quote`.
- `markup!` writes its markup out as `Html`, which implements `Render`, so
  a stored piece of markup renders on its own and inside other markup.
- Limitations: floats and functions do not implement `Render` (the library
  has no floating-point code, and `Render` states the exact text written,
  which no closure or function pointer can promise), so `(3.14)` and
  `(collage::doctype)` cannot be interpolated; `app/` offers
  `render_f32_to` and `render_f64_to` as plain functions.
- `tests/` exercises the library on the examples of the macro's
  documentation, written as tokens.
