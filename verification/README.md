# in_place_macro

Macros for editing a file in place without losing it: the output is written
to a temporary file next to the original, which is renamed over it once the
work has succeeded. When a `sponge!` call fails, its temporary files are
removed and the error is handed back.

- `#[auto_rename(output overwrites input)]` on a function with separate input
  and output paths;
- `sponge!(func(a, b, overwrites c))` or `sponge!(func(x, y, out), out overwrites x)`
  at a call site;
- `in_place!(f1 = "a.csv", func($f1i, "b.csv", $f1o))`.

Layout:

- `src/` is the verified library. `token` models Rust token trees and renders
  them as text; `syntax` asks `syn` whether a text is an expression, a function
  item or an identifier; `rename`, `auto_rename`, `sponge` and `in_place` hold
  the grammar of each macro and the code it writes, each with an exact
  specification and its laws; `template` holds the code common to all three
  (the temporary path and the rename).
- `app/` is the procedural-macro side (conversion between compiler tokens and
  the model, errors as `compile_error!`), at the level of `proc_macro2` token
  streams, and a small line-numbering demo.
- `tests/` runs the macros on the inputs of the documentation.
