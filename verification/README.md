# vortex_regex

Matching columns of strings against regular expressions, verified with Verus.

- `scalar_fn`, `options`, `wire`, `execute`: the match itself, its encoded
  options, and the default way to execute it.
- `literal_shape`, `text`, `utf8`: patterns that are nothing but a literal, and
  the bounds that rule such a pattern out.
- `kernel`, `dict`, `compressed`: matching dictionary-encoded and FSST-compressed
  arrays on their encoded form.
- `mask`, `layout`: which rows of a stored column are read, pruned and filtered.
- `array`, `dtype`, `scalar`, `expr`, `error`: the values that these speak of.

`app/` holds asynchronous readers of stored columns around the library.
