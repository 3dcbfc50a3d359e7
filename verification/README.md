# ezlz

A compact internationalization library. Translation files (YAML) are flattened
into dotted keys, each translation string is compiled once into a template of
text, placeholder and plural-placeholder parts, and templates are rendered with
named arguments, looking a key up in the requested locale and then in the
fallback locale.

The library under `src/` is verified with Verus:

- `plural` — plural placeholder bodies `id|selector:text|...|text`: selector
  parsing, rule matching on the truncated absolute value, rendering.
- `template` — escaping (`\{`), placeholder parsing, compilation into parts,
  the buffer size estimate, rendering.
- `store` — the tables of all locales (held in `ahash` maps), flattening of a
  YAML tree into keys, loading a locale, lookup with a fallback.
- `arg`, `number` — arguments and their text (integers through `itoa`).
- `yaml` — the tree that `serde_yaml` parses from a document.
- `error` — loading errors and their messages.
- `laws` — properties of the library as a whole.

`app/` holds what stays outside the verifier: reading the locales directory,
the global store behind `init`, the `t!` macro, and floating-point arguments
(formatted with `zmij`).
