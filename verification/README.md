# rosin_core

The core logic of the Rosin UI toolkit, verified with Verus.

- `src/` is the verified library: pointer button sets, node ids and keys, string
  interning, generational handles, dependency tracking of reactive variables, the
  completion of formatted numbers, translation files made from Fluent text, and the
  CSS machinery — selector lists and rule preludes, rule indexes and specificity
  order, selector matching with an ancestor filter, the styling walk's decisions over
  dirty regions (where a region starts, how it grows, when it ends), the tokens of
  values and preludes, the split of a rule block into variables and declarations,
  the structure of shadow lists, variable scopes, keyword declarations and `var()`
  expansion. Calls into `cssparser`, `qfilter` and `fluent_bundle` go through small
  trusted wrappers whose contracts are stated next to them; what `cssparser`'s
  tokenizer reads at a position is a named function, over which the token lists are
  stated exactly.
- `app/` is ordinary Rust around the library: global counters and the global
  interner, reading stylesheet and translation files (`cssparser` drives the rule
  lists through parser traits implemented there), the loop of the styling walk, which
  performs the library's steps and calls back the caller to apply the matched
  declarations, and the floating-point part of the `NUMBER()` function of
  translations.
- `tests/` runs the library on concrete values.
