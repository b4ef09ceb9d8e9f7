# bevy_mod_scripting_derive (Lua generators)

The Lua half of the bindings generator for scripting Bevy types: given a
plain-value description of the newtype declarations (`src/model.rs`), it
writes the Rust source of the wrapper aliases, their `TealData`
implementations, the metamethods that derive flags ask for, the union
argument types those metamethods dispatch on, and the global API table.

Every generator is verified with Verus against a specification of the exact
text it produces:

- `src/unions.rs` — the generator state and union registration.
- `src/newtype_gen.rs` — per-newtype items.
- `src/derive_flags.rs`, `src/binops.rs` — derive flag methods.
- `src/globals.rs` — the global items.
- `src/text.rs` — text helpers; `src/name_set.rs` — `indexmap::IndexSet`;
  `src/tokens.rs` — lexing into `proc_macro2` tokens.

The methods registered so far stay an `indexmap::IndexMap` from wrapper
name to methods (`src/method_table.rs`), and operators are grouped in an
`indexmap::IndexMap` from operator key to the operators' positions
(`src/group_map.rs`), in order of first appearance.
Which texts are identifiers follows `unicode-ident` (`src/idents.rs`).

`app/` reads `syn` syntax into the model and hands the text back to the
compiler as tokens.
