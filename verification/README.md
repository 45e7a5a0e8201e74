# analemma — verified balanced-ternary core

Balanced-ternary (−1, 0, +1) arithmetic and data structures, written in
Verus: every operation carries a contract over the integer value of its
trits, and Verus proves the code against it.

Layout of `src/`:

- `trit.rs` — the digit `Trit` and the full adder.
- `balanced.rs` — spec functions (`trits_value`, `bal_mod`, shifts, parity)
  and the lemmas the word types rest on: value ranges, uniqueness of the
  balanced representation, the effect of shifts.
- `digits.rs` — executable kernels on fixed-length trit arrays (conversion,
  ripple-carry addition, negation, shifts, scans).
- `tryte.rs`, `word.rs`, `dword.rs` — the 6-, 18- and 36-trit numbers.
- `ternary_array.rs` — sparse arrays of one to four dimensions with
  possibly negative index bounds.
- `table.rs`, `tryte_table.rs` — the substitution table of the six-trit
  width, with its rendered strings.
- `laws.rs` — properties that span several operations.

The tests under `tests/` run the library on concrete values.
