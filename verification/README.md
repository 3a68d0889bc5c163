# binpare

Compares two binary files side by side. One file can be moved against the
other, and offsets at which the two look alike are suggested.

- `src/` is the library: loading state (`file`, `state`, `app`), match scores
  (`score`), offset suggestions and their order (`candidates`, `ranking`), the
  hex view (`hexview`, `text`) and what stands around it (`view`). Every
  function is verified with Verus against its contract; `laws` holds what is
  proved of the library as a whole.
- `app/` is the window: drawing, file dialogs and reading files.
- `tests/` runs the library on concrete files.

Scores are exact ratios of agreeing to compared bytes; the window turns them
into decimal numbers for display.
