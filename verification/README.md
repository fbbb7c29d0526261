# panea

The verified core of the Panea terminal, written in Verus. The library's own
functions in `src/` carry contracts that Verus proves; the few calls into the
`image` and `unicode-width` crates and into std's hashing, UTF-8 check and
`Arc` go through
small wrappers marked `#[verifier::external_body]`, whose contracts are trusted
rather than proved and whose doc comments say what they claim.

- `src/` — the library. The multiplexer (`mux`, `mux_model`, `split_tree`,
  `mux_restore`, `keyed`), rendering contracts and planning (`render_core`,
  `renderer`, `planner`, `batches`, `glyph_placement`, `batch_raster`, `cpu_raster`,
  `schedule`, `damage`, `damage_tracker`, `raster`, `atlas`, `glyph_cache`,
  `fonts`, `ppm`, `fixtures`), cursor assets and effects
  (`cursor_assets`, `cursor_fx`), and the desktop rules (`platform_core`,
  `desktop`, `input`, `text`).
- `app/` — the desktop side around it: clipboard, notifications, URL
  launching, the battery provider, decoding threads, and the parts that
  compute with floating point (split ratios and layout, cell metrics,
  screenshot verdicts).
- `tests/` — tests of the library's public functions.
