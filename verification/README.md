# django_rusty_templates filters

The filters of a Django template engine written in Rust, verified with
Verus: what each filter makes of text, integers and booleans, with
contracts that state the result exactly.

- `src/filters.rs`, `src/types.rs`: the filters and their arguments as the
  parser builds them.
- `src/render/filters.rs`: the text transformations (`addslashes`,
  `escapejs`, `cut`, `center`, `capfirst`, `title`, `wordcount`, `yesno`,
  HTML escaping, `join`, `slugify`, `wordwrap`) and the specifications they
  meet.
- `src/render/resolve.rs`: what each filter resolves a value to.
- `src/render/laws.rs`: properties proved of the filters for every input.
- `src/text.rs`: character classes, UTF-8 widths, splitting, joining and
  words, with their lemmas.
- `src/unicode.rs`, `src/integer.rs`: the calls into `std`'s Unicode tables,
  `unicode-normalization`, `html-escape` and `num-bigint`, each behind a
  contract.
- `app/lib.rs`: the Python side (pyo3): Python objects and floats, the
  filters that call Python (`date`, `last`, external filters), and the
  dispatch over `FilterType`.
