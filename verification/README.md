# tm25ray

Reader and writer for IES TM-25 ray files (`.TM25RAY`), with every
format decision proved in Verus.

Layout:

- `src/` — the verified library.
  - `le.rs`, `bits.rs`, `text.rs`: little-endian words, `f32` values held as
    bit patterns, UTF-32 strings and the date field.
  - `cursor.rs`, `parse.rs`: the bounds-checked header parser; `parse_spec`
    states which header, or which error, any byte string gives.
  - `prefix.rs`: a header depends only on the bytes the parse read, and
    every shorter prefix is reported as truncated, asking for more than it
    holds.
  - `header.rs`: the header, flags, spectral tables, column layouts and the
    consistency rules.
  - `writer.rs`: the bytes of a header and of a whole file.
  - `roundtrip.rs`, `record.rs`: what is written is read back (headers,
    ray records, whole files).
  - `ray.rs`: ray records, the zero-copy view over a ray block.
  - `reader.rs`: whole files in memory and the decisions of a streaming
    reader.
  - `sample.rs`: the PRNG, Floyd subsampling and reservoir slots.
- `app/` — stream and file I/O, the memory-mapped reader, the error type
  with its messages, and the floating-point parts (angles, spectra
  statistics, flux rescaling, far-field binning).
- `tests/` — tests of the library.
