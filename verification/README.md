# hodgecodec

An audio codec built on a discrete Hodge decomposition of each PCM frame
into a tonal gradient part, a transient (coexact) part and a harmonic DC part.

Layout:

- `src/` — the library, verified with Verus: the Q16.16 fixed-point
  decomposition and its solvers, the `.hodge` header and frame byte formats
  (v1 full precision, v2 block floating point with DPCM, v3 i16/i8 block
  floating point), the zstd container, the LSB watermark with CRC-32, the
  stream mixing rule, frame size accounting and constellation hashing.
  Floating-point values cross the library as their `u32` bit patterns.
- `app/` — the `hodge` command-line program: WAV and file I/O, and the
  floating-point signal processing (Tikhonov/Thomas decomposition,
  quantisation, overlap-add windowing, fingerprints, scores).
- `tests/` — tests of the library on concrete values.
