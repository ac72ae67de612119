# dbpx

DBPX is a small deterministic lossless raster image format: a 28-byte
little-endian header, a `PXLS` chunk holding the pixel payload (raw,
run-length or indexed) and a closing `END!` chunk, each chunk protected by
a CRC-32. This crate is its encoder and decoder, verified with Verus.

## Layout

- `src/` — the verified library.
  - `types.rs`: colour types, compression modes, format constants.
  - `image.rs`: images, header information, the shape rules.
  - `error.rs`: error kinds and their messages.
  - `bytes.rs`: little-endian field readers and byte writers.
  - `crc.rs`: CRC-32 and the facts that make it detect a changed byte.
  - `pixel.rs`: RGBA pixels, packing to each colour type, RGB output.
  - `rle.rs`, `indexed.rs`: the two compressed payload codecs.
  - `payload.rs`: payload per compression mode.
  - `container.rs`: header, chunks, `encode`, `encode_auto`, `decode`, `info`.
  - `ppm.rs`: binary PPM input and output, and the demo image.
  - `samples.rs`: the images of the codec comparison corpus.
  - `laws.rs`: whole-codec properties (decoding inverts encoding, trailing
    bytes and any changed byte of a chunk's type, CRC or payload are
    refused, and more).
- `tests/` — tests run against the compiled library.
- `app/` — the `dbpx` command-line tool: argument handling and file I/O
  (`info`, `check`, `dump`, `enc-ppm`, `dec-ppm`, `make-demo`, `bench`, and
  `corpus`, which prints the codec comparison over the sample images).

Every public function states in its `ensures` clause exactly what it
returns, in terms of spec functions such as `encode_spec`, `decode_spec`
and `parse_spec`, including which error each malformed input gives.
