# rsmdf

Reading the blocks of ASAM MDF 4 measurement files (the identification, header,
file history, source information, metadata, data, compressed data, data list,
header list and data values blocks), with contracts proved by Verus.

- `src/` is the library. Every block is read from a byte slice at a position, in
  either byte order; each `read` states exactly which bytes it accepts and which
  values it gives back. Compressed data blocks are decompressed with `flate2`.
- `app/` is a small program that prints what the identification block of a file
  says, and holds what deals with floating point numbers (the samples of a channel).
- `tests/` runs the library on byte strings written out by hand.

## Behaviour worth knowing

- Reading the identification block where the first eight bytes are not `MDF     `,
  the file history block where the identifier is not `##FH`, or the source information
  block where it is not `##SI`, returns an error that says so; it does not panic. Every
  block read returns an error of this kind, and the contracts state its text.
- A block header keeps its length in bytes 8 to 16, after four reserved bytes, as every
  block read of this crate and the MDF 4 layout have it. Bytes that put the length at
  byte 4, right after the identifier (as the cases `test_block_header` and
  `test_md_block` do), follow another layout: no reader takes them together with file
  history and source information blocks in the standard one, so those two cases are not
  among the tests. `header_reads_little_and_big_endian` and
  `md_block_reads_text_before_zero` make the same checks on the standard layout.
