# xfbin

Reading and writing XFBIN containers (`NUCC` files), verified with Verus.

- `src/nucc/xfbin.rs` — the container format as spec functions over bytes,
  and the reader and writer proved against them.
- `src/nucc/xfbin_roundtrip.rs` — what reading and writing keep: a written
  file reads back unchanged, every file read is well formed, pages are read
  one after the other, and data cut short after the chunk table keeps its
  complete pages.
- `src/nucc.rs`, `src/nucc/nucc.rs` — structure information and chunk payloads.
- `src/xfbin/structure/`, `src/xfbin/xfbin_reader.rs` — a layout whose chunks
  carry their type name as text, its reader (pages closed by the chunk with
  chunk map index 2) and type-name lookups.
- `src/structure/` — a layout with tagged chunk payloads, its reader and
  lookups.
- `src/nucc_chunk/`, `src/dlc.rs`, `src/utils.rs`, `src/page.rs` — smaller
  records and their byte formats.
- `app/` — file and JSON input/output around the library.

Only the chunk payloads listed in `src/nucc_chunk.rs` have typed forms here;
the payloads of the other chunk types are kept as bytes.
