# alembic_core

Reading and writing Alembic archives in the Ogawa container format, with
the format's logic verified by Verus.

An Ogawa file is a 16-byte header followed by *data blocks* (an 8-byte
size and the bytes) and *groups* (an 8-byte child count and 8-byte child
offsets, the top bit telling data from group). An Alembic archive lays out
its objects, properties, samples, time samplings and metadata tables in
these groups and blocks.

## Layout

- `src/` — the verified library.
  - `ogawa/format.rs`, `ogawa/le.rs`: offsets, header constants,
    little-endian encoding.
  - `ogawa/reader.rs`: groups and data blocks read from a file's bytes.
  - `ogawa/read_util.rs`: decoders of property headers, object headers,
    the indexed metadata table and the time sampling table.
  - `ogawa/archive_reader.rs`: an archive's root layout, objects, property
    readers and sample access.
  - `ogawa/writer/`: the archive writer. `image.rs` is the in-memory file
    (blocks, groups, sharing of identical samples, time samplings);
    `samples.rs` decides which samples of a property are stored;
    `archive.rs` writes properties, objects and the archive root;
    `headers.rs` encodes the header blocks; `schema/` builds the objects
    of the geometry schemas; `roundtrip.rs` and `time_table.rs` hold the
    laws that what is written reads back: data blocks, groups, property
    and object header encodings, the metadata and time sampling tables,
    the root layout of a frozen archive and its object children. A reader
    accepts a frozen archive's file and root layout and its root object
    group reads (`lemma_written_archive_readable`). The samples of a
    written property are tied to the groups that list them, but reading
    them back through the archive reader is not proved. `room.rs` bounds
    how many bytes each part of an archive takes, which says when writing
    an object or a whole archive is owed to succeed.
  - `util/`: data types, metadata, dimensions, errors and text helpers.
- `tests/` — tests run against the compiled library.
- `app/` — what stays outside the verified library: files and memory maps,
  the SpookyHash fingerprints of samples and objects, floating-point
  geometry (bounds, matrices, time samplings) and the error type with
  its messages.

Floating-point values cross into the library as their bit patterns, and
hashes as the two 64-bit words of each digest.
