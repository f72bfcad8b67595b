# ferumfs

The core of FerumFS, a FUSE filesystem with a write-ahead-logged storage
layer, written in Verus.

- `src/common`: errors, shared types, configuration, operation counters.
- `src/storage`: data blocks with CRC-32 checks, the block allocator and its
  persisted form, the framing and reading of the metadata write-ahead log,
  and replay of log entries in sequence order.
- `src/fuse`: the inode and file-handle tables and the answers to
  attribute, lookup, directory-listing and open requests.
- `app/`: files, the async runtime, bincode encoding of log entries and the
  FUSE session around the library.

Each function states its behaviour in `requires`/`ensures`; the laws that
tie operations together (log read-back, torn appends, allocator reuse,
table updates) are proof functions next to the code they speak of.
