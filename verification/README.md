# parquet_demo

A small toolkit around the Thrift compact protocol and the Parquet file
format, with its logic verified by Verus.

- `src/` is the verified library:
  - `varint`, `compact`: the compact protocol's varint and zigzag encodings
    and a hand-written encoder for the `User` / `UserCollection` structs;
  - `user_thrift`: the same `User` and `UserCollection` structs written
    through the Thrift library's own compact protocol;
  - `reader`, `summary`: the `PAR1` magic, the footer length and the
    Thrift-encoded file metadata;
  - `decoders`, `pages`: decompression, plain and RLE/bit-packed hybrid
    decoding, and the walk over the pages of a column chunk;
  - `metadata`, `json`: the JSON views of the file metadata, of a row
    group and of a page header (with hexadecimal statistics), and the
    base64 Arrow IPC schema kept in the key-value metadata;
  - `display`: what the demo printer shows of a file;
  - `s3`, `batches`: S3 locations and the row ranges of record batches;
  - `errors`, `format`: the error type and the format enums.
- `app/` is the command-line front end: file and network I/O, printing
  (the library's JSON values handed to serde_json), and the async
  embedding pipelines.
- `tests/` exercises the library on concrete inputs, including Parquet
  files written with the `parquet` crate.
