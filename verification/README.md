# easy_file

Uniform access to remote files addressed by paths such as
`s3://key@secret/host/bucket/object`, with a disk cache that keeps a remote
file in 20 MiB nodes, one cache file per node, named by the SHA-256 digest of
the file's modification time, the cache's path, the node number and the file
size.

- `src/` is the verified library: path classification (`dsptype`), S3 path
  parsing, `Range` headers and multipart-upload part planning, the cache's
  node naming with its remembered digests, the decisions of a read through
  the cache (`MemRead`) and of a copy into a local file (`ChunkedCopy`), the
  FTP client, the file cursor and the error messages.
- `app/` holds the input and output around it: the `FileOpt` and `ClientOpt`
  traits, the S3 client over the AWS SDK, the protocol dispatcher `FileType`,
  the loops that read cache files and fetch missing nodes, and `File`.
