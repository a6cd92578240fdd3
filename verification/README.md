# galvanizer

A deduplicating, compressing backup tool. Files of the configured backup roots
are stored once per distinct content, under the URL-safe base64 SHA-512 hash of
that content, compressed in the Snappy frame format. Each backup writes a
snapshot that records, for every file of every root, the hash of its contents
and its modification time; a restore puts the files of a snapshot back.

Layout:

- `src/` is the library, verified with Verus: configuration, path arithmetic,
  the snapshot model, the content store, the decisions of the backup walk, the
  restore walk and pruning.
- `app/` is the command line program around it: argument parsing, reading and
  writing files, the configuration and snapshot files, and the worker threads.
- `tests/` exercises the library on concrete values.
