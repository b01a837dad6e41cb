# meltos_tvc

A small version control system for a shared workspace: files under
`/workspace` are staged, committed on branches, pushed to a remote as
bundles, and merged. The repository keeps its data below `.meltos`:
compressed objects (files, deletions, trees, commits) named by the SHA-1 of
their encoding, branch heads, local commits, traces (the tree of every file
as it stood after a commit), the staging tree and the checked-out branch.

The library is written in Verus. Every function states its behaviour in
`requires`/`ensures` clauses over a model of the storage (`FileSystem`, whose
contents are a map from path segments to entries) and of the objects, and
Verus proves the code against them.

Layout:

- `src/path.rs`, `src/assoc.rs`, `src/encode.rs`: paths as segments,
  association lists, and the length-prefixed framing of object encodings.
- `src/file_system*`: the storage trait with its contracts, an in-memory and a
  mock file system proved against it, and a view of a file system below a
  path prefix. A file system that is `fs_exact` (the in-memory and the mock
  ones) fails a call only where its contents stand in the way; most
  operations state, for such storage and readable data, when they owe
  success (the listing of changed workspace files does not; see its
  documentation). A file system that does not model its contents (the one
  over `std::fs` in `app/`) keeps the trait's defaults: `fs_inv` is `false`,
  so no call of the library on it meets a `requires`, and none of the
  library's guarantees carry over to it.
- A remote (`Pushable`) that keeps the record `sent` of what it was handed
  says so by `obeys_push_spec`; for such a remote a push states that it was
  handed exactly one bundle, the push bundle of the branch. A remote that
  keeps the default says nothing, and nothing is stated of what it got.
- `src/object*`: the objects, their encodings and the laws that decoding an
  encoding gives the object back.
- `src/io*`: where each kind of data lives (`io/layout.rs` proves that the
  directories do not overlap, so each write leaves the other kinds of data as
  they were), and reading and writing heads, objects, traces, local commits,
  the staging tree and the workspace.
- `src/operation*`: init, stage, unstage, commit, checkout, new branch, merge,
  push, save and restoring the workspace.
- `app/`: the parts that use the host: a file system over `std::fs`, and JSON
  forms of bundles.
