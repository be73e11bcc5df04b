# photo_desk

The decision logic of a desktop photo-library organizer, verified with Verus:
what kind of file a name is, where a photo goes and what its folder is called,
how names are kept free of clashes, how moves, copies, folder operations and the
trash are planned and checked, how manifests of folder trees are built, and how
a batch of operations is undone.

- `src/` — the verified library. Each public function states its result in
  `ensures` over spec functions; laws that span functions are public proof
  functions (`lemma_*`).
- `tests/` — tests of the library on concrete values.
- Batch operations (trashing, taking out and emptying the trash, moves into
  a folder, transfers, merges, date corrections and their undo, scans) are
  planned in `src/` by `*_plan` functions that take what the disk and
  catalogue say of each photo and give the files to act on and the outcome
  so far; `settle` counts what then happened to those files.
- `app/` — the file-system edges (walking trees, probing and moving files,
  writing sidecars) that hand plain values to the library and carry out its plans.

Outside crates are reached through a few trusted wrappers, each with a doc
comment saying what its contract assumes: `unicode-normalization` (NFC),
`sha2` (SHA-256 of a text), `chrono` (calendar date parsing) and std's
lower-casing.
