# silo

Silo keeps a set of source folders mirrored to one destination folder with
rsync, and reports what the silo holds: its total size, file statistics, and
how the space splits by file type.

The library in `src/` holds the logic, verified with Verus:

- `config`: the settings tables (source folders, exclude patterns, rsync
  destination) and their operations.
- `scan`: the record of one folder tree as the program read it.
- `silo_size`: exclude matching, folder and silo sizes, size labels.
- `silo_analysis`: the walk of a folder, its statistics, and the per-extension
  breakdown.
- `folder_size`: the size label of one source folder.
- `sync_engine`: plan checks, rsync command lines, output lines, outcomes.
- `calendar`: the Gregorian calendar model behind the dates shown.
- `status_format`, `display`, `progress`: the texts shown to the user.
- `dialogs`: the state the dialogs keep.
- `desktop_entry`: the launcher entry of the AppImage.
- `text`, `numbers`, `words`, `paths`: text helpers.

The program in `app/` reads and writes the SQLite settings database, reads
folder trees, runs rsync, and prints the results on the command line.

## Notes

- Failure policy: only a source folder that is missing, not a directory,
  or unreadable ends a walk with an error. Anything below it that cannot
  be read (a directory that cannot be listed among them) is skipped by the
  silo size, recorded in the analysis' scan errors, and, for the size of a
  single folder, returned as the first failure once the whole walk is over.
- The per-extension groups are kept in a `Vec` searched by extension,
  not in a `HashMap` keyed by the extension text: vstd specifies the std
  maps for keys whose equality it knows, and with `String` keys it proves
  next to nothing about `insert` or `get`. With the `Vec` every group, its
  count, and its bytes are proved, and the order of the result is decided
  by the sort alone, not by how a map is walked.
