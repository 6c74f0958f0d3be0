# recovery

Crash recovery for text buffers: full snapshots are kept in separate files, found again after a
crash, claimed, adopted and cleaned up. The library decides; it is verified with Verus. It does no
input or output itself.

- `src/paths.rs`, `src/bytes.rs`: Unix paths as bytes. Paths are compared and taken apart by their
  components, and no unit of a path is ever lost.
- `src/config.rs`, `src/directories.rs`: the settings, and the directories that they name.
- `src/text.rs`, `src/snapshot.rs`, `src/format.rs`: a snapshot of a buffer, and the file that holds
  it: a magic string, the length of a header, the header, and the text in UTF-8.
- `src/names.rs`, `src/files.rs`: the names of files, which files are accepted, and owned files.
- `src/resolve.rs`, `src/resolve_laws.rs`: resolving the path of an original, one question about the
  file system at a time, and what a resolved path is.
- `src/swap.rs`, `src/work.rs`, `src/model.rs`: the files that one buffer owns. A write or a close
  asks for one action at a time and takes what came of it; `model.rs` states each step.
- `src/claim.rs`, `src/discovery.rs`, `src/search_laws.rs`: claiming a file, finding the files of an
  original, and that what a write published is found again.
- `src/state.rs`: when snapshots are taken.
- `src/laws.rs`, `src/contents.rs`, `src/schedule_laws.rs`: what holds of whole writes and closes and
  of the schedule, whatever the file system answers.

`app/` performs the actions on a Unix file system with real files, locks, timers and workers, and
holds the JSON form of the header and of the settings. It hands the library the expansion of `~`,
the normalization of paths and the state directory of the surrounding program.

The tests run the library on a small file system in memory.
