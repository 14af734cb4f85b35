# media_browser

The core of a desktop media browser, with its behaviour stated as contracts
and proved.

- `src/` is the library: the clipboard and the bookkeeping of a paste
  (`file_ops`), the sequence of distinct names tried for pasted entries
  and new folders,
  the navigation history (`history`), the selection (`selection`), the
  order of a directory listing (`sort`, `listing`), the folder tree
  (`tree`, `drives`), size and type labels (`format`), thumbnail cache
  bookkeeping (`thumbnail`), what std's `Path` says of a path (`paths`),
  and the window state with the decisions taken on clicks, drags, keys
  and navigation (`browser`).
- `app/` is the program around it: the egui window, the file system
  (listing, copying, moving, trash, renaming, folder creation), the disk
  list and the thumbnail workers. It hands the library plain values and
  carries out what the library decides; the paste loop asks the library for
  each next source and reports back, the probing of those names for a free
  one and the check that a typed path exists before going there are made
  on disk, in `app/`.
- `tests/` exercise the library on concrete values.
