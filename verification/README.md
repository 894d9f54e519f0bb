# thor

Reader for Thor patch lists (`plist.txt`) and Thor patch archives, verified with Verus.

- `src/` is the library. `patch_list` and `text` read patch lists. `header`, `table`, `entry`,
  `entries` and `container` describe and parse the archive format, on top of `bytes` and `error`.
  `archive` gives access to the files of an archive. `laws` states what holds of the format as a
  whole.
- `windows_1252` and `zlib` call the crates `encoding` and `flate2`. What is taken for granted of
  these calls is stated there, and of a few functions of the standard library in `text`, `header`
  and `entry`.
- `app/` opens archives through `std::io`.
- `tests/` runs the library on concrete archives and patch lists.

An archive is only handed to the parser if `is_within_bounds` holds of it: its file count field is
not 0 and its table does not lie past its end.
