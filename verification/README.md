# clipdeck

A clipboard manager and launcher for Linux. The crate's library (`src/`) is
written in Verus and holds the parts that decide things:

- `storage`, `storage_laws`: the clipboard history and shortcut tables
  (auto-increment ids, de-duplication by content, pinning, eviction down to a
  cap, listing order) and what those operations promise together;
- `clipboard`: the monitor's capture decision, recording a capture, and what
  the window does with each background message;
- `settings`: default settings and the sensitive-content filter;
- `history`: an entry's preview and relative-time label;
- `search`: fuzzy search over the history, the emoji filter;
- `version`, `updater`: release version comparison and choosing the download;
- `shortcuts`, `commands`, `autostart`, `paths`: the text formats and paths the
  application reads and writes;
- `text`, `numbers`: characters, white space, decimal integers.

`app/` is the program around it: the GTK window, the SQLite file, the system
clipboard, X11, the network and the processes it runs.

## How the tables are kept

`src/storage.rs` implements the query behaviour of the two tables in memory:
`AUTOINCREMENT` id counters, de-duplication by content with a refreshed
timestamp (the insert then reports the id of the refreshed row), listing the
most recent rows newest first under a `LIMIT`, and evicting the unpinned rows
outside the most recent ones. SQLite is only the file format: `app/db.rs`
loads every row and both id counters when the database is opened, and rewrites
the whole changed table after each change, rather than issuing one SQL
statement per operation.

Opening refuses a database whose rows break the tables' invariants: an id that
is not positive or lies beyond the table's counter, ids out of ascending order,
or two history rows with the same content. A file written by this program
never holds such rows.

## Known limits

- The configuration and data directories are turned into UTF-8 strings; a
  directory name that is not valid UTF-8 is converted lossily.
- The emoji picker's table in `app/data.rs` holds a small selection of emoji;
  the search over it is the verified `search::filter_emoji`, which matches the
  characters of the query in order within an emoji's lower-cased name or tags.
- Times come from the system clock as seconds since the Unix epoch. When the
  clock reads before the epoch a capture or a new shortcut is refused with
  `StorageError::ClockUnavailable`, and an entry's relative-time label is
  empty.
