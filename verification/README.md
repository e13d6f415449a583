# lv

A terminal log viewer for PHP applications (SpolsMVC runtime and database
logs, Laravel logs, and plain line logs), with its parsing, duplicate
collapsing, log discovery and viewer state proved correct with Verus.

## Layout

- `src/` — the verified library:
  - `text.rs`: trimming, searching, line splitting and replacing on
    characters, stated over `Seq<char>`;
  - `level.rs`: severity levels, badges, colours, level names;
  - `entry.rs`: log entries and the collapsing of consecutive duplicates;
  - `parse.rs`: the formats, format detection and the four parsers;
  - `logfile.rs`: a loaded log file;
  - `discovery.rs`: project root, which directories are searched, and the
    order of the logs found;
  - `viewer.rs`: the viewer state, the search filter, every key action and
    the reload of the open file;
  - `display.rs`: the rules behind detail-line styles, picker names and
    status-bar hints;
  - `labels.rs`: the list and detail titles, list rows cut to the width of
    the list, and the names and counts of the file picker.
- `app/main.rs` — the program: arguments, reading files and directories,
  the terminal (crossterm, ratatui), the event loop and the drawing.
- `tests/` — tests of the library on concrete inputs.
