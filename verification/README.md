# b2

A small note keeper. Notes live under `<data_dir>/flow/YYYY/MM/DD/` as
`YYYYMMDDTHHMMSSZ.md` (the id is the UTC creation time) with a `.json`
metadata file beside them. The configuration file
`$XDG_CONFIG_HOME/net.bouzuya.rust-sandbox.b/config.json` holds `data_dir`
and `time_zone_offset`.

- `src/` is the library, verified with Verus: configuration values
  (`config`, `command::config`), note ids and paths (`flow`), the listing
  range, filter and lines (`command::list`), the stamps of a new note
  (`command::new`), and the date/time renderings (`datetime`, `text`).
  Parsing of dates and offsets, and turning a timestamp into a date and
  time, are done by `chrono`, behind trusted wrappers.
- `app/` is the command line: argument parsing with `clap`, the
  configuration file (`xdg`, `serde_json`), the directory walk (`walkdir`),
  file access and the editor.
