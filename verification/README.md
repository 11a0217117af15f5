# backup_sync

The logic of an rsync-based backup tool, written in Verus.

- `src/config.rs`: the configuration, its defaults, `validate` and the error messages.
- `src/path.rs`: paths held as text and read as `std::path` reads them on Unix
  (components, parent, join).
- `src/text.rs`: characters of a string, decimal numbers, the lines of a text.
- `src/sync/precheck.rs`: refusing sources and a destination that lie inside one another.
- `src/sync/rsync_cmd.rs`: the rsync command line for a run.
- `src/sync/error_codes.rs`: the error numbers rsync writes in parentheses (through the `regex` crate).
- `src/sync/rsync_parser.rs`: what a run came to, from its exit code and stderr.
- `app/lib.rs`: the JSON form of the configuration (serde) and `Display` for its errors.
