# linuxy

A manager for AppImages, Debian and RPM packages and plain executables on
Linux: installation into `~/.local`, a library listing, launching (optionally
inside a Firejail sandbox), removal, storage figures and cleanup, library
backups, delta updates and a download-folder watcher. It runs on Linux
only. From the command line: `linuxy install <path|url>`, `linuxy list`,
`linuxy launch <name>`, `linuxy remove <name>`, or a package path.

## Layout

- `src/` — the verified library (Verus). Every decision the manager makes
  stands here with a contract over mathematical models of the texts and
  records involved:
  - `text`, `path`: character-level text operations and Unix path text, each
    with an exact specification.
  - `installer`: source validation, ELF check, package-manager selection,
    icon placement, names of scratch files.
  - `desktop`: rewriting a bundled desktop entry for installation, reading
    entries back, switching the sandbox on and off, backup entries.
  - `manager`: listing records, launch plans, removal targets, storage
    figures and cleanup selection, backups.
  - `updater`, `downloader`, `watcher`, `cli`, `locations`.
  Public `law_*` proof functions state properties that span several
  operations (for example that a restored entry reads back as saved, that a
  cleanup deletes what the analysis counted, that a download is announced
  once it holds still).
- `tests/` — tests on concrete values; text and path operations are also
  compared with `std`.
- `app/` — the program around the library: file system, processes, HTTP,
  JSON backups and the watcher thread.
