# lagent

A `systemctl`-style manager for macOS LaunchAgents, as a verified library
(`src/`) and a thin command-line program around it (`app/`).

- `src/agent.rs` — finding an agent by plist file name or by its `Label`.
- `src/commands.rs` — what each command decides: the rows of `list`, the
  status of an agent, and the ordered steps of `enable`, `disable`, `start`,
  `stop`, `restart` and `reload`.
- `src/launchctl.rs` — the `launchctl` command lines, the reading of
  `launchctl list` output, and the errors of failed runs.
- `src/plist_doc.rs` — the part of a property list the library reads, parsed
  by the `plist` crate.
- `src/scope.rs` — user or system LaunchAgents directory, and the root check.
- `src/state.rs` — the SHA-256 of each plist, stored to skip needless reloads.
- `src/validate.rs` — the launchd schema check.
- `src/text.rs` — trimming, line splitting, number parsing and formatting,
  path joining, on character sequences.

`app/` reads the directory and the environment, runs `launchctl`, `plutil`
and `id`, keeps the hash files, and prints.
