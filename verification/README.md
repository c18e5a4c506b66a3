# Lighthouse

Port awareness for local development: what is listening on the machine, who
owns each port according to the `PORTMASTER.md` registries, which ports the
projects under the home directory configure, and where these claims conflict.

## Layout

- `src/` is the verified library. Every function there carries a contract that
  Verus proves, except the few trusted wrappers around `regex` and
  `String::push`, whose contracts Verus takes as given.
  - `scanner.rs` parses the socket listings of `lsof -F pcRn`, `ss -tlnp` and
    `netstat -ano`, the port mappings of `docker ps`, and answers whether one
    port is in use.
  - `portmaster.rs` parses `PORTMASTER.md` tables, plain `port: service` lines
    and allocation ranges, and combines several registries (a later file
    overrides an earlier one for the same port).
  - `projects.rs` finds the ports that `.env`, compose, `package.json`, Vite,
    Next.js and `Cargo.toml` files ask for.
  - `resolver.rs` detects conflicts (clashing live sockets, project settings
    against live sockets, clashing project settings) and suggests ports that are
    neither live nor declared; `owners.rs` adds the registry conflicts (one port
    declared twice in a file for different owners, and a live process that is
    not the declared owner); `merge.rs` builds the merged view of live,
    declared and configured ports.
  - `config_editor.rs` previews and applies a port change on one line of a
    configuration file: the matched port is replaced where it stands, and the
    rest of the file, line endings included, is kept.
  - `state.rs` records a scan or a monitoring round in the application state.
  - `text.rs`, `number.rs`, `sorting.rs` and `listing.rs` hold the string,
    number and ordering operations the parsers rely on, stated over `Seq<char>`.
  - `pattern.rs` is the boundary to the `regex` crate: what the engine matches
    is named by uninterpreted spec functions, and the library's parsers are
    proved against those names.
- `tests/` runs the library on concrete inputs.
- `app/` is the `lh` command line and everything that touches the machine:
  running the listing commands, walking directories, reading and writing files,
  the five-second monitoring loop and the serializable copies of the records.

## Command line

```
lh list                 # listening ports, sorted by port
lh check <port>         # is the port in use? suggests the next free port up to 65535
lh suggest <start> <end> # first port neither in use nor declared
lh portmasters          # the PORTMASTER.md files found
lh projects             # the ports that project configuration files ask for
```
