# Wifly

The logic of Wifly, a Linux desktop application that turns the computer into a
Wi-Fi hotspot (through NetworkManager) and serves files to phones over HTTP,
written in Verus with its contracts proved.

- `src/` is the verified library:
  - `text.rs`: characters, lines, words, trimming and matching;
  - `format.rs`: decimal numbers, human-readable sizes, HTML escaping, file icons;
  - `paths.rs`: Unix path components, equality, prefixes, names and joining;
  - `platform.rs`: clock, random identifiers, file-name sanitising, lossy UTF-8;
  - `state.rs`: the server state (shared files, devices, transfer totals) and its laws;
  - `server.rs`: the phone page, upload targets and chunk handling;
  - `hotspot.rs`: the `nmcli`/`ip` commands, how their output is read, and the
    step functions that start and stop the hotspot.
- `app/` is the Tauri desktop application and the actix-web server: it runs the
  commands, does the file and network I/O and serialises the library's values.
- `tests/` exercises the library on concrete values.
