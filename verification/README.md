# ssh-quick-connect

A small command-line tool that lists the SSH machines of a TOML configuration,
lets one pick a machine (by terminal menu, or by `--connect <name_or_id_or_fragment>`)
and starts `ssh` with the right arguments.

Layout:

- `src/` — the library, verified with Verus:
  - `config.rs`: the configuration types, `validate_config`, the file-safety
    decision (`verify_config_security`) and where the file is looked for
    (`config_path_components`);
  - `ui.rs`: connection labels, the numbered list, and `find_connection`;
  - `ssh.rs`: the `ssh` destination and argument list;
  - `cli.rs`: command-line parsing, selection by query, and the steps of a run
    (`after_config_ensured`, `action_for`);
  - `text.rs`: the text operations these rely on (white space, trimming,
    ASCII case folding, substring search, decimal numbers, joining).
- `app/main.rs` — the program: environment, files, terminal menu (`dialoguer`),
  TOML parsing (`serde`, `toml`) and running `ssh`.
- `tests/` — tests of the library.
