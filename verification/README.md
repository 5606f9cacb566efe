# ckbackup

A Borg backup runner for Windows (Borg under Cygwin, with volume shadow
copies), split into a verified library and a thin program.

- `src/` — the library, verified with Verus:
  - `cygpath`: Windows path reading (prefixes, roots, components), conversion
    to `/cygdrive/...` paths, parent directories;
  - `config`: the configuration types, TOML parsing and its diagnostics;
  - `backup`: the Borg commands of the backup steps and the `bash` invocation
    that runs them;
  - `vss`: the drive letters to shadow, the free letters to mount them on, the
    `vshadow` script, and the step-by-step setup of shadow copies;
  - `bootstrap`: the steps that install Cygwin and Borg;
  - `text`: string helpers.
- `app/` — the program: command line, logging, files, processes, network,
  Windows calls, and the decoding of the TOML table.
- `tests/` — tests of the library.
