# upi

Universal Package Installer: turns a generic package name (`ripgrep`,
`node`, `ffmpeg`) into the install command of the package manager of the
operating system, and runs it.

The library (`src/`) is written and proved with Verus. It holds:

- `os`: the operating-system types, the package-manager configurations and
  their registry (lookup by OS, Repology repository names, `--os` names),
  loading of the platform definitions, and environment-variable expansion
  in binary paths;
- `exec`: install commands built from the configuration templates;
- `fallback`: the parser of package managers' search output;
- `resolver`: aliases, the resolution pipeline and the candidate search as
  step-by-step machines, "did you mean" suggestions, command assembly;
- `repology`: Repology's data, the cache of its responses, and the
  decisions of a resolution through it (memory, fresh disk cache, network,
  stale disk cache);
- `seed`: the decisions of the seed-database updater;
- `db`: the seed database's lookups (by package, alias and OS) and its
  search, over the rows read from the seed file;
- `cli`, `color`, `error`, `text`: the front end's decisions, terminal
  colours, errors, and character-level string operations.

`app/` is the `upi` command: argument parsing, reading the seed database
file (`~/.upi/db/seed.db`), the HTTP client, the disk cache, running the package managers, terminal output and the floating-point
fuzzy scores, which the library receives as order keys.
