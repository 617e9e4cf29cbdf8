# aur_updater

Keeps AUR package directories up to date: it reads `packages.toml`, learns the newest
upstream version of each package (GitHub releases, the npm registry, or a git branch),
rewrites `pkgver` (and optionally resets `pkgrel`) in each `PKGBUILD`, and regenerates
checksums and `.SRCINFO`.

## Layout

- `src/` is the verified library (Verus):
  - `text.rs`, `lines.rs`: character and line operations with specifications;
  - `pkgbuild.rs`: reading and rewriting the `pkgver=` / `pkgrel=` lines;
  - `config.rs`: the package settings and their validation rules;
  - `sources/`: version normalization, GitHub release selection, npm and git versions,
    version templates such as `r{rev}.{sha7}`;
  - `arch.rs`: what tool lookups mean for an update;
  - `updater.rs`: package selection, summaries, and the update run as a state machine that
    decides each next action (read, fetch, write, regenerate) from the answer to the last.
- `app/` is the command-line program: argument parsing, TOML and JSON decoding, files,
  processes, HTTP, logging, and the loop that performs the actions the library asks for.
- `tests/` exercises the library on concrete inputs.
