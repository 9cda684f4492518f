# idlescreen_packages

Tools for the IdleScreen package repository and its installer, with the
decisions proved in Verus.

- `src/` is the verified library: version ordering (strict semver with an
  alphanumeric fallback), `.deb`/`.rpm` filename parsing, pool paths and
  path safety, prune selection, `.rpmmacros` generation, the installer's
  wording, survey, repository setup, deploy steps and service start, and
  the decisions of the prune, sign and update tools (the KEEP argument,
  how `rpmsign` is obtained, how the RPM index is built, and the
  fail-closed signing policy). Each public function states its result
  over spec functions; `law_*` proof functions state what holds across
  calls (ordering laws, round trips, prune never leaving the pool, the
  service start always ending).
- Package groups for prune are a `Vec` of `(name, files)` with distinct
  names rather than a `HashMap<String, _>`: vstd's `HashMap` specification
  is usable only for keys whose equality and hashing it models, which does
  not cover `String` keys, so nothing could be proved through it. The
  groups come out in order of first appearance.
- `tests/` runs the library on fixed cases and on generated inputs.
- `app/` is the program around it: `install`, `prune [--dry-run] [KEEP]`,
  `sign` and `update` subcommands that read the host, run the package
  managers and GPG, and move or remove files.

Verification: `verus` on `src/lib.rs`. The only trusted items are the
wrappers of `char::is_alphanumeric` and `char::is_whitespace` (their
results named `unicode_alphanumeric` and `unicode_whitespace`) and the
specification of `String::push`.
