# subprocess

Cross-platform subprocess management with a verified core.

- `src/` — the library, verified with Verus: POSIX shell-word splitting and
  quoting (with the round-trip law `split(join(args)) == args`), Windows
  command-line joining, `/proc` stat parsing and process identity
  (`(pid, start token)`), cgroup v2 file parsing, the identity-aware
  process-tree walk, containment decisions (what to set up before a spawn,
  which mechanism was achieved after it, what a teardown signals), and the
  shutdown machine for foreign processes (`SIGTERM`, grace wait, `SIGKILL`).
- `app/` — the Linux runtime around it: `Command`, `Child`, `Stdio`, pipes
  and pumps, `/proc` reads, signals, cgroup leaves and `pidfd` waits. It makes
  each decision by calling the library and carries out the work.
- `tests/` — the library's tests.
