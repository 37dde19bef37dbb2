# RepoHarbor core

RepoHarbor is a dashboard for a fleet of local git repositories: it scans
configured roots, shows each repo's git state, forge metadata (stars, topics,
CI), an attention list of what needs doing, AI summaries and commit messages,
and desktop integrations (tray, notifications, KRunner).

- `src/` is the verified library (Verus). It holds the decisions and the
  data: repo scanning rules, README and `.gitmodules` parsing, the attention
  model and its ranking, fleet-operation reports, the forge/inbox response
  shaping, OAuth device-flow states, prompts and model-output parsing, the
  semantic-index chunking and signatures, the cache's freshness rules, path
  handling, and the tray/notifier/KRunner/watcher logic. Public proof
  functions named `law_*` state properties that span calls.
- `tests/` runs the library on concrete inputs.
- `app/` is the unverified shell around it: SQLite, libgit2, HTTP, the
  filesystem, processes, D-Bus, and the floating-point vector ranking.
