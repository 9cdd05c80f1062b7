# ghss — GitHub Settings Sync

Compares the GitHub settings of repositories with those of a reference repository and
syncs the differences chosen: default branch, features, pull request settings, rulesets and
classic branch protection.

The library (`src/`) is verified with Verus. It holds the settings model, the diff engine,
the sync planner, the reading of a repository's settings as a sequence of requests, the
request paths and the reading of GitHub's answers, and the decisions of sign-in (the `gh` CLI
output, the OAuth device flow). Each public function states its result in its contract; the
`law_*` proof functions state what holds across functions, such as:

- a repository compared with itself shows no difference, and a target shows none exactly
  when it is in sync with the reference (`diff.rs`);
- the sync writes nothing but the values of the changes chosen, upserts rulesets by name,
  drops bypass actors that the target lacks with a warning, and skips a default branch that
  the target lacks (`sync.rs`); one repository's failure does not stop the others, and the
  audit reports targets in their order (`commands.rs`);
- a normalized ruleset is writable and normalizing is idempotent; a webhook's config never
  holds its secret (`transform.rs`).

`app/` is the desktop program around it: the HTTP client, the `gh` process, the keychain,
the Tauri commands and window. It makes the requests that the library asks for and hands
the answers back.

- `src/json.rs` — JSON values, with objects kept in key order
- `src/model.rs` — the settings of a repository and the changes between two
- `src/diff.rs` — the comparison of a target with the reference
- `src/sync.rs` — the actions that apply chosen changes, and their results
- `src/transform.rs` — rulesets and branch protections as the write endpoints take them
- `src/snapshot.rs` — the reading of a repository's settings, request by request
- `src/github.rs` — request paths, retries, pages, and the reading of listings
- `src/auth.rs` — sign-in decisions
- `src/commands.rs` — the audit of many targets and the results of a sync
- `src/text.rs`, `src/search.rs` — strings and searches used throughout
