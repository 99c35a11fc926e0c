# terra_git

The core of a desktop git client, verified with Verus: the parsing,
validation and decision logic behind the repository engine, the git
credential helper and the token store. Every function in `src/` is verified
by Verus against its contract; the laws that span several functions are
public proof functions (`lemma_…`). The one exception in what a contract can
say is the cancellation token (`cancel`): its flag is a std atomic shared
between threads, and Verus knows nothing of the value such an atomic holds,
so `CancelToken::new`, `cancel` and `is_cancelled` carry no contract.

## Layout

- `src/` — the verified library.
  - `text`, `order` — character sequences (splitting, trimming, numbers,
    lexicographic order) and stable insertion order, with their lemmas.
  - `domain` — the data model shared with the frontend.
  - `status_fast`, `status` — `git status --porcelain=v2 -z` and the libgit2
    status list into one status model, both lists ordered by path.
  - `diff`, `patch` — the per-file diff builder with its line cap, patch
    splitting and partial hunks for line-wise staging.
  - `conflict` — conflicted files split into segments for the editor.
  - `sidecar` — every command line for the system git, progress parsing,
    classification of remote failures, and what a finished run returns.
  - `rebase`, `history`, `refs`, `branches`, `index_plan`, `views`, `ops` —
    the decisions of the engine's operations: plans, checks and refusals,
    lists and their order.
  - `ssh` — key names, host forms, `ssh-keygen`/`ssh-keyscan` output and the
    known_hosts lines a host may be trusted with.
  - `credential_helper_proto`, `auth` — the git credential protocol and the
    token stores.
  - `error`, `cancel` — the engine's error type and cancellation token.
- `tests/` — tests of the library on concrete values.
- `app/` — the engine around the library: libgit2 calls, child processes,
  the file system, and serializable copies of the domain types. It reads
  what the library needs, lets the library decide, and performs the
  decision.

## Outside crates

`git2` (object ids, branch-name validation, the engine in `app/`),
`keyring` (the OS keychain behind `KeyringStore`), `base64` (image data
URLs), `serde` (the serializable copies in `app/`), `tracing` (logging in
`app/`) and `trash` (removing SSH keys). The calls that the library makes
stand behind small trusted functions whose contracts say what the crates
document.
