# roxide

roxide manages git repositories kept under a workspace directory
(`<workspace>/<remote>/<owner>/<name>`): it finds, creates, syncs and tags
them, counts their code and disk usage, and keeps encrypted secret files.

This crate is written in Verus. The library under `src/` holds the logic,
each function with a contract that Verus proves:

- `exec/` — the git, bash and fzf commands the tool runs, and the parsers of
  their output (branch lines, remotes, tags, commits);
- `repo/` — the repository database and its stored form, snapshots,
  marked repositories, selection and queries, creation and its hooks, sync
  plans, mirrors, backups and restores, keywords, hooks and their
  conditions, disk usage and byte counts;
- `scan/` — disk usage of walked files, ignore rules and globs, code statistics;
- `secret/` — the encrypted file format (PBKDF2 and AES-256-GCM);
- `tag_rule.rs`, `text.rs`, `table.rs`, `term.rs` — tag rules, text helpers,
  tables and progress output.

The outside crates that do the cryptography, glob and gitignore matching,
semver and date parsing stand behind small trusted functions whose contracts
say what those crates do.

`app/` is the command-line program around the library: it reads the
environment, runs processes, walks directories and prints; it holds no
rule of its own. `tests/` runs the library on concrete cases.
