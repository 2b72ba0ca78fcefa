# tfrm

A command-line client for HCP Terraform / Terraform Enterprise: select a
workspace, list its runs, view and diff plans with sensitive-value
redaction, and log in with the same credential files terraform uses.

## Layout

- `src/` — the library, verified with Verus. Every function carries a
  contract over mathematical models (`Seq`, `Map`, views of the data
  types), and the laws the tool promises are stated and proved as public
  proof functions:
  - `json` — a JSON value model and its views; `order` — sorted string
    lists.
  - `credentials`, `credfile` — token resolution (flag, `TF_TOKEN_*`,
    config files) and the read-modify-write of `credentials.tfrc.json`.
  - `config`, `cli` — project configuration, workspace resolution, the
    command model.
  - `plan`, `show`, `diff` — plan reading, rendering with redaction, and
    plan-to-plan diffs that never carry a sensitive value.
  - `runs`, `workspaces`, `actions`, `client`, `login` — what the API
    answers mean, request paths and queries, retry and pagination
    decisions, and the OAuth (PKCE) login steps.
- `app/` — the executable: argument parsing, HTTP, files, the browser and
  the callback listener. It hands plain values to the library and acts on
  what comes back.
- `tests/` — tests of the library on concrete values.
