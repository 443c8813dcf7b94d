# zed_prj_workspace

Keeps `.code-workspace` files and Zed's multi-root workspaces in step.

- `src/` is the verified core: the rules that the programs go by, as functions with
  contracts that Verus proves. Paths, settings, mappings, the diff and the sync
  of folders, the order on display and its pinning, the search for a workspace file,
  the socket protocol and the answers of the tools are here.
- `tests/` runs the core on concrete values.
- `app/` is the surrounding programs, which are not verified. They read and write
  files, the database and sockets, run the threads and the loops, and ask the core
  what to do: the tool server (`main.rs`), the library that
  is loaded into Zed (`hook_lib.rs`) and the patch tool (`xtask_main.rs`).

What the core takes on trust is said in the doc comments of the items marked
`external_body` and `assume_specification`: what `serde_json`, `pathdiff`, `chrono`
and `dirs` give, and that `String::push` appends.
