# zed_vyper

Launch planning for the Vyper language servers (`vyper-lsp`, Couleuvre) of
the Zed editor, verified with Verus.

- `src/backend.rs`: backend selection from settings, executable names and
  the missing-executable messages.
- `src/path.rs`: Unix path rules (parent, extension, join) as plain strings.
- `src/venv.rs`: the workspace `.venv` candidates of a worktree and its
  ancestors.
- `src/env.rs`: environment lists: setting variables, prepending to search
  paths without repeats, applying virtual environments and overrides, and
  the laws these edits obey.
- `src/host.rs`: the editor host and JSON types, and the trusted wrappers
  around the `zed_extension_api` calls.
- `src/launch.rs`: launch settings, workspace configuration and the command
  that starts the server.
- `app/lib.rs`: the extension entry point registered with Zed.
