# webman

`webman` manages a fleet of web nodes from a workstation: it keeps the nodes
and servers in a small SQLite database, reaches them over SSH, edits the
local SSH configuration, and generates the Rust models of its own tables.

## Layout

- `src/` is the library, verified with Verus. It holds what the commands
  decide: tokenizing and rewriting strings (`substrings`), the SSH
  configuration rewrites (`ssh_config`), the texts of SQL statements and of
  generated models (`db`), JSON merging (`json`), the node and server records
  (`config`), random names (`utils`), what an SSH session does with each
  message (`session`), and the lines and shell commands of each command
  (`cli`). Calls into `regex`, `rand`, `indexmap`, `convert_case` and
  `ssh_cfg` stand behind small trusted wrappers whose contracts say what
  those crates document.
- `app/` is the command-line program around it: argument parsing, the
  database, SSH connections, files and processes.
- `tests/` runs the library on concrete values.
