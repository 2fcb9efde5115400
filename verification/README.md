# afs

The control plane of the Agentic File System: a supervisor daemon that
installs a Directory Agent in each Managed Directory, routes questions to the
agent that owns a path (or broadcasts them), hands delegated tasks between
agents, and keeps each directory's history in a private git repository with
latest-only undo.

- `src/` is the library, verified with Verus: the socket protocol, the Agent
  Registry, ownership of paths, install and removal decisions, the answers
  composed from agent replies, delegation batches and task queues, history
  commit messages, the history log, undo planning and history merging, the
  Managed Subtree and its ignore file, the JSONL runtime protocol and the
  decisions of one agent turn.  Each `law_*` proof function states a property
  that holds across calls.
- `app/` is the `afs` command around it: the daemon's sockets, processes,
  filesystem monitor and `git` invocations, and the CLI.
- `tests/` exercises the library on concrete values.
