# orbweaver

Ecosystem intelligence over a set of repositories: discover the
repositories under a root, read their manifests and git history, resolve
which of them depend on each other, extract capabilities, CLI subcommands
and serde schemas, and keep each scan as an immutable snapshot.

The decisions are a library verified with Verus (`src/`): manifest
parsing (Cargo, npm, pyproject, go.mod), the Rust source scanner, dependency
resolution, the dependency graph, shared-dependency analysis, the tool
probe state machine and the install planning of ELCI connectors. Their
contracts and the cross-cutting laws (`src/laws.rs`) are proved.

`app/` is the `orbweaver` command line around it: filesystem, git,
SQLite, subprocesses and terminal output.
