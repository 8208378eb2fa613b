# afs

AgentFS: a shared filesystem for AI agents. A central controller keeps the
registered storage backends, the shared directories with their access keys,
and the mount sessions; a FUSE server on each agent host mounts shared
directories and forwards file operations to the storage backend; the `afs`
tool manages both.

The decisions of all three are a library verified with Verus (`src/`):

- `db`, `db_laws`: the controller's store (filesystems, directories,
  sessions, with primary and foreign keys), every operation on it, and the
  laws that relate them (a created directory opens with its key, a deleted
  one neither opens nor lists, a heartbeat leaves exactly the reported
  mounts, repeating it changes nothing, ...).
- `controller`: request checks and the status each outcome is answered with.
- `fuse_fs`, `fuse_service`: inode table, read-only rule, read/write ranges,
  directory listings, the mount table of the FUSE server and the steps of a
  mount (validation, backend, lazy creation of the directory, FUSE session,
  session registration).
- `storage`: the two-level directory layout of the storage backends.
- `cli`: what `afs fs add` registers and how the tool prints its tables.
- `ids`, `timestamp`, `fsconfig`, `text`, `error`: identifiers, creation
  timestamps, configuration maps and their JSON text, string helpers.

`app/` holds what is not verified: argument parsing, the gRPC endpoints, the
SQLite file the controller saves its store to, the kernel side of FUSE, and
the file operations of the storage backends. Started as `afs-controller` or
`afs-fuse` the program runs the corresponding daemon; otherwise it is the
`afs` tool.
