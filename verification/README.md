# vrift

The core of the vrift virtual filesystem layer, written in Verus: a process's
file-system calls on paths of a project are answered from a content-addressed
store (CAS) and a manifest kept by a daemon, and the decisions involved are
proved against their contracts.

## Layout

- `src/` — the verified library.
  - Paths: `path` (normalization), `resolver` (VFS prefix and project root to
    manifest key), `cwd` (working directory in and out of the VFS), `fnv`.
  - Manifest: `manifest` (entries, tiers, statistics), `tier`, `delta`
    (modification layer over the committed base, reads through both layers,
    commit), `pack` (packfile index and reads).
  - Stat cache image: `mmap`, `mmap_layout`, `mmap_build`, `mmap_read`,
    `probe`, `le`; the VDir table types in `vdir`.
  - Interception decisions: `open_route`, `stat_route`, `listing`,
    `mutation`, `fd_table`, `dirty`, `blob_path` (CAS and staging paths),
    `state` (flight recorder, logger, log levels, descriptor usage),
    `profile`, `circuit`, `config`.
  - Daemon protocol: `ipc` (frame header, frames), `velo_error`.
  - Runtime: `runtime` (link farm, overlay options).
- `tests/` — tests of the library on concrete values.
- `app/` — the I/O around the library: daemon connections, the LMDB store,
  packfile and stat-cache files, the link farm and namespaces, settings read
  from the environment, and the serialized copies of the protocol types.
