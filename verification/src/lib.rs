//! Verified core of the vrift virtual filesystem layer: path hashing,
//! dirty-file tracking, the IPC wire header, manifest and VDir tables,
//! tier classification and the worker task queue.
pub mod fnv;
pub mod dirty;
pub mod path;
pub mod ring_buffer;
pub mod ipc;
pub mod velo_error;
pub mod bytes;
pub mod manifest;
pub mod tier;
pub mod vdir;
pub mod text;
pub mod state;
pub mod mmap;
pub mod le;
pub mod probe;
pub mod mmap_layout;
pub mod mmap_build;
pub mod mmap_read;
pub mod resolver;
pub mod profile;
pub mod sys_types;
pub mod runtime;
pub mod blob_path;
pub mod pack;
pub mod open_route;
pub mod config;
pub mod delta;
pub mod mutation;
pub mod fd_table;
pub mod circuit;
pub mod cwd;
pub mod stat_route;
pub mod listing;
