//! An in-memory kernel surface: a virtual file system with a hierarchical
//! namespace, a table of open descriptors, a flat process registry, and the
//! call boundary that a host front-end drives.

pub mod error;
pub mod inode;
pub mod kernel;
pub mod laws;
pub mod model;
pub mod process;
pub mod syscall;
pub mod text;

pub use error::{ErrorKind, FsError};
pub use inode::{FileDescriptor, Inode, InodeType};
pub use kernel::Kernel;
pub use process::{ProcessControlBlock, ProcessState};
pub use syscall::{
    boot, fs_cat, fs_close, fs_create, fs_exists, fs_list, fs_open, fs_read, fs_write, get_uptime,
    handle_command, help, process_spawn, split_path, uname, update_time,
};
