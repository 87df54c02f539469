//! The call boundary: the operations that a host front-end invokes, one at
//! a time, on a kernel it owns.
//!
//! Each call resolves its path, performs the operation, and narrows every
//! internal failure to the one failure signal of its result type: `-1`, or
//! an empty text. Only `fs_cat` passes a failure on in words.

use crate::error::{ErrorKind, FsError};
use crate::inode::InodeType;
use crate::kernel::Kernel;
use crate::model::{KernelState, ROOT_INODE};
use crate::text::{
    byte_list, decimal, fields, format_bytes, join, join_texts, lemma_fields_len,
    parse_byte_list, push_decimal, render_bytes, split_fields, text_from_utf8, texts, trim,
    trimmed,
};
use vstd::prelude::*;
use vstd::string::StringExecFns;
use vstd::utf8::{decode_utf8, valid_utf8};

verus! {

/// What `boot` answers.
pub const BANNER: &'static str =
    "BrowserOS v0.2 (WASM-based virtual OS)\nType 'help' for command list.\n";

/// What `uname` answers.
pub const SYSTEM_INFO: &'static str = "BrowserOS v0.2 (wasm32-unknown-unknown)";

/// What `fs_cat` answers for content that is no text.
pub const NOT_UTF8: &'static str = "Error: File content is not valid UTF-8";

/// What the command `help` answers.
pub const HELP: &'static str = "=== BrowserOS Shell ===
FILESYSTEM COMMANDS:
  ls [path]          - List directory contents
  cat [path]         - Print file contents
  touch [path]       - Create an empty file
  mkdir [path]       - Create a directory
  echo TEXT > FILE   - Write text to file

SYSTEM COMMANDS:
  help               - Show this help
  clear              - Clear terminal
  uname              - Show system info
  uptime             - Show uptime

PROCESS COMMANDS:
  ps                 - List processes
\x20\x20
TIPS:
  - Paths start with / (e.g., /home/user/file.txt)
  - Use '>' for redirection: echo hello > /tmp/test.txt
";

/// The kind of inode that a create call makes.
pub open spec fn kind_of(is_dir: bool) -> InodeType {
    if is_dir {
        InodeType::Directory
    } else {
        InodeType::File
    }
}

/// Whether `text` lists exactly the names in `names`, each once, in some
/// order, with a comma between each two.
pub open spec fn lists(text: Seq<char>, names: Set<Seq<char>>) -> bool {
    exists|order: Seq<Seq<char>>|
        #![auto]
        order.no_duplicates() && order.to_set() == names && text == join(order, seq![','])
}

/// A failure in words, as `fs_cat` answers it.
pub open spec fn error_text(e: ErrorKind) -> Seq<char> {
    "Error: "@ + e.message()
}

/// An uptime in words.
pub open spec fn uptime_text(ms: u64) -> Seq<char> {
    let secs = ms as nat / 1000;
    let mins = secs / 60;
    let hrs = mins / 60;
    "Uptime: "@ + decimal(hrs) + "h "@ + decimal(mins % 60) + "m "@ + decimal(secs % 60) + "s"@
}

impl KernelState {
    /// The state after `boot`: the clock started, and the four standard
    /// directories created under the root, in this order.
    pub open spec fn sys_boot(self, now: u64) -> KernelState {
        self.started(now).create(ROOT_INODE, "bin"@, InodeType::Directory).create(
            ROOT_INODE,
            "etc"@,
            InodeType::Directory,
        ).create(ROOT_INODE, "home"@, InodeType::Directory).create(
            ROOT_INODE,
            "tmp"@,
            InodeType::Directory,
        )
    }

    /// What `fs_open` answers: the new handle, or -1 if the path leads
    /// nowhere.
    pub open spec fn sys_open_result(self, path: Seq<char>) -> int {
        match self.resolve(path) {
            Ok(id) => match self.open_outcome(id) {
                Ok(fd) => fd as int,
                Err(_) => -1,
            },
            Err(_) => -1,
        }
    }

    /// The state after `fs_open`.
    pub open spec fn sys_open(self, path: Seq<char>, mode: Seq<char>) -> KernelState {
        match self.resolve(path) {
            Ok(id) => self.open(id, mode),
            Err(_) => self,
        }
    }

    /// What `fs_read` answers: the bytes read, as text; nothing on failure
    /// and nothing at the end of the content.
    pub open spec fn sys_read_result(self, fd: u32, size: nat) -> Seq<char> {
        match self.read_outcome(fd, size) {
            Ok(bytes) => render_bytes(bytes),
            Err(_) => Seq::empty(),
        }
    }

    /// What `fs_write` answers: the number of bytes written, or -1 if the
    /// text lists no bytes or the handle is not open.
    pub open spec fn sys_write_result(self, fd: u32, data: Seq<char>) -> int {
        match byte_list(data) {
            Some(bytes) => match self.write_outcome(fd, bytes) {
                Ok(_) => bytes.len() as int,
                Err(_) => -1,
            },
            None => -1,
        }
    }

    /// The state after `fs_write`.
    pub open spec fn sys_write(self, fd: u32, data: Seq<char>) -> KernelState {
        match byte_list(data) {
            Some(bytes) => self.write(fd, bytes),
            None => self,
        }
    }

    /// The inode under which `fs_create` makes the new one: what the path
    /// without its last component leads to.
    pub open spec fn create_parent(self, path: Seq<char>) -> Result<u32, ErrorKind> {
        self.walk(ROOT_INODE, fields(path, '/').drop_last())
    }

    /// Whether `fs_create` succeeds: the path has a last component, the
    /// components before it lead to an inode, and that inode is a
    /// directory.
    pub open spec fn sys_create_ok(self, path: Seq<char>) -> bool {
        &&& fields(path, '/').len() > 0
        &&& self.create_parent(path) matches Ok(parent)
        &&& self.create_outcome(parent) is Ok
    }

    /// The state after `fs_create`: on success, a new inode named by the
    /// last component of the path.
    pub open spec fn sys_create(self, path: Seq<char>, is_dir: bool) -> KernelState {
        if self.sys_create_ok(path) {
            self.create(self.create_parent(path)->Ok_0, fields(path, '/').last(), kind_of(is_dir))
        } else {
            self
        }
    }

    /// What `fs_exists` answers: 1 for a directory, 0 for a file, -1 if the
    /// path leads nowhere.
    pub open spec fn sys_exists_result(self, path: Seq<char>) -> int {
        match self.resolve(path) {
            Ok(id) => if !self.inodes.contains_key(id) {
                -1
            } else if self.inodes[id].kind == InodeType::Directory {
                1
            } else {
                0
            },
            Err(_) => -1,
        }
    }

    /// What `fs_cat` answers: the content as text, or the failure in
    /// words.
    pub open spec fn sys_cat_result(self, path: Seq<char>) -> Seq<char> {
        match self.resolve(path) {
            Ok(id) => match self.content(id) {
                Ok(bytes) => if valid_utf8(bytes) {
                    decode_utf8(bytes)
                } else {
                    NOT_UTF8@
                },
                Err(e) => error_text(e),
            },
            Err(e) => error_text(e),
        }
    }

    /// What `handle_command` answers.
    pub open spec fn sys_command_result(self, cmd: Seq<char>) -> Seq<char> {
        let word = trim(cmd);
        if word == "help"@ {
            HELP@
        } else if word == "clear"@ {
            Seq::empty()
        } else if word == "uname"@ {
            SYSTEM_INFO@
        } else if word == "uptime"@ {
            uptime_text(self.uptime())
        } else {
            "Command not found: "@ + cmd
        }
    }
}

/// Starts the kernel at `current_time_ms` and creates `/bin`, `/etc`,
/// `/home` and `/tmp`.
pub fn boot(kernel: &mut Kernel, current_time_ms: u64) -> (banner: String)
    requires
        old(kernel).wf(),
        old(kernel)@.next_inode_id <= u32::MAX - 4,
    ensures
        final(kernel).wf(),
        final(kernel)@ == old(kernel)@.sys_boot(current_time_ms),
        banner@ == BANNER@,
{
    kernel.start(current_time_ms);
    let _ = kernel.create_inode(0, String::from_str("bin"), InodeType::Directory);
    let _ = kernel.create_inode(0, String::from_str("etc"), InodeType::Directory);
    let _ = kernel.create_inode(0, String::from_str("home"), InodeType::Directory);
    let _ = kernel.create_inode(0, String::from_str("tmp"), InodeType::Directory);
    String::from_str(BANNER)
}

/// Takes the host's reading of the clock.
pub fn update_time(kernel: &mut Kernel, current_time_ms: u64)
    requires
        old(kernel).wf(),
    ensures
        final(kernel).wf(),
        final(kernel)@ == old(kernel)@.at_time(current_time_ms),
{
    kernel.set_time(current_time_ms);
}

/// Opens the file or directory at `path`.
pub fn fs_open(kernel: &mut Kernel, path: &str, mode: &str) -> (fd: i32)
    requires
        old(kernel).wf(),
        old(kernel)@.next_fd <= i32::MAX,
    ensures
        final(kernel).wf(),
        fd == old(kernel)@.sys_open_result(path@),
        final(kernel)@ == old(kernel)@.sys_open(path@, mode@),
{
    match kernel.get_inode(path) {
        Ok(inode_id) => match kernel.open_file(inode_id, mode) {
            Ok(fd) => fd as i32,
            Err(_) => -1,
        },
        Err(_) => -1,
    }
}

/// Reads at most `size` bytes from `fd`.
pub fn fs_read(kernel: &mut Kernel, fd: u32, size: usize) -> (text: String)
    requires
        old(kernel).wf(),
    ensures
        final(kernel).wf(),
        text@ == old(kernel)@.sys_read_result(fd, size as nat),
        final(kernel)@ == old(kernel)@.read(fd, size as nat),
{
    match kernel.read_file(fd, size) {
        Ok(data) => format_bytes(&data),
        Err(_) => String::new(),
    }
}

/// Appends the bytes that `data` lists to the file behind `fd`.
pub fn fs_write(kernel: &mut Kernel, fd: u32, data: &str) -> (written: i32)
    requires
        old(kernel).wf(),
        data@.len() <= i32::MAX,
    ensures
        final(kernel).wf(),
        written == old(kernel)@.sys_write_result(fd, data@),
        final(kernel)@ == old(kernel)@.sys_write(fd, data@),
{
    match parse_byte_list(data) {
        Ok(bytes) => {
            proof {
                lemma_fields_len(data@, ',');
            }
            match kernel.write_file(fd, bytes.as_slice()) {
                Ok(written) => written as i32,
                Err(_) => -1,
            }
        },
        Err(_) => -1,
    }
}

/// Splits a path into the components that lead to the parent and the
/// name of what the path stands for. A path without components names
/// nothing and is invalid input.
pub fn split_path(path: &str) -> (r: Result<(Vec<String>, String), FsError>)
    ensures
        match r {
            Ok((parents, name)) => {
                &&& fields(path@, '/').len() > 0
                &&& texts(parents@) == fields(path@, '/').drop_last()
                &&& name@ == fields(path@, '/').last()
            },
            Err(e) => fields(path@, '/').len() == 0 && e@ == ErrorKind::InvalidInput,
        },
{
    let mut components = split_fields(path, '/');
    let ghost all = components@;
    match components.pop() {
        None => Err(FsError::InvalidInput),
        Some(name) => {
            proof {
                assert(texts(components@) =~= texts(all).drop_last());
                assert(texts(all).last() == all.last()@);
            }
            Ok((components, name))
        },
    }
}

/// Creates an empty file or directory at `path`. The last component of the
/// path names it; the components before lead to its parent.
pub fn fs_create(kernel: &mut Kernel, path: &str, is_dir: bool) -> (status: i32)
    requires
        old(kernel).wf(),
        old(kernel)@.next_inode_id < u32::MAX,
    ensures
        final(kernel).wf(),
        status == (if old(kernel)@.sys_create_ok(path@) {
            0i32
        } else {
            -1i32
        }),
        final(kernel)@ == old(kernel)@.sys_create(path@, is_dir),
{
    let (parents, name) = match split_path(path) {
        Ok(parts) => parts,
        Err(_) => {
            return -1;
        },
    };
    let parent_id = match kernel.walk(&parents) {
        Ok(id) => id,
        Err(_) => {
            return -1;
        },
    };
    let inode_type = if is_dir {
        InodeType::Directory
    } else {
        InodeType::File
    };
    match kernel.create_inode(parent_id, name, inode_type) {
        Ok(_) => 0,
        Err(_) => -1,
    }
}

/// Closes `fd`.
pub fn fs_close(kernel: &mut Kernel, fd: u32) -> (status: i32)
    requires
        old(kernel).wf(),
    ensures
        final(kernel).wf(),
        status == (if old(kernel)@.close_outcome(fd) is Ok {
            0i32
        } else {
            -1i32
        }),
        final(kernel)@ == old(kernel)@.close(fd),
{
    match kernel.close_file(fd) {
        Ok(_) => 0,
        Err(_) => -1,
    }
}

/// The names in the directory at `path`, with a comma between each two,
/// in no particular order. Nothing if the path leads nowhere or to a file.
pub fn fs_list(kernel: &Kernel, path: &str) -> (text: String)
    requires
        kernel.wf(),
    ensures
        match kernel@.resolve(path@) {
            Ok(id) => match kernel@.listing(id) {
                Ok(names) => lists(text@, names),
                Err(_) => text@ == Seq::<char>::empty(),
            },
            Err(_) => text@ == Seq::<char>::empty(),
        },
{
    match kernel.get_inode(path) {
        Ok(inode_id) => match kernel.list_directory(inode_id) {
            Ok(entries) => join_texts(&entries, ','),
            Err(_) => String::new(),
        },
        Err(_) => String::new(),
    }
}

/// Whether `path` leads to a directory (1), to a file (0) or nowhere (-1).
pub fn fs_exists(kernel: &Kernel, path: &str) -> (status: i32)
    requires
        kernel.wf(),
    ensures
        status == kernel@.sys_exists_result(path@),
{
    match kernel.get_inode(path) {
        Ok(inode_id) => match kernel.inode(inode_id) {
            Some(inode) => if inode.is_directory() {
                1
            } else {
                0
            },
            None => -1,
        },
        Err(_) => -1,
    }
}

/// `Error: ` and the failure in words.
fn error_message(e: &FsError) -> (text: String)
    ensures
        text@ == error_text(e@),
{
    let mut text = String::from_str("Error: ");
    let message = e.message();
    text.append(message.as_str());
    text
}

/// The content at `path` as text, or why there is none.
pub fn fs_cat(kernel: &Kernel, path: &str) -> (text: String)
    requires
        kernel.wf(),
    ensures
        text@ == kernel@.sys_cat_result(path@),
{
    match kernel.get_inode(path) {
        Ok(inode_id) => match kernel.read_file_content(inode_id) {
            Ok(bytes) => match text_from_utf8(bytes) {
                Some(text) => text,
                None => String::from_str(NOT_UTF8),
            },
            Err(e) => error_message(&e),
        },
        Err(e) => error_message(&e),
    }
}

/// Registers a new process and returns its pid.
pub fn process_spawn(kernel: &mut Kernel, parent_pid: u32) -> (pid: u32)
    requires
        old(kernel).wf(),
        old(kernel)@.next_pid < u32::MAX,
    ensures
        final(kernel).wf(),
        pid == old(kernel)@.next_pid,
        final(kernel)@ == old(kernel)@.spawn(parent_pid),
{
    kernel.create_process(parent_pid)
}

/// Milliseconds since `boot`, or 0 before it.
pub fn get_uptime(kernel: &Kernel) -> (ms: u64)
    ensures
        ms == kernel@.uptime(),
{
    kernel.get_uptime_ms()
}

/// The system's name and version.
pub fn uname() -> (text: String)
    ensures
        text@ == SYSTEM_INFO@,
{
    String::from_str(SYSTEM_INFO)
}

/// The list of commands.
pub fn help() -> (text: String)
    ensures
        text@ == HELP@,
{
    String::from_str(HELP)
}

/// Answers a command line: `help`, `clear`, `uname` or `uptime`, with
/// whitespace around it ignored. Anything else is reported back as unknown,
/// as it was typed.
pub fn handle_command(kernel: &Kernel, cmd: &str) -> (answer: String)
    ensures
        answer@ == kernel@.sys_command_result(cmd@),
{
    let word = trimmed(cmd);
    if word == String::from_str("help") {
        help()
    } else if word == String::from_str("clear") {
        String::new()
    } else if word == String::from_str("uname") {
        uname()
    } else if word == String::from_str("uptime") {
        let uptime = kernel.get_uptime_ms();
        let secs = uptime / 1000;
        let mins = secs / 60;
        let hrs = mins / 60;
        let mut answer = String::from_str("Uptime: ");
        push_decimal(&mut answer, hrs);
        answer.append("h ");
        push_decimal(&mut answer, mins % 60);
        answer.append("m ");
        push_decimal(&mut answer, secs % 60);
        answer.append("s");
        answer
    } else {
        let mut answer = String::from_str("Command not found: ");
        answer.append(cmd);
        answer
    }
}

} // verus!
