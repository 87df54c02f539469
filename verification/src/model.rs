//! The kernel as contracts speak of it: a mathematical state, and each
//! operation as a function from state to state together with the outcome
//! it reports.
//!
//! Every operation is defined on every state. What holds of the states that
//! the kernel can actually reach is collected in [`KernelState::valid`].

use crate::error::ErrorKind;
use crate::inode::{DescriptorState, InodeState, InodeType};
use crate::process::{ProcessControlBlock, ProcessState};
use crate::text::fields;
use vstd::prelude::*;

verus! {

/// The id of the root directory.
pub const ROOT_INODE: u32 = 0;

/// The lowest handle that an open file can get: 0, 1 and 2 are reserved
/// for the standard streams.
pub const FIRST_FD: u32 = 3;

/// The pid of the initial process.
pub const INIT_PID: u32 = 0;

/// The whole state of a kernel.
#[verifier::ext_equal]
pub struct KernelState {
    pub booted: bool,
    pub start_time_ms: u64,
    pub current_time_ms: u64,
    pub processes: Map<u32, ProcessControlBlock>,
    pub next_pid: u32,
    pub current_pid: u32,
    pub inodes: Map<u32, InodeState>,
    pub next_inode_id: u32,
    pub open_files: Map<u32, DescriptorState>,
    pub next_fd: u32,
}

/// The smaller of two numbers.
pub open spec fn min(a: nat, b: nat) -> nat {
    if a <= b {
        a
    } else {
        b
    }
}

impl KernelState {
    // -----------------------------------------------------------------
    // Construction and validity
    // -----------------------------------------------------------------
    /// A kernel before its first call: an empty root directory, the
    /// initial process, no open file, the clock not started.
    pub open spec fn initial() -> KernelState {
        KernelState {
            booted: false,
            start_time_ms: 0,
            current_time_ms: 0,
            processes: Map::empty().insert(
                INIT_PID,
                ProcessControlBlock {
                    pid: INIT_PID,
                    state: ProcessState::Running,
                    parent_pid: None,
                    exit_code: 0,
                },
            ),
            next_pid: 1,
            current_pid: INIT_PID,
            inodes: Map::empty().insert(
                ROOT_INODE,
                InodeState {
                    kind: InodeType::Directory,
                    name: "/"@,
                    data: Seq::empty(),
                    children: Map::empty(),
                    parent: None,
                },
            ),
            next_inode_id: 1,
            open_files: Map::empty(),
            next_fd: FIRST_FD,
        }
    }

    /// The inode store is a forest hanging from parent links that point to
    /// older directories, with the root at id 0.
    ///
    /// Ids are handed out in order and never reused, so the store holds
    /// exactly the ids below `next_inode_id`. Every inode but the root has
    /// a parent, which is a directory with a smaller id; hence no cycle.
    /// Every directory entry leads to an inode that names this directory as
    /// its parent and the entry's name as its own, so no inode is entered
    /// in two directories or under two names.
    pub open spec fn tree_ok(self) -> bool {
        &&& self.next_inode_id >= 1
        &&& forall|id: u32| #[trigger] self.inodes.contains_key(id) <==> id < self.next_inode_id
        &&& self.inodes[ROOT_INODE].kind == InodeType::Directory
        &&& self.inodes[ROOT_INODE].parent is None
        &&& forall|id: u32|
            #[trigger] self.inodes.contains_key(id) && id != ROOT_INODE ==> {
                &&& self.inodes[id].parent is Some
                &&& self.inodes[id].parent->0 < id
                &&& self.inodes[self.inodes[id].parent->0].kind == InodeType::Directory
            }
        &&& forall|id: u32, name: Seq<char>|
            self.inodes.contains_key(id) && #[trigger] self.inodes[id].children.contains_key(name)
                ==> {
                let child = self.inodes[id].children[name];
                &&& self.inodes.contains_key(child)
                &&& child != ROOT_INODE
                &&& self.inodes[child].parent == Some(id)
                &&& self.inodes[child].name == name
            }
    }

    /// Every open descriptor carries a handle that was handed out, refers
    /// to an inode of the store, and has its cursor inside that inode's
    /// content.
    pub open spec fn descriptors_ok(self) -> bool {
        &&& self.next_fd >= FIRST_FD
        &&& forall|fd: u32| #[trigger]
            self.open_files.contains_key(fd) ==> {
                &&& FIRST_FD <= fd < self.next_fd
                &&& self.inodes.contains_key(self.open_files[fd].inode_id)
                &&& self.open_files[fd].offset <= self.inodes[self.open_files[fd].inode_id].data.len()
            }
    }

    /// The process table holds the initial process, and every entry sits
    /// under a pid that was handed out and records that pid.
    pub open spec fn processes_ok(self) -> bool {
        &&& self.next_pid >= 1
        &&& self.processes.contains_key(INIT_PID)
        &&& forall|pid: u32| #[trigger]
            self.processes.contains_key(pid) ==> {
                &&& pid < self.next_pid
                &&& self.processes[pid].pid == pid
            }
    }

    /// What holds of every state that a kernel reaches.
    pub open spec fn valid(self) -> bool {
        &&& self.tree_ok()
        &&& self.descriptors_ok()
        &&& self.processes_ok()
    }

    // -----------------------------------------------------------------
    // Inode store
    // -----------------------------------------------------------------
    /// What a create request under `parent` reports: the id of the new
    /// inode, or why there is none.
    pub open spec fn create_outcome(self, parent: u32) -> Result<u32, ErrorKind> {
        if !self.inodes.contains_key(parent) {
            Err(ErrorKind::ParentNotFound)
        } else if self.inodes[parent].kind != InodeType::Directory {
            Err(ErrorKind::NotADirectory)
        } else {
            Ok(self.next_inode_id)
        }
    }

    /// The state after a create request. A request that fails changes
    /// nothing. One that succeeds adds an empty inode under the next id and
    /// enters it in the parent under `name`, in place of whatever that name
    /// led to before.
    pub open spec fn create(self, parent: u32, name: Seq<char>, kind: InodeType) -> KernelState {
        if self.create_outcome(parent) is Ok {
            let id = self.next_inode_id;
            let node = InodeState {
                kind,
                name,
                data: Seq::empty(),
                children: Map::empty(),
                parent: Some(parent),
            };
            let dir = self.inodes[parent];
            KernelState {
                inodes: self.inodes.insert(id, node).insert(
                    parent,
                    InodeState { children: dir.children.insert(name, id), ..dir },
                ),
                next_inode_id: (id + 1) as u32,
                ..self
            }
        } else {
            self
        }
    }

    /// What an append to the inode `id` reports: the number of bytes
    /// taken, which is all of them.
    pub open spec fn append_outcome(self, id: u32, bytes: Seq<u8>) -> Result<usize, ErrorKind> {
        if self.inodes.contains_key(id) {
            Ok(bytes.len() as usize)
        } else {
            Err(ErrorKind::NotFound)
        }
    }

    /// The state after an append: on success the bytes stand at the end of
    /// the inode's content, file or directory alike.
    pub open spec fn append(self, id: u32, bytes: Seq<u8>) -> KernelState {
        if self.append_outcome(id, bytes) is Ok {
            let node = self.inodes[id];
            KernelState {
                inodes: self.inodes.insert(id, InodeState { data: node.data + bytes, ..node }),
                ..self
            }
        } else {
            self
        }
    }

    /// The content of an inode, file or directory alike.
    pub open spec fn content(self, id: u32) -> Result<Seq<u8>, ErrorKind> {
        if self.inodes.contains_key(id) {
            Ok(self.inodes[id].data)
        } else {
            Err(ErrorKind::NotFound)
        }
    }

    /// The names entered in a directory.
    pub open spec fn listing(self, id: u32) -> Result<Set<Seq<char>>, ErrorKind> {
        if !self.inodes.contains_key(id) {
            Err(ErrorKind::NotFound)
        } else if self.inodes[id].kind != InodeType::Directory {
            Err(ErrorKind::NotADirectory)
        } else {
            Ok(self.inodes[id].children.dom())
        }
    }

    // -----------------------------------------------------------------
    // Path resolution
    // -----------------------------------------------------------------
    /// Follows `components` one directory entry at a time, starting at the
    /// inode `from`.
    pub open spec fn walk(self, from: u32, components: Seq<Seq<char>>) -> Result<u32, ErrorKind>
        decreases components.len(),
    {
        if components.len() == 0 {
            Ok(from)
        } else if !self.inodes.contains_key(from) {
            Err(ErrorKind::InternalInconsistency)
        } else if !self.inodes[from].children.contains_key(components[0]) {
            Err(ErrorKind::PathComponentNotFound(components[0]))
        } else {
            self.walk(self.inodes[from].children[components[0]], components.drop_first())
        }
    }

    /// The inode that a slash-delimited path leads to from the root.
    ///
    /// Empty components count for nothing, so leading, trailing and
    /// repeated slashes are ignored and the empty path is the root. Names
    /// are compared exactly; `.` and `..` are names like any other.
    pub open spec fn resolve(self, path: Seq<char>) -> Result<u32, ErrorKind> {
        self.walk(ROOT_INODE, fields(path, '/'))
    }

    // -----------------------------------------------------------------
    // Descriptor table
    // -----------------------------------------------------------------
    /// What an open request reports: the new handle, or why there is none.
    pub open spec fn open_outcome(self, inode_id: u32) -> Result<u32, ErrorKind> {
        if self.inodes.contains_key(inode_id) {
            Ok(self.next_fd)
        } else {
            Err(ErrorKind::InvalidInode)
        }
    }

    /// The state after an open request: on success a new descriptor under
    /// the next handle, with its cursor at 0.
    pub open spec fn open(self, inode_id: u32, mode: Seq<char>) -> KernelState {
        if self.open_outcome(inode_id) is Ok {
            KernelState {
                open_files: self.open_files.insert(
                    self.next_fd,
                    DescriptorState { inode_id, offset: 0, mode },
                ),
                next_fd: (self.next_fd + 1) as u32,
                ..self
            }
        } else {
            self
        }
    }

    /// Where the cursor of `fd` stands after a read of at most `max`
    /// bytes: `max` further, but not past the end of the content.
    pub open spec fn read_end(self, fd: u32, max: nat) -> nat {
        let d = self.open_files[fd];
        min(d.offset + max, self.inodes[d.inode_id].data.len())
    }

    /// What a read of at most `max` bytes reports: the content from the
    /// cursor to `read_end`. At the end of the content that is nothing.
    pub open spec fn read_outcome(self, fd: u32, max: nat) -> Result<Seq<u8>, ErrorKind> {
        if !self.open_files.contains_key(fd) {
            Err(ErrorKind::BadDescriptor)
        } else if !self.inodes.contains_key(self.open_files[fd].inode_id) {
            Err(ErrorKind::NotFound)
        } else {
            let d = self.open_files[fd];
            Ok(self.inodes[d.inode_id].data.subrange(d.offset as int, self.read_end(fd, max) as int))
        }
    }

    /// The state after a read: on success the cursor stands at `read_end`.
    pub open spec fn read(self, fd: u32, max: nat) -> KernelState {
        if self.read_outcome(fd, max) is Ok {
            let d = self.open_files[fd];
            KernelState {
                open_files: self.open_files.insert(
                    fd,
                    DescriptorState { offset: self.read_end(fd, max), ..d },
                ),
                ..self
            }
        } else {
            self
        }
    }

    /// What a write through `fd` reports: what the append to the inode
    /// behind `fd` reports, if `fd` is open.
    pub open spec fn write_outcome(self, fd: u32, bytes: Seq<u8>) -> Result<usize, ErrorKind> {
        if self.open_files.contains_key(fd) {
            self.append_outcome(self.open_files[fd].inode_id, bytes)
        } else {
            Err(ErrorKind::BadDescriptor)
        }
    }

    /// The state after a write: the bytes are appended to the inode behind
    /// `fd`, wherever the cursor of `fd` is, and no cursor moves.
    pub open spec fn write(self, fd: u32, bytes: Seq<u8>) -> KernelState {
        if self.open_files.contains_key(fd) {
            self.append(self.open_files[fd].inode_id, bytes)
        } else {
            self
        }
    }

    /// What a close reports.
    pub open spec fn close_outcome(self, fd: u32) -> Result<(), ErrorKind> {
        if self.open_files.contains_key(fd) {
            Ok(())
        } else {
            Err(ErrorKind::BadDescriptor)
        }
    }

    /// The state after a close: the descriptor is gone, the inode it
    /// referred to is untouched.
    pub open spec fn close(self, fd: u32) -> KernelState {
        KernelState { open_files: self.open_files.remove(fd), ..self }
    }

    // -----------------------------------------------------------------
    // Processes and the clock
    // -----------------------------------------------------------------
    /// The state after a spawn: a new process under the next pid, ready,
    /// with the given parent and exit code 0.
    pub open spec fn spawn(self, parent_pid: u32) -> KernelState {
        KernelState {
            processes: self.processes.insert(
                self.next_pid,
                ProcessControlBlock {
                    pid: self.next_pid,
                    state: ProcessState::Ready,
                    parent_pid: Some(parent_pid),
                    exit_code: 0,
                },
            ),
            next_pid: (self.next_pid + 1) as u32,
            ..self
        }
    }

    /// Milliseconds since the kernel was started; 0 before that, and 0
    /// when the clock stands before the start.
    pub open spec fn uptime(self) -> u64 {
        if self.booted && self.current_time_ms >= self.start_time_ms {
            (self.current_time_ms - self.start_time_ms) as u64
        } else {
            0
        }
    }

    /// The state after the host has reported the time.
    pub open spec fn at_time(self, now: u64) -> KernelState {
        KernelState { current_time_ms: now, ..self }
    }

    /// The state after the kernel was started at `now`.
    pub open spec fn started(self, now: u64) -> KernelState {
        KernelState { booted: true, start_time_ms: now, current_time_ms: now, ..self }
    }
}

// ---------------------------------------------------------------------
// Validity is kept
// ---------------------------------------------------------------------
/// A new kernel is valid.
pub proof fn lemma_initial_valid()
    ensures
        KernelState::initial().valid(),
{
    let s = KernelState::initial();
    assert forall|id: u32| #[trigger] s.inodes.contains_key(id) <==> id < s.next_inode_id by {}
}

/// A create request keeps the state valid, as long as an id is left.
pub proof fn lemma_create_valid(s: KernelState, parent: u32, name: Seq<char>, kind: InodeType)
    requires
        s.valid(),
        s.next_inode_id < u32::MAX,
    ensures
        s.create(parent, name, kind).valid(),
{
    let t = s.create(parent, name, kind);
    if s.create_outcome(parent) is Ok {
        let id = s.next_inode_id;
        assert(!s.inodes.contains_key(id));
        assert(parent != id);
        assert(s.inodes.contains_key(parent));
        assert forall|i: u32| #[trigger] t.inodes.contains_key(i) <==> i < t.next_inode_id by {
            if i != id && i != parent {
                assert(t.inodes.contains_key(i) == s.inodes.contains_key(i));
            }
        }
        assert forall|i: u32| #[trigger] t.inodes.contains_key(i) && i != ROOT_INODE implies {
            &&& t.inodes[i].parent is Some
            &&& t.inodes[i].parent->0 < i
            &&& t.inodes[t.inodes[i].parent->0].kind == InodeType::Directory
        } by {
            if i == id {
            } else {
                assert(s.inodes.contains_key(i));
                let p = s.inodes[i].parent->0;
                assert(s.inodes.contains_key(p));
            }
        }
        assert forall|i: u32, n: Seq<char>|
            t.inodes.contains_key(i) && #[trigger] t.inodes[i].children.contains_key(
                n,
            ) implies {
            let child = t.inodes[i].children[n];
            &&& t.inodes.contains_key(child)
            &&& child != ROOT_INODE
            &&& t.inodes[child].parent == Some(i)
            &&& t.inodes[child].name == n
        } by {
            if i == id {
            } else if i == parent && n == name {
            } else {
                assert(s.inodes.contains_key(i));
                assert(s.inodes[i].children.contains_key(n));
                let child = s.inodes[i].children[n];
                assert(s.inodes.contains_key(child));
                assert(child != id);
            }
        }
        assert forall|fd: u32| #[trigger] t.open_files.contains_key(fd) implies {
            &&& FIRST_FD <= fd < t.next_fd
            &&& t.inodes.contains_key(t.open_files[fd].inode_id)
            &&& t.open_files[fd].offset <= t.inodes[t.open_files[fd].inode_id].data.len()
        } by {
            assert(s.open_files.contains_key(fd));
            assert(s.inodes.contains_key(s.open_files[fd].inode_id));
        }
    }
}

/// An open request keeps the state valid, as long as a handle is left.
pub proof fn lemma_open_valid(s: KernelState, inode_id: u32, mode: Seq<char>)
    requires
        s.valid(),
        s.next_fd < u32::MAX,
    ensures
        s.open(inode_id, mode).valid(),
{
    let t = s.open(inode_id, mode);
    if s.open_outcome(inode_id) is Ok {
        assert forall|fd: u32| #[trigger] t.open_files.contains_key(fd) implies {
            &&& FIRST_FD <= fd < t.next_fd
            &&& t.inodes.contains_key(t.open_files[fd].inode_id)
            &&& t.open_files[fd].offset <= t.inodes[t.open_files[fd].inode_id].data.len()
        } by {
            if fd != s.next_fd {
                assert(s.open_files.contains_key(fd));
            }
        }
    }
}

/// A read keeps the state valid.
pub proof fn lemma_read_valid(s: KernelState, fd: u32, max: nat)
    requires
        s.valid(),
    ensures
        s.read(fd, max).valid(),
{
    let t = s.read(fd, max);
    if s.read_outcome(fd, max) is Ok {
        assert forall|h: u32| #[trigger] t.open_files.contains_key(h) implies {
            &&& FIRST_FD <= h < t.next_fd
            &&& t.inodes.contains_key(t.open_files[h].inode_id)
            &&& t.open_files[h].offset <= t.inodes[t.open_files[h].inode_id].data.len()
        } by {
            assert(s.open_files.contains_key(h));
        }
    }
}

/// An append keeps the state valid.
pub proof fn lemma_append_valid(s: KernelState, id: u32, bytes: Seq<u8>)
    requires
        s.valid(),
    ensures
        s.append(id, bytes).valid(),
{
    let t = s.append(id, bytes);
    if s.append_outcome(id, bytes) is Ok {
        assert forall|i: u32| #[trigger] t.inodes.contains_key(i) <==> i < t.next_inode_id by {
            assert(t.inodes.contains_key(i) == s.inodes.contains_key(i));
        }
        assert forall|i: u32| #[trigger] t.inodes.contains_key(i) && i != ROOT_INODE implies {
            &&& t.inodes[i].parent is Some
            &&& t.inodes[i].parent->0 < i
            &&& t.inodes[t.inodes[i].parent->0].kind == InodeType::Directory
        } by {
            assert(s.inodes.contains_key(i));
        }
        assert forall|i: u32, n: Seq<char>|
            t.inodes.contains_key(i) && #[trigger] t.inodes[i].children.contains_key(
                n,
            ) implies {
            let child = t.inodes[i].children[n];
            &&& t.inodes.contains_key(child)
            &&& child != ROOT_INODE
            &&& t.inodes[child].parent == Some(i)
            &&& t.inodes[child].name == n
        } by {
            assert(s.inodes.contains_key(i));
            assert(s.inodes[i].children.contains_key(n));
        }
        assert forall|h: u32| #[trigger] t.open_files.contains_key(h) implies {
            &&& FIRST_FD <= h < t.next_fd
            &&& t.inodes.contains_key(t.open_files[h].inode_id)
            &&& t.open_files[h].offset <= t.inodes[t.open_files[h].inode_id].data.len()
        } by {
            assert(s.open_files.contains_key(h));
            assert(s.inodes.contains_key(s.open_files[h].inode_id));
        }
    }
}

/// A write keeps the state valid.
pub proof fn lemma_write_valid(s: KernelState, fd: u32, bytes: Seq<u8>)
    requires
        s.valid(),
    ensures
        s.write(fd, bytes).valid(),
{
    if s.open_files.contains_key(fd) {
        lemma_append_valid(s, s.open_files[fd].inode_id, bytes);
    }
}

/// A close keeps the state valid.
pub proof fn lemma_close_valid(s: KernelState, fd: u32)
    requires
        s.valid(),
    ensures
        s.close(fd).valid(),
{
    let t = s.close(fd);
    assert forall|h: u32| #[trigger] t.open_files.contains_key(h) implies {
        &&& FIRST_FD <= h < t.next_fd
        &&& t.inodes.contains_key(t.open_files[h].inode_id)
        &&& t.open_files[h].offset <= t.inodes[t.open_files[h].inode_id].data.len()
    } by {
        assert(s.open_files.contains_key(h));
    }
}

/// A spawn keeps the state valid, as long as a pid is left.
pub proof fn lemma_spawn_valid(s: KernelState, parent_pid: u32)
    requires
        s.valid(),
        s.next_pid < u32::MAX,
    ensures
        s.spawn(parent_pid).valid(),
{
    let t = s.spawn(parent_pid);
    assert forall|pid: u32| #[trigger] t.processes.contains_key(pid) implies {
        &&& pid < t.next_pid
        &&& t.processes[pid].pid == pid
    } by {
        if pid != s.next_pid {
            assert(s.processes.contains_key(pid));
        }
    }
}

} // verus!
