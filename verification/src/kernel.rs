//! The kernel itself: the inode store, the path resolver, the descriptor
//! table and the process registry, held in one value that every operation
//! takes by reference.

use crate::error::{outcome, ErrorKind, FsError};
use crate::inode::{distinct_names, FileDescriptor, Inode, InodeType};
use crate::model::{
    lemma_append_valid, lemma_close_valid, lemma_create_valid, lemma_initial_valid,
    lemma_open_valid, lemma_read_valid, lemma_spawn_valid, KernelState, ROOT_INODE,
};
use crate::process::{ProcessControlBlock, ProcessState};
use crate::text::{split_fields, texts};
use std::collections::HashMap;
use vstd::prelude::*;
use vstd::slice::{slice_subrange, slice_to_vec};
use vstd::string::StringExecFns;

verus! {

/// The state of one kernel. Independent kernels can live side by side.
pub struct Kernel {
    booted: bool,
    start_time_ms: u64,
    current_time_ms: u64,
    process_table: HashMap<u32, ProcessControlBlock>,
    next_pid: u32,
    current_pid: u32,
    inode_map: HashMap<u32, Inode>,
    next_inode_id: u32,
    root_inode_id: u32,
    open_files: HashMap<u32, FileDescriptor>,
    next_fd: u32,
}

impl View for Kernel {
    type V = KernelState;

    closed spec fn view(&self) -> KernelState {
        KernelState {
            booted: self.booted,
            start_time_ms: self.start_time_ms,
            current_time_ms: self.current_time_ms,
            processes: self.process_table@,
            next_pid: self.next_pid,
            current_pid: self.current_pid,
            inodes: Map::new(
                |id: u32| self.inode_map@.contains_key(id),
                |id: u32| self.inode_map@[id]@,
            ),
            next_inode_id: self.next_inode_id,
            open_files: Map::new(
                |fd: u32| self.open_files@.contains_key(fd),
                |fd: u32| self.open_files@[fd]@,
            ),
            next_fd: self.next_fd,
        }
    }
}

impl Kernel {
    /// What the representation keeps beyond what the view shows: the root
    /// sits at id 0, every inode records the id it is stored under, and no
    /// directory holds two entries of one name.
    pub closed spec fn consistent(&self) -> bool {
        &&& self.root_inode_id == ROOT_INODE
        &&& forall|id: u32| #[trigger]
            self.inode_map@.contains_key(id) ==> {
                &&& self.inode_map@[id].id == id
                &&& distinct_names(self.inode_map@[id].children@)
            }
    }

    /// Well-formedness. `new` establishes it and every operation keeps it;
    /// since the fields are private, every kernel that a caller can hold is
    /// well formed.
    pub open spec fn wf(&self) -> bool {
        &&& self.consistent()
        &&& self@.valid()
    }

    /// A kernel with an empty root directory and the initial process.
    pub fn new() -> (kernel: Kernel)
        ensures
            kernel.wf(),
            kernel@ == KernelState::initial(),
    {
        let mut kernel = Kernel {
            booted: false,
            start_time_ms: 0,
            current_time_ms: 0,
            process_table: HashMap::new(),
            next_pid: 1,
            current_pid: 0,
            inode_map: HashMap::new(),
            next_inode_id: 1,
            root_inode_id: 0,
            open_files: HashMap::new(),
            next_fd: 3,
        };
        let root = Inode {
            id: 0,
            inode_type: InodeType::Directory,
            name: String::from_str("/"),
            data: Vec::new(),
            children: Vec::new(),
            parent: None,
        };
        kernel.inode_map.insert(0, root);
        let init_pcb = ProcessControlBlock {
            pid: 0,
            state: ProcessState::Running,
            parent_pid: None,
            exit_code: 0,
        };
        kernel.process_table.insert(0, init_pcb);
        proof {
            let want = KernelState::initial();
            assert(root@.children =~= Map::<Seq<char>, u32>::empty());
            assert(kernel@.inodes =~= want.inodes);
            assert(kernel@.open_files =~= want.open_files);
            assert(kernel@.processes =~= want.processes);
            assert(kernel@ =~= want);
            lemma_initial_valid();
        }
        kernel
    }

    /// The id that the next new inode gets.
    pub fn next_inode_id(&self) -> (id: u32)
        ensures
            id == self@.next_inode_id,
    {
        self.next_inode_id
    }

    /// The handle that the next open file gets.
    pub fn next_fd(&self) -> (fd: u32)
        ensures
            fd == self@.next_fd,
    {
        self.next_fd
    }

    /// The pid that the next new process gets.
    pub fn next_pid(&self) -> (pid: u32)
        ensures
            pid == self@.next_pid,
    {
        self.next_pid
    }

    // -----------------------------------------------------------------
    // Processes and the clock
    // -----------------------------------------------------------------
    /// Registers a new process and returns its pid.
    pub fn create_process(&mut self, parent_pid: u32) -> (pid: u32)
        requires
            old(self).wf(),
            old(self)@.next_pid < u32::MAX,
        ensures
            final(self).wf(),
            pid == old(self)@.next_pid,
            final(self)@ == old(self)@.spawn(parent_pid),
    {
        let pid = self.next_pid;
        self.next_pid += 1;
        let pcb = ProcessControlBlock {
            pid,
            state: ProcessState::Ready,
            parent_pid: Some(parent_pid),
            exit_code: 0,
        };
        self.process_table.insert(pid, pcb);
        proof {
            let want = old(self)@.spawn(parent_pid);
            assert(self@.inodes =~= want.inodes);
            assert(self@.open_files =~= want.open_files);
            assert(self@ =~= want);
            lemma_spawn_valid(old(self)@, parent_pid);
        }
        pid
    }

    /// Milliseconds since the kernel was started.
    pub fn get_uptime_ms(&self) -> (ms: u64)
        ensures
            ms == self@.uptime(),
    {
        if self.booted && self.current_time_ms >= self.start_time_ms {
            self.current_time_ms - self.start_time_ms
        } else {
            0
        }
    }

    /// Marks the kernel as started at `now`.
    pub fn start(&mut self, now: u64)
        requires
            old(self).wf(),
        ensures
            final(self).wf(),
            final(self)@ == old(self)@.started(now),
    {
        self.booted = true;
        self.start_time_ms = now;
        self.current_time_ms = now;
        proof {
            let want = old(self)@.started(now);
            assert(self@.inodes =~= want.inodes);
            assert(self@.open_files =~= want.open_files);
            assert(self@ =~= want);
        }
    }

    /// Takes the host's reading of the clock.
    pub fn set_time(&mut self, now: u64)
        requires
            old(self).wf(),
        ensures
            final(self).wf(),
            final(self)@ == old(self)@.at_time(now),
    {
        self.current_time_ms = now;
        proof {
            let want = old(self)@.at_time(now);
            assert(self@.inodes =~= want.inodes);
            assert(self@.open_files =~= want.open_files);
            assert(self@ =~= want);
        }
    }

    // -----------------------------------------------------------------
    // Inode store
    // -----------------------------------------------------------------
    /// Creates an empty inode named `name` in the directory `parent_id`.
    ///
    /// An entry of the same name is replaced: the inode it led to stays in
    /// the store, out of reach of any path.
    pub fn create_inode(&mut self, parent_id: u32, name: String, inode_type: InodeType) -> (r:
        Result<u32, FsError>)
        requires
            old(self).wf(),
            old(self)@.next_inode_id < u32::MAX,
        ensures
            final(self).wf(),
            outcome(r) == old(self)@.create_outcome(parent_id),
            final(self)@ == old(self)@.create(parent_id, name@, inode_type),
    {
        let is_dir = match self.inode_map.get(&parent_id) {
            None => {
                return Err(FsError::ParentNotFound);
            },
            Some(parent) => parent.is_directory(),
        };
        if !is_dir {
            return Err(FsError::NotADirectory);
        }
        let inode_id = self.next_inode_id;
        self.next_inode_id += 1;
        let inode = Inode {
            id: inode_id,
            inode_type,
            name: name.clone(),
            data: Vec::new(),
            children: Vec::new(),
            parent: Some(parent_id),
        };
        self.inode_map.insert(inode_id, inode);
        let mut parent = self.inode_map.remove(&parent_id).unwrap();
        parent.set_child(name, inode_id);
        self.inode_map.insert(parent_id, parent);
        proof {
            let want = old(self)@.create(parent_id, name@, inode_type);
            assert(inode@.children =~= Map::<Seq<char>, u32>::empty());
            assert(self@.inodes =~= want.inodes);
            assert(self@.open_files =~= want.open_files);
            assert(self@ =~= want);
            lemma_create_valid(old(self)@, parent_id, name@, inode_type);
        }
        Ok(inode_id)
    }

    /// The inode stored under `inode_id`, if there is one.
    pub fn inode(&self, inode_id: u32) -> (r: Option<&Inode>)
        requires
            self.wf(),
        ensures
            r is Some == self@.inodes.contains_key(inode_id),
            r matches Some(inode) ==> inode@ == self@.inodes[inode_id] && inode.id == inode_id
                && distinct_names(inode.children@),
    {
        self.inode_map.get(&inode_id)
    }

    /// The names entered in the directory `inode_id`, each once, in no
    /// particular order.
    pub fn list_directory(&self, inode_id: u32) -> (r: Result<Vec<String>, FsError>)
        requires
            self.wf(),
        ensures
            match r {
                Ok(names) => {
                    &&& self@.listing(inode_id) == Ok::<Set<Seq<char>>, ErrorKind>(
                        texts(names@).to_set(),
                    )
                    &&& texts(names@).no_duplicates()
                },
                Err(e) => self@.listing(inode_id) == Err::<Set<Seq<char>>, ErrorKind>(e@),
            },
    {
        match self.inode_map.get(&inode_id) {
            None => Err(FsError::NotFound),
            Some(inode) => {
                if inode.is_directory() {
                    Ok(inode.child_names())
                } else {
                    Err(FsError::NotADirectory)
                }
            },
        }
    }

    /// Appends `data` to the content of the inode `inode_id`, file or
    /// directory alike, and returns how many bytes that was.
    pub fn append(&mut self, inode_id: u32, data: &[u8]) -> (r: Result<usize, FsError>)
        requires
            old(self).wf(),
        ensures
            final(self).wf(),
            outcome(r) == old(self)@.append_outcome(inode_id, data@),
            final(self)@ == old(self)@.append(inode_id, data@),
    {
        if !self.inode_map.contains_key(&inode_id) {
            return Err(FsError::NotFound);
        }
        let mut inode = self.inode_map.remove(&inode_id).unwrap();
        let written = data.len();
        inode.data.extend_from_slice(data);
        proof {
            assert(inode.data@ =~= old(self).inode_map@[inode_id].data@ + data@);
        }
        self.inode_map.insert(inode_id, inode);
        proof {
            let want = old(self)@.append(inode_id, data@);
            assert(self@.inodes =~= want.inodes);
            assert(self@.open_files =~= want.open_files);
            assert(self@ =~= want);
            lemma_append_valid(old(self)@, inode_id, data@);
        }
        Ok(written)
    }

    /// A copy of the content of the inode `inode_id`, file or directory
    /// alike.
    pub fn read_file_content(&self, inode_id: u32) -> (r: Result<Vec<u8>, FsError>)
        requires
            self.wf(),
        ensures
            match r {
                Ok(bytes) => self@.content(inode_id) == Ok::<Seq<u8>, ErrorKind>(bytes@),
                Err(e) => self@.content(inode_id) == Err::<Seq<u8>, ErrorKind>(e@),
            },
    {
        match self.inode_map.get(&inode_id) {
            None => Err(FsError::NotFound),
            Some(inode) => Ok(slice_to_vec(inode.data.as_slice())),
        }
    }

    // -----------------------------------------------------------------
    // Path resolution
    // -----------------------------------------------------------------
    /// Follows `components` from the root, one directory entry at a time.
    pub fn walk(&self, components: &Vec<String>) -> (r: Result<u32, FsError>)
        requires
            self.wf(),
        ensures
            outcome(r) == self@.walk(ROOT_INODE, texts(components@)),
    {
        let ghost path = texts(components@);
        let mut current_id = self.root_inode_id;
        let mut i: usize = 0;
        proof {
            assert(path.skip(0) =~= path);
        }
        while i < components.len()
            invariant
                self.wf(),
                i <= components.len(),
                path == texts(components@),
                self@.walk(ROOT_INODE, path) == self@.walk(current_id, path.skip(i as int)),
            decreases components.len() - i,
        {
            let component = &components[i];
            proof {
                assert(path.skip(i as int)[0] == component@);
                assert(path.skip(i as int).drop_first() =~= path.skip(i + 1));
            }
            match self.inode_map.get(&current_id) {
                None => {
                    return Err(FsError::InternalInconsistency);
                },
                Some(inode) => {
                    match inode.child(component) {
                        None => {
                            return Err(FsError::PathComponentNotFound(component.clone()));
                        },
                        Some(next_id) => {
                            current_id = next_id;
                        },
                    }
                },
            }
            i += 1;
        }
        Ok(current_id)
    }

    /// The inode that `path` leads to from the root.
    pub fn get_inode(&self, path: &str) -> (r: Result<u32, FsError>)
        requires
            self.wf(),
        ensures
            outcome(r) == self@.resolve(path@),
    {
        let components = split_fields(path, '/');
        self.walk(&components)
    }

    // -----------------------------------------------------------------
    // Descriptor table
    // -----------------------------------------------------------------
    /// Opens the inode `inode_id` and returns the new handle. The mode is
    /// recorded as given.
    pub fn open_file(&mut self, inode_id: u32, mode: &str) -> (r: Result<u32, FsError>)
        requires
            old(self).wf(),
            old(self)@.next_fd < u32::MAX,
        ensures
            final(self).wf(),
            outcome(r) == old(self)@.open_outcome(inode_id),
            final(self)@ == old(self)@.open(inode_id, mode@),
    {
        if !self.inode_map.contains_key(&inode_id) {
            return Err(FsError::InvalidInode);
        }
        let fd = self.next_fd;
        self.next_fd += 1;
        let descriptor = FileDescriptor { inode_id, offset: 0, mode: String::from_str(mode) };
        self.open_files.insert(fd, descriptor);
        proof {
            let want = old(self)@.open(inode_id, mode@);
            assert(self@.inodes =~= want.inodes);
            assert(self@.open_files =~= want.open_files);
            assert(self@ =~= want);
            lemma_open_valid(old(self)@, inode_id, mode@);
        }
        Ok(fd)
    }

    /// Reads at most `buf_size` bytes at the cursor of `fd` and moves the
    /// cursor past them. At the end of the content the result is empty.
    pub fn read_file(&mut self, fd: u32, buf_size: usize) -> (r: Result<Vec<u8>, FsError>)
        requires
            old(self).wf(),
        ensures
            final(self).wf(),
            match r {
                Ok(bytes) => old(self)@.read_outcome(fd, buf_size as nat) == Ok::<
                    Seq<u8>,
                    ErrorKind,
                >(bytes@),
                Err(e) => old(self)@.read_outcome(fd, buf_size as nat) == Err::<
                    Seq<u8>,
                    ErrorKind,
                >(e@),
            },
            final(self)@ == old(self)@.read(fd, buf_size as nat),
    {
        let (inode_id, start) = match self.open_files.get(&fd) {
            None => {
                return Err(FsError::BadDescriptor);
            },
            Some(descriptor) => (descriptor.inode_id, descriptor.offset),
        };
        let (read_data, end) = match self.inode_map.get(&inode_id) {
            None => {
                return Err(FsError::NotFound);
            },
            Some(inode) => {
                let left = inode.data.len() - start;
                let end = if buf_size < left {
                    start + buf_size
                } else {
                    inode.data.len()
                };
                (slice_to_vec(slice_subrange(inode.data.as_slice(), start, end)), end)
            },
        };
        let mut descriptor = self.open_files.remove(&fd).unwrap();
        descriptor.offset = end;
        self.open_files.insert(fd, descriptor);
        proof {
            let want = old(self)@.read(fd, buf_size as nat);
            assert(self@.inodes =~= want.inodes);
            assert(self@.open_files =~= want.open_files);
            assert(self@ =~= want);
            lemma_read_valid(old(self)@, fd, buf_size as nat);
        }
        Ok(read_data)
    }

    /// Appends `data` to the content of the inode that `fd` refers to,
    /// whatever the mode of `fd` and wherever its cursor is.
    pub fn write_file(&mut self, fd: u32, data: &[u8]) -> (r: Result<usize, FsError>)
        requires
            old(self).wf(),
        ensures
            final(self).wf(),
            outcome(r) == old(self)@.write_outcome(fd, data@),
            final(self)@ == old(self)@.write(fd, data@),
    {
        let inode_id = match self.open_files.get(&fd) {
            None => {
                return Err(FsError::BadDescriptor);
            },
            Some(descriptor) => descriptor.inode_id,
        };
        self.append(inode_id, data)
    }

    /// Closes `fd`. The inode it referred to is not touched.
    pub fn close_file(&mut self, fd: u32) -> (r: Result<(), FsError>)
        requires
            old(self).wf(),
        ensures
            final(self).wf(),
            outcome(r) == old(self)@.close_outcome(fd),
            final(self)@ == old(self)@.close(fd),
    {
        let removed = self.open_files.remove(&fd);
        proof {
            let want = old(self)@.close(fd);
            assert(self@.inodes =~= want.inodes);
            assert(self@.open_files =~= want.open_files);
            assert(self@ =~= want);
            lemma_close_valid(old(self)@, fd);
        }
        match removed {
            Some(_) => Ok(()),
            None => Err(FsError::BadDescriptor),
        }
    }
}

} // verus!
