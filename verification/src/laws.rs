//! What holds of the kernel across calls, stated over its model and proved.

use crate::error::ErrorKind;
use crate::inode::InodeType;
use crate::model::{
    lemma_create_valid, lemma_initial_valid, lemma_open_valid, lemma_read_valid, min,
    KernelState, FIRST_FD, ROOT_INODE,
};
use crate::syscall::kind_of;
use crate::text::{
    byte_list, fields, lemma_byte_list_of_render, lemma_fields_are_clean, render_bytes,
};
use vstd::prelude::*;

verus! {

// ---------------------------------------------------------------------
// The tree
// ---------------------------------------------------------------------

/// The inode reached from `id` by following parent links `steps` times,
/// stopping at the root.
pub open spec fn ancestor(s: KernelState, id: u32, steps: nat) -> u32
    decreases steps,
{
    if steps == 0 || id == ROOT_INODE || s.inodes[id].parent is None {
        id
    } else {
        ancestor(s, s.inodes[id].parent->0, (steps - 1) as nat)
    }
}

/// The root exists, is a directory, and has no parent.
pub proof fn root_is_a_directory(s: KernelState)
    requires
        s.valid(),
    ensures
        s.inodes.contains_key(ROOT_INODE),
        s.inodes[ROOT_INODE].kind == InodeType::Directory,
        s.inodes[ROOT_INODE].parent is None,
{
}

/// Parent links form a tree: from every inode of the store they lead to
/// the root, in at most as many steps as the inode's id.
pub proof fn parent_chain_reaches_root(s: KernelState, id: u32)
    requires
        s.valid(),
        s.inodes.contains_key(id),
    ensures
        ancestor(s, id, id as nat) == ROOT_INODE,
    decreases id,
{
    if id != ROOT_INODE {
        let p = s.inodes[id].parent->0;
        assert(s.inodes.contains_key(p));
        parent_chain_reaches_root(s, p);
        ancestor_stays_at_root(s, p, p as nat, (id - 1) as nat);
    }
}

/// Once the root is reached, more steps stay there.
pub proof fn ancestor_stays_at_root(s: KernelState, id: u32, steps: nat, more: nat)
    requires
        ancestor(s, id, steps) == ROOT_INODE,
        steps <= more,
    ensures
        ancestor(s, id, more) == ROOT_INODE,
    decreases steps,
{
    if steps == 0 || id == ROOT_INODE || s.inodes[id].parent is None {
    } else {
        ancestor_stays_at_root(
            s,
            s.inodes[id].parent->0,
            (steps - 1) as nat,
            (more - 1) as nat,
        );
    }
}

/// A directory entry leads to exactly one inode, and that inode is entered
/// nowhere else: not in another directory, not under another name.
pub proof fn entries_do_not_share_inodes(
    s: KernelState,
    dir_a: u32,
    name_a: Seq<char>,
    dir_b: u32,
    name_b: Seq<char>,
)
    requires
        s.valid(),
        s.inodes.contains_key(dir_a),
        s.inodes.contains_key(dir_b),
        s.inodes[dir_a].children.contains_key(name_a),
        s.inodes[dir_b].children.contains_key(name_b),
        s.inodes[dir_a].children[name_a] == s.inodes[dir_b].children[name_b],
    ensures
        dir_a == dir_b,
        name_a == name_b,
        s.inodes[dir_a].kind == InodeType::Directory,
{
    let child = s.inodes[dir_a].children[name_a];
    assert(s.inodes.contains_key(child));
}

/// Whether `t` holds every inode of `s` with the kind, name and parent it
/// has in `s`, and with content that begins with its content in `s`.
pub open spec fn grown_from(t: KernelState, s: KernelState) -> bool {
    forall|id: u32| #[trigger]
        s.inodes.contains_key(id) ==> {
            &&& t.inodes.contains_key(id)
            &&& t.inodes[id].kind == s.inodes[id].kind
            &&& t.inodes[id].name == s.inodes[id].name
            &&& t.inodes[id].parent == s.inodes[id].parent
            &&& s.inodes[id].data.is_prefix_of(t.inodes[id].data)
        }
}

/// No operation removes an inode, changes its kind, name or parent, or
/// takes content away: content only grows at its end.
pub proof fn store_only_grows(
    s: KernelState,
    parent: u32,
    name: Seq<char>,
    kind: InodeType,
    fd: u32,
    inode_id: u32,
    mode: Seq<char>,
    max: nat,
    bytes: Seq<u8>,
    pid: u32,
    now: u64,
)
    requires
        s.valid(),
    ensures
        grown_from(s.create(parent, name, kind), s),
        grown_from(s.append(inode_id, bytes), s),
        grown_from(s.open(inode_id, mode), s),
        grown_from(s.read(fd, max), s),
        grown_from(s.write(fd, bytes), s),
        grown_from(s.close(fd), s),
        grown_from(s.spawn(pid), s),
        grown_from(s.at_time(now), s),
        grown_from(s.started(now), s),
{
    assert(grown_from(s.create(parent, name, kind), s)) by {
        assert(!s.inodes.contains_key(s.next_inode_id));
    }
    assert forall|data: Seq<u8>| data.is_prefix_of(#[trigger] (data + bytes)) by {}
}

/// The name that a successful create call enters is never empty and holds
/// no slash.
pub proof fn created_name_is_clean(s: KernelState, path: Seq<char>)
    requires
        s.sys_create_ok(path),
    ensures
        fields(path, '/').last().len() > 0,
        !fields(path, '/').last().contains('/'),
{
    lemma_fields_are_clean(path, '/');
    let names = fields(path, '/');
    assert(names.last() == names[names.len() - 1]);
}

// ---------------------------------------------------------------------
// Resolution
// ---------------------------------------------------------------------

/// Whether two states hold the same inodes with the same directory
/// entries. Content, descriptors, processes and the clock may differ.
pub open spec fn same_namespace(s: KernelState, t: KernelState) -> bool {
    forall|id: u32|
        {
            &&& #[trigger] s.inodes.contains_key(id) == t.inodes.contains_key(id)
            &&& s.inodes.contains_key(id) ==> s.inodes[id].children == t.inodes[id].children
        }
}

/// Following the same components from the same inode gives the same
/// outcome in every state with the same directory entries.
pub proof fn walk_depends_on_namespace_only(
    s: KernelState,
    t: KernelState,
    from: u32,
    components: Seq<Seq<char>>,
)
    requires
        same_namespace(s, t),
    ensures
        s.walk(from, components) == t.walk(from, components),
    decreases components.len(),
{
    if components.len() > 0 {
        assert(s.inodes.contains_key(from) == t.inodes.contains_key(from));
        if s.inodes.contains_key(from) && s.inodes[from].children.contains_key(components[0]) {
            walk_depends_on_namespace_only(
                s,
                t,
                s.inodes[from].children[components[0]],
                components.drop_first(),
            );
        }
    }
}

/// Resolution is a function of the path and the directory entries alone:
/// a path resolves alike in any two states that hold the same entries.
pub proof fn resolve_depends_on_namespace_only(s: KernelState, t: KernelState, path: Seq<char>)
    requires
        same_namespace(s, t),
    ensures
        s.resolve(path) == t.resolve(path),
{
    walk_depends_on_namespace_only(s, t, ROOT_INODE, fields(path, '/'));
}

/// Opening, reading, writing and closing files, spawning processes and
/// moving the clock leave every path resolving as before.
pub proof fn resolve_survives_file_traffic(
    s: KernelState,
    path: Seq<char>,
    fd: u32,
    inode_id: u32,
    mode: Seq<char>,
    max: nat,
    bytes: Seq<u8>,
    pid: u32,
    now: u64,
)
    ensures
        s.open(inode_id, mode).resolve(path) == s.resolve(path),
        s.read(fd, max).resolve(path) == s.resolve(path),
        s.write(fd, bytes).resolve(path) == s.resolve(path),
        s.close(fd).resolve(path) == s.resolve(path),
        s.spawn(pid).resolve(path) == s.resolve(path),
        s.at_time(now).resolve(path) == s.resolve(path),
{
    resolve_depends_on_namespace_only(s.open(inode_id, mode), s, path);
    resolve_depends_on_namespace_only(s.read(fd, max), s, path);
    resolve_depends_on_namespace_only(s.write(fd, bytes), s, path);
    resolve_depends_on_namespace_only(s.close(fd), s, path);
    resolve_depends_on_namespace_only(s.spawn(pid), s, path);
    resolve_depends_on_namespace_only(s.at_time(now), s, path);
}

/// In a valid state resolution never runs into a missing inode: it finds
/// an inode of the store, or names the component it could not find.
pub proof fn walk_stays_in_store(s: KernelState, from: u32, components: Seq<Seq<char>>)
    requires
        s.valid(),
        s.inodes.contains_key(from),
    ensures
        match s.walk(from, components) {
            Ok(id) => s.inodes.contains_key(id),
            Err(e) => e is PathComponentNotFound,
        },
    decreases components.len(),
{
    if components.len() > 0 && s.inodes[from].children.contains_key(components[0]) {
        walk_stays_in_store(s, s.inodes[from].children[components[0]], components.drop_first());
    }
}

// ---------------------------------------------------------------------
// Creation
// ---------------------------------------------------------------------

/// A create call whose parent path leads nowhere fails and changes
/// nothing.
pub proof fn create_needs_parent(s: KernelState, path: Seq<char>, is_dir: bool)
    requires
        s.create_parent(path) is Err,
    ensures
        !s.sys_create_ok(path),
        s.sys_create(path, is_dir) == s,
{
}

/// A create call whose path holds no name (the empty path, or slashes
/// only) fails and changes nothing.
pub proof fn create_needs_name(s: KernelState, path: Seq<char>, is_dir: bool)
    requires
        fields(path, '/').len() == 0,
    ensures
        !s.sys_create_ok(path),
        s.sys_create(path, is_dir) == s,
{
}

/// A create request under an id that the store does not hold, or under a
/// file, fails and changes nothing.
pub proof fn create_needs_directory(s: KernelState, parent: u32, name: Seq<char>, kind: InodeType)
    requires
        !s.inodes.contains_key(parent) || s.inodes[parent].kind != InodeType::Directory,
    ensures
        s.create_outcome(parent) is Err,
        s.create(parent, name, kind) == s,
{
}

/// Walking down never leads to a smaller id: every step goes from a
/// directory to an inode that was created after it.
pub proof fn walk_goes_to_younger_inodes(s: KernelState, from: u32, components: Seq<Seq<char>>)
    requires
        s.valid(),
        s.inodes.contains_key(from),
        s.walk(from, components) is Ok,
    ensures
        s.walk(from, components)->Ok_0 >= from,
        components.len() > 0 ==> s.walk(from, components)->Ok_0 > from,
    decreases components.len(),
{
    if components.len() > 0 {
        let next = s.inodes[from].children[components[0]];
        assert(s.inodes[from].children.contains_key(components[0]));
        assert(s.inodes.contains_key(next));
        walk_goes_to_younger_inodes(s, next, components.drop_first());
    }
}

/// Following one component more is following the others first and taking
/// one step from where they lead.
pub proof fn walk_one_more(s: KernelState, from: u32, components: Seq<Seq<char>>, last: Seq<char>)
    ensures
        s.walk(from, components.push(last)) == match s.walk(from, components) {
            Ok(id) => s.walk(id, seq![last]),
            Err(e) => Err(e),
        },
    decreases components.len(),
{
    let all = components.push(last);
    if components.len() == 0 {
        assert(all =~= seq![last]);
    } else {
        assert(all[0] == components[0]);
        assert(all.drop_first() =~= components.drop_first().push(last));
        if s.inodes.contains_key(from) && s.inodes[from].children.contains_key(components[0]) {
            walk_one_more(s, s.inodes[from].children[components[0]], components.drop_first(), last);
        }
    }
}

/// A create under `parent` leaves every walk that ends at `parent` as it
/// was.
pub proof fn create_keeps_walks_to_parent(
    s: KernelState,
    parent: u32,
    name: Seq<char>,
    kind: InodeType,
    from: u32,
    components: Seq<Seq<char>>,
)
    requires
        s.valid(),
        s.inodes.contains_key(from),
        s.walk(from, components) == Ok::<u32, ErrorKind>(parent),
    ensures
        s.create(parent, name, kind).walk(from, components) == Ok::<u32, ErrorKind>(parent),
    decreases components.len(),
{
    let t = s.create(parent, name, kind);
    if components.len() > 0 {
        let next = s.inodes[from].children[components[0]];
        assert(s.inodes[from].children.contains_key(components[0]));
        assert(s.inodes.contains_key(next));
        walk_goes_to_younger_inodes(s, next, components.drop_first());
        assert(from != parent);
        assert(from != s.next_inode_id);
        assert(t.inodes.contains_key(from));
        assert(t.inodes[from] == s.inodes[from]);
        create_keeps_walks_to_parent(s, parent, name, kind, next, components.drop_first());
    }
}

/// What was created is found: after a successful create call the same
/// path leads to the new inode, which is of the kind asked for, empty, and
/// named by the path's last component.
pub proof fn create_then_resolve(s: KernelState, path: Seq<char>, is_dir: bool)
    requires
        s.valid(),
        s.sys_create_ok(path),
    ensures
        ({
            let t = s.sys_create(path, is_dir);
            let id = s.next_inode_id;
            &&& t.resolve(path) == Ok::<u32, ErrorKind>(id)
            &&& t.inodes.contains_key(id)
            &&& t.inodes[id].kind == kind_of(is_dir)
            &&& t.inodes[id].name == fields(path, '/').last()
            &&& t.inodes[id].data == Seq::<u8>::empty()
            &&& t.inodes[id].children == Map::<Seq<char>, u32>::empty()
            &&& t.inodes[id].parent == Some(s.create_parent(path)->Ok_0)
            &&& t.sys_exists_result(path) == (if is_dir {
                1int
            } else {
                0int
            })
        }),
{
    let names = fields(path, '/');
    let name = names.last();
    let parent = s.create_parent(path)->Ok_0;
    let t = s.sys_create(path, is_dir);
    let id = s.next_inode_id;
    assert(!s.inodes.contains_key(id));
    assert(parent != id);
    create_keeps_walks_to_parent(s, parent, name, kind_of(is_dir), ROOT_INODE, names.drop_last());
    walk_one_more(t, ROOT_INODE, names.drop_last(), name);
    assert(names.drop_last().push(name) =~= names);
    assert(t.inodes[parent].children.contains_key(name));
    assert(t.inodes[parent].children[name] == id);
    assert(seq![name].drop_first() =~= Seq::<Seq<char>>::empty());
    assert(t.walk(id, Seq::<Seq<char>>::empty()) == Ok::<u32, ErrorKind>(id));
    assert(t.walk(parent, seq![name]) == Ok::<u32, ErrorKind>(id));
}

/// A create under a name that the parent does not hold yet hides nothing:
/// every walk that found an inode before finds the same inode after.
pub proof fn create_under_fresh_name_keeps_paths(
    s: KernelState,
    parent: u32,
    name: Seq<char>,
    kind: InodeType,
    from: u32,
    components: Seq<Seq<char>>,
)
    requires
        s.valid(),
        s.inodes.contains_key(parent) ==> !s.inodes[parent].children.contains_key(name),
        s.walk(from, components) is Ok,
    ensures
        s.create(parent, name, kind).walk(from, components) == s.walk(from, components),
    decreases components.len(),
{
    let t = s.create(parent, name, kind);
    if components.len() > 0 {
        let next = s.inodes[from].children[components[0]];
        assert(s.inodes[from].children.contains_key(components[0]));
        assert(from != s.next_inode_id);
        assert(t.inodes.contains_key(from));
        assert(t.inodes[from].children.contains_key(components[0]));
        assert(t.inodes[from].children[components[0]] == next);
        create_under_fresh_name_keeps_paths(s, parent, name, kind, next, components.drop_first());
    }
}

// ---------------------------------------------------------------------
// Reading
// ---------------------------------------------------------------------

/// What a run of reads on `fd` returns, one result after the other.
pub open spec fn reads(s: KernelState, fd: u32, sizes: Seq<nat>) -> Seq<u8>
    decreases sizes.len(),
{
    if sizes.len() == 0 {
        Seq::empty()
    } else {
        s.read_outcome(fd, sizes[0])->Ok_0 + reads(s.read(fd, sizes[0]), fd, sizes.drop_first())
    }
}

/// The state after a run of reads on `fd`.
pub open spec fn after_reads(s: KernelState, fd: u32, sizes: Seq<nat>) -> KernelState
    decreases sizes.len(),
{
    if sizes.len() == 0 {
        s
    } else {
        after_reads(s.read(fd, sizes[0]), fd, sizes.drop_first())
    }
}

/// The sum of the sizes.
pub open spec fn total(sizes: Seq<nat>) -> nat
    decreases sizes.len(),
{
    if sizes.len() == 0 {
        0
    } else {
        sizes[0] + total(sizes.drop_first())
    }
}

/// A descriptor that was just opened has its cursor at 0.
pub proof fn fresh_descriptor_starts_at_zero(s: KernelState, inode_id: u32, mode: Seq<char>)
    requires
        s.open_outcome(inode_id) is Ok,
    ensures
        s.open(inode_id, mode).open_files.contains_key(s.open_outcome(inode_id)->Ok_0),
        s.open(inode_id, mode).open_files[s.open_outcome(inode_id)->Ok_0].offset == 0,
        s.open(inode_id, mode).open_files[s.open_outcome(inode_id)->Ok_0].inode_id == inode_id,
{
}

/// One read returns the content between the cursor before it and the
/// cursor after it, and moves the cursor forward, never past the end.
pub proof fn read_returns_what_the_cursor_passes(s: KernelState, fd: u32, max: nat)
    requires
        s.valid(),
        s.open_files.contains_key(fd),
    ensures
        ({
            let d = s.open_files[fd];
            let data = s.inodes[d.inode_id].data;
            let t = s.read(fd, max);
            let end = t.open_files[fd].offset;
            &&& t.inodes == s.inodes
            &&& t.open_files.contains_key(fd)
            &&& t.open_files[fd].inode_id == d.inode_id
            &&& end == min(d.offset + max, data.len())
            &&& d.offset <= end <= data.len()
            &&& s.read_outcome(fd, max) == Ok::<Seq<u8>, ErrorKind>(
                data.subrange(d.offset as int, end as int),
            )
        }),
{
}

/// Successive reads cut the content into adjoining pieces: put together
/// in order, they are the content from where the cursor stood before the
/// first read to where it stands after the last, and that is as far as the
/// sizes add up to, or the end of the content.
pub proof fn reads_partition_content(s: KernelState, fd: u32, sizes: Seq<nat>)
    requires
        s.valid(),
        s.open_files.contains_key(fd),
    ensures
        ({
            let d = s.open_files[fd];
            let data = s.inodes[d.inode_id].data;
            let t = after_reads(s, fd, sizes);
            let end = t.open_files[fd].offset;
            &&& t.valid()
            &&& t.inodes == s.inodes
            &&& t.open_files.contains_key(fd)
            &&& t.open_files[fd].inode_id == d.inode_id
            &&& end == min(d.offset + total(sizes), data.len())
            &&& reads(s, fd, sizes) == data.subrange(d.offset as int, end as int)
        }),
    decreases sizes.len(),
{
    let d = s.open_files[fd];
    let data = s.inodes[d.inode_id].data;
    if sizes.len() == 0 {
        assert(data.subrange(d.offset as int, d.offset as int) =~= Seq::<u8>::empty());
    } else {
        let mid_state = s.read(fd, sizes[0]);
        read_returns_what_the_cursor_passes(s, fd, sizes[0]);
        lemma_read_valid(s, fd, sizes[0]);
        reads_partition_content(mid_state, fd, sizes.drop_first());
        let mid = mid_state.open_files[fd].offset;
        let end = after_reads(s, fd, sizes).open_files[fd].offset;
        assert(data.subrange(d.offset as int, mid as int) + data.subrange(mid as int, end as int)
            =~= data.subrange(d.offset as int, end as int));
    }
}

/// Read from a fresh descriptor, the pieces put together are the content
/// from its first byte on.
pub proof fn reads_from_fresh_descriptor(
    s: KernelState,
    inode_id: u32,
    mode: Seq<char>,
    sizes: Seq<nat>,
)
    requires
        s.valid(),
        s.next_fd < u32::MAX,
        s.inodes.contains_key(inode_id),
    ensures
        ({
            let fd = s.next_fd;
            let data = s.inodes[inode_id].data;
            reads(s.open(inode_id, mode), fd, sizes) == data.take(
                min(total(sizes), data.len()) as int,
            )
        }),
{
    lemma_open_valid(s, inode_id, mode);
    reads_partition_content(s.open(inode_id, mode), s.next_fd, sizes);
}

/// A read at the end of the content succeeds, returns nothing, and
/// changes nothing.
pub proof fn read_at_end_is_empty(s: KernelState, fd: u32, max: nat)
    requires
        s.valid(),
        s.open_files.contains_key(fd),
        s.open_files[fd].offset >= s.inodes[s.open_files[fd].inode_id].data.len(),
    ensures
        s.read_outcome(fd, max) == Ok::<Seq<u8>, ErrorKind>(Seq::empty()),
        s.read(fd, max) == s,
{
    let d = s.open_files[fd];
    let data = s.inodes[d.inode_id].data;
    assert(data.subrange(d.offset as int, d.offset as int) =~= Seq::<u8>::empty());
    assert(s.read(fd, max).open_files =~= s.open_files);
    assert(s.read(fd, max) =~= s);
}

/// Each descriptor has its own cursor: a read moves the cursor of its own
/// handle and no other, and a write moves none.
pub proof fn cursors_are_independent(
    s: KernelState,
    fd: u32,
    other: u32,
    max: nat,
    bytes: Seq<u8>,
)
    requires
        s.open_files.contains_key(other),
    ensures
        other != fd ==> s.read(fd, max).open_files[other] == s.open_files[other],
        s.write(fd, bytes).open_files == s.open_files,
{
}

// ---------------------------------------------------------------------
// Closing
// ---------------------------------------------------------------------

/// Closing a handle that was just closed fails.
pub proof fn close_twice_fails(s: KernelState, fd: u32)
    ensures
        s.close(fd).close_outcome(fd) == Err::<(), ErrorKind>(ErrorKind::BadDescriptor),
{
}

/// Closing a handle that was never handed out fails.
pub proof fn close_unopened_fails(s: KernelState, fd: u32)
    requires
        s.valid(),
        fd < FIRST_FD || fd >= s.next_fd,
    ensures
        s.close_outcome(fd) == Err::<(), ErrorKind>(ErrorKind::BadDescriptor),
        s.close(fd) == s,
{
    assert(s.close(fd).open_files =~= s.open_files);
    assert(s.close(fd) =~= s);
}

/// A handle is handed out once: no open after a close gives the closed
/// handle out again.
pub proof fn closed_handle_is_not_reused(s: KernelState, fd: u32, inode_id: u32)
    requires
        s.valid(),
        s.open_files.contains_key(fd),
    ensures
        s.close(fd).open_outcome(inode_id) != Ok::<u32, ErrorKind>(fd),
{
}

/// Closing a descriptor leaves every inode as it was.
pub proof fn close_leaves_inodes(s: KernelState, fd: u32)
    ensures
        s.close(fd).inodes == s.inodes,
{
}

// ---------------------------------------------------------------------
// Writing
// ---------------------------------------------------------------------

/// What was written stays: after a write through `fd`, and whether or not
/// `fd` is then closed, a fresh descriptor on the same inode reads back the
/// earlier content followed by the bytes written.
pub proof fn write_then_read_back(
    s: KernelState,
    fd: u32,
    bytes: Seq<u8>,
    mode: Seq<char>,
    close_first: bool,
)
    requires
        s.valid(),
        s.open_files.contains_key(fd),
    ensures
        ({
            let id = s.open_files[fd].inode_id;
            let before = s.inodes[id].data;
            let written = s.write(fd, bytes);
            let t = if close_first {
                written.close(fd)
            } else {
                written
            };
            &&& s.write_outcome(fd, bytes) is Ok
            &&& t.open_outcome(id) == Ok::<u32, ErrorKind>(s.next_fd)
            &&& t.open(id, mode).read_outcome(s.next_fd, before.len() + bytes.len()) == Ok::<
                Seq<u8>,
                ErrorKind,
            >(before + bytes)
        }),
{
    let id = s.open_files[fd].inode_id;
    let before = s.inodes[id].data;
    let all = before + bytes;
    assert(all.subrange(0, all.len() as int) =~= all);
}

/// Written to an empty file, the bytes are exactly what a fresh descriptor
/// reads back in one read of their length.
pub proof fn write_to_empty_then_read_back(
    s: KernelState,
    fd: u32,
    bytes: Seq<u8>,
    mode: Seq<char>,
    close_first: bool,
)
    requires
        s.valid(),
        s.open_files.contains_key(fd),
        s.inodes[s.open_files[fd].inode_id].data.len() == 0,
    ensures
        ({
            let id = s.open_files[fd].inode_id;
            let written = s.write(fd, bytes);
            let t = if close_first {
                written.close(fd)
            } else {
                written
            };
            t.open(id, mode).read_outcome(s.next_fd, bytes.len()) == Ok::<Seq<u8>, ErrorKind>(
                bytes,
            )
        }),
{
    write_then_read_back(s, fd, bytes, mode, close_first);
    let before = s.inodes[s.open_files[fd].inode_id].data;
    assert(before + bytes =~= bytes);
}

// ---------------------------------------------------------------------
// The boundary's byte lists
// ---------------------------------------------------------------------

/// What `fs_read` answers is a byte list that `fs_write` accepts, and it
/// lists the bytes that were read.
pub proof fn read_text_is_a_byte_list(s: KernelState, fd: u32, size: nat)
    requires
        s.read_outcome(fd, size) is Ok,
    ensures
        byte_list(s.sys_read_result(fd, size)) == Some(s.read_outcome(fd, size)->Ok_0),
{
    lemma_byte_list_of_render(s.read_outcome(fd, size)->Ok_0);
}

/// At the boundary: bytes written through one handle are read back, after
/// the earlier content, through a handle opened afterwards on a path that
/// leads to the same inode.
pub proof fn boundary_write_then_read_back(
    s: KernelState,
    fd: u32,
    data: Seq<char>,
    path: Seq<char>,
    mode: Seq<char>,
)
    requires
        s.valid(),
        s.open_files.contains_key(fd),
        byte_list(data) is Some,
        s.resolve(path) == Ok::<u32, ErrorKind>(s.open_files[fd].inode_id),
    ensures
        ({
            let bytes = byte_list(data)->0;
            let before = s.inodes[s.open_files[fd].inode_id].data;
            let written = s.sys_write(fd, data);
            &&& s.sys_write_result(fd, data) == bytes.len()
            &&& written.sys_open_result(path) == s.next_fd
            &&& written.sys_open(path, mode).sys_read_result(
                s.next_fd,
                before.len() + bytes.len(),
            ) == render_bytes(before + bytes)
        }),
{
    let bytes = byte_list(data)->0;
    let id = s.open_files[fd].inode_id;
    resolve_depends_on_namespace_only(s.write(fd, bytes), s, path);
    write_then_read_back(s, fd, bytes, mode, false);
}

// ---------------------------------------------------------------------
// Starting up
// ---------------------------------------------------------------------

/// After `boot` the root holds `bin`, `etc`, `home` and `tmp`, each a new
/// empty directory, beside whatever else it held before.
pub proof fn boot_seeds_directories(s: KernelState, now: u64)
    requires
        s.valid(),
        s.next_inode_id <= u32::MAX - 4,
    ensures
        ({
            let t = s.sys_boot(now);
            let first = s.next_inode_id;
            let root = t.inodes[ROOT_INODE].children;
            &&& t.valid()
            &&& t.next_inode_id == first + 4
            &&& t.listing(ROOT_INODE) == Ok::<Set<Seq<char>>, ErrorKind>(
                s.inodes[ROOT_INODE].children.dom().insert("bin"@).insert("etc"@).insert(
                    "home"@,
                ).insert("tmp"@),
            )
            &&& root["bin"@] == first
            &&& root["etc"@] == first + 1
            &&& root["home"@] == first + 2
            &&& root["tmp"@] == first + 3
            &&& forall|id: u32|
                first <= id < first + 4 ==> {
                    &&& (#[trigger] t.inodes[id]).kind == InodeType::Directory
                    &&& t.inodes[id].children == Map::<Seq<char>, u32>::empty()
                    &&& t.inodes[id].data == Seq::<u8>::empty()
                    &&& t.inodes[id].parent == Some(ROOT_INODE)
                }
            &&& t.uptime() == 0
        }),
{
    reveal_strlit("bin");
    reveal_strlit("etc");
    reveal_strlit("home");
    reveal_strlit("tmp");
    assert("bin"@ != "etc"@ && "bin"@ != "home"@ && "bin"@ != "tmp"@ && "etc"@ != "home"@
        && "etc"@ != "tmp"@ && "home"@ != "tmp"@) by {
        assert("bin"@[0] == 'b' && "etc"@[0] == 'e' && "home"@[0] == 'h' && "tmp"@[0] == 't');
    }
    let s0 = s.started(now);
    let s1 = s0.create(ROOT_INODE, "bin"@, InodeType::Directory);
    lemma_create_valid(s0, ROOT_INODE, "bin"@, InodeType::Directory);
    let s2 = s1.create(ROOT_INODE, "etc"@, InodeType::Directory);
    lemma_create_valid(s1, ROOT_INODE, "etc"@, InodeType::Directory);
    let s3 = s2.create(ROOT_INODE, "home"@, InodeType::Directory);
    lemma_create_valid(s2, ROOT_INODE, "home"@, InodeType::Directory);
    let s4 = s3.create(ROOT_INODE, "tmp"@, InodeType::Directory);
    lemma_create_valid(s3, ROOT_INODE, "tmp"@, InodeType::Directory);
    assert(s4.inodes[ROOT_INODE].children.dom() =~= s.inodes[ROOT_INODE].children.dom().insert(
        "bin"@,
    ).insert("etc"@).insert("home"@).insert("tmp"@));
}

/// In a kernel that was just made and booted, the root lists exactly
/// `bin`, `etc`, `home` and `tmp`.
pub proof fn first_boot_listing(now: u64)
    ensures
        KernelState::initial().sys_boot(now).listing(ROOT_INODE) == Ok::<
            Set<Seq<char>>,
            ErrorKind,
        >(set!["bin"@, "etc"@, "home"@, "tmp"@]),
{
    lemma_initial_valid();
    boot_seeds_directories(KernelState::initial(), now);
    let before = KernelState::initial().inodes[ROOT_INODE].children.dom();
    assert(before =~= Set::<Seq<char>>::empty());
    assert(before.insert("bin"@).insert("etc"@).insert("home"@).insert("tmp"@) =~= set![
        "bin"@,
        "etc"@,
        "home"@,
        "tmp"@,
    ]);
}

} // verus!
