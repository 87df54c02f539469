//! File-system nodes and open-file descriptors, with their views.

use crate::text::texts;
use vstd::prelude::*;

verus! {

/// What an inode is.
#[derive(Clone, Copy, Debug, PartialEq, Eq)]
pub enum InodeType {
    File,
    Directory,
}

/// A file-system node.
///
/// `children` lists a directory's entries, each a name and the id of the
/// inode it leads to. Within a well-formed store no two entries of one
/// directory share a name.
#[derive(Clone, Debug)]
pub struct Inode {
    pub id: u32,
    pub inode_type: InodeType,
    pub name: String,
    pub data: Vec<u8>,
    pub children: Vec<(String, u32)>,
    pub parent: Option<u32>,
}

/// An inode as contracts speak of it.
#[verifier::ext_equal]
pub struct InodeState {
    pub kind: InodeType,
    /// The last path component, not a full path.
    pub name: Seq<char>,
    pub data: Seq<u8>,
    /// From child name to child inode id.
    pub children: Map<Seq<char>, u32>,
    /// `None` only for the root.
    pub parent: Option<u32>,
}

/// An open file: the inode it refers to, the read cursor, and the access
/// mode it was opened with. The mode is recorded and never enforced.
#[derive(Clone, Debug)]
pub struct FileDescriptor {
    pub inode_id: u32,
    pub offset: usize,
    pub mode: String,
}

/// A descriptor as contracts speak of it.
#[verifier::ext_equal]
pub struct DescriptorState {
    pub inode_id: u32,
    pub offset: nat,
    pub mode: Seq<char>,
}

/// Whether no two entries carry the same name.
pub open spec fn distinct_names(entries: Seq<(String, u32)>) -> bool {
    forall|i: int, j: int|
        0 <= i < entries.len() && 0 <= j < entries.len() && i != j ==> (#[trigger] entries[i]).0@
            != (#[trigger] entries[j]).0@
}

/// Whether some entry carries the name `name`.
pub open spec fn names(entries: Seq<(String, u32)>, name: Seq<char>) -> bool {
    exists|i: int| 0 <= i < entries.len() && (#[trigger] entries[i]).0@ == name
}

/// The map that sends each entry's name to its inode id.
pub open spec fn entry_map(entries: Seq<(String, u32)>) -> Map<Seq<char>, u32> {
    Map::new(
        |name: Seq<char>| names(entries, name),
        |name: Seq<char>|
            entries[choose|i: int| 0 <= i < entries.len() && (#[trigger] entries[i]).0@ == name].1,
    )
}

/// The names of the entries, in order.
pub open spec fn entry_names(entries: Seq<(String, u32)>) -> Seq<Seq<char>> {
    Seq::new(entries.len(), |i: int| entries[i].0@)
}

/// With distinct names, the map holds at each entry's name that entry's id.
pub proof fn lemma_entry_map_at(entries: Seq<(String, u32)>, i: int)
    requires
        distinct_names(entries),
        0 <= i < entries.len(),
    ensures
        entry_map(entries).contains_key(entries[i].0@),
        entry_map(entries)[entries[i].0@] == entries[i].1,
{
    let name = entries[i].0@;
    assert(names(entries, name));
    let j = choose|j: int| 0 <= j < entries.len() && (#[trigger] entries[j]).0@ == name;
    assert(j == i);
}

/// Appending an entry under a fresh name inserts it into the map.
pub proof fn lemma_entry_map_push(entries: Seq<(String, u32)>, name: String, id: u32)
    requires
        distinct_names(entries),
        !names(entries, name@),
    ensures
        distinct_names(entries.push((name, id))),
        entry_map(entries.push((name, id))) == entry_map(entries).insert(name@, id),
{
    let after = entries.push((name, id));
    assert(distinct_names(after)) by {
        assert forall|i: int, j: int|
            0 <= i < after.len() && 0 <= j < after.len() && i != j implies (#[trigger] after[i]).0@
            != (#[trigger] after[j]).0@ by {
            if i < entries.len() && j < entries.len() {
                assert(entries[i].0@ != entries[j].0@);
            } else if i < entries.len() {
                assert(entries[i].0@ != name@);
            } else {
                assert(entries[j].0@ != name@);
            }
        }
    }
    let want = entry_map(entries).insert(name@, id);
    assert forall|n: Seq<char>| entry_map(after).contains_key(n) == want.contains_key(n) by {
        if names(after, n) {
            let i = choose|i: int| 0 <= i < after.len() && (#[trigger] after[i]).0@ == n;
            if i < entries.len() {
                assert(entries[i].0@ == n);
            }
        }
        if names(entries, n) {
            let i = choose|i: int| 0 <= i < entries.len() && (#[trigger] entries[i]).0@ == n;
            assert(after[i].0@ == n);
        }
        if n == name@ {
            assert(after[entries.len() as int].0@ == n);
        }
    }
    assert forall|n: Seq<char>| entry_map(after).contains_key(n) implies entry_map(after)[n]
        == want[n] by {
        let i = choose|i: int| 0 <= i < after.len() && (#[trigger] after[i]).0@ == n;
        lemma_entry_map_at(after, i);
        if i < entries.len() {
            assert(entries[i].0@ == n);
            lemma_entry_map_at(entries, i);
        }
    }
    assert(entry_map(after) =~= want);
}

/// Replacing the id of the entry that carries a name updates the map at
/// that name.
pub proof fn lemma_entry_map_update(entries: Seq<(String, u32)>, k: int, name: String, id: u32)
    requires
        distinct_names(entries),
        0 <= k < entries.len(),
        entries[k].0@ == name@,
    ensures
        distinct_names(entries.update(k, (name, id))),
        entry_map(entries.update(k, (name, id))) == entry_map(entries).insert(name@, id),
{
    let after = entries.update(k, (name, id));
    assert(distinct_names(after)) by {
        assert forall|i: int, j: int|
            0 <= i < after.len() && 0 <= j < after.len() && i != j implies (#[trigger] after[i]).0@
            != (#[trigger] after[j]).0@ by {
            assert(after[i].0@ == entries[i].0@);
            assert(after[j].0@ == entries[j].0@);
        }
    }
    let want = entry_map(entries).insert(name@, id);
    assert forall|n: Seq<char>| entry_map(after).contains_key(n) == want.contains_key(n) by {
        if names(after, n) {
            let i = choose|i: int| 0 <= i < after.len() && (#[trigger] after[i]).0@ == n;
            assert(entries[i].0@ == n);
        }
        if names(entries, n) {
            let i = choose|i: int| 0 <= i < entries.len() && (#[trigger] entries[i]).0@ == n;
            assert(after[i].0@ == n);
        }
        if n == name@ {
            assert(after[k].0@ == n);
        }
    }
    assert forall|n: Seq<char>| entry_map(after).contains_key(n) implies entry_map(after)[n]
        == want[n] by {
        let i = choose|i: int| 0 <= i < after.len() && (#[trigger] after[i]).0@ == n;
        lemma_entry_map_at(after, i);
        assert(entries[i].0@ == n);
        if i != k {
            lemma_entry_map_at(entries, i);
        }
    }
    assert(entry_map(after) =~= want);
}

/// With distinct names, the names in order hold each key of the map once
/// and nothing else.
pub proof fn lemma_entry_names(entries: Seq<(String, u32)>)
    requires
        distinct_names(entries),
    ensures
        entry_names(entries).no_duplicates(),
        entry_names(entries).to_set() == entry_map(entries).dom(),
{
    let ns = entry_names(entries);
    assert forall|i: int, j: int| 0 <= i < ns.len() && 0 <= j < ns.len() && i != j implies ns[i]
        != ns[j] by {
        assert(entries[i].0@ != entries[j].0@);
    }
    assert forall|n: Seq<char>| ns.to_set().contains(n) == entry_map(entries).dom().contains(
        n,
    ) by {
        if ns.contains(n) {
            let i = choose|i: int| 0 <= i < ns.len() && ns[i] == n;
            assert(entries[i].0@ == n);
        }
        if names(entries, n) {
            let i = choose|i: int| 0 <= i < entries.len() && (#[trigger] entries[i]).0@ == n;
            assert(ns[i] == n);
        }
    }
    assert(ns.to_set() =~= entry_map(entries).dom());
}

impl View for Inode {
    type V = InodeState;

    open spec fn view(&self) -> InodeState {
        InodeState {
            kind: self.inode_type,
            name: self.name@,
            data: self.data@,
            children: entry_map(self.children@),
            parent: self.parent,
        }
    }
}

impl View for FileDescriptor {
    type V = DescriptorState;

    open spec fn view(&self) -> DescriptorState {
        DescriptorState { inode_id: self.inode_id, offset: self.offset as nat, mode: self.mode@ }
    }
}

impl Inode {
    /// Whether the inode is a directory.
    pub fn is_directory(&self) -> (r: bool)
        ensures
            r == (self@.kind == InodeType::Directory),
    {
        match self.inode_type {
            InodeType::Directory => true,
            InodeType::File => false,
        }
    }

    /// The id that the entry named `name` leads to.
    pub fn child(&self, name: &String) -> (r: Option<u32>)
        requires
            distinct_names(self.children@),
        ensures
            r == (if self@.children.contains_key(name@) {
                Some(self@.children[name@])
            } else {
                None
            }),
    {
        let mut i: usize = 0;
        while i < self.children.len()
            invariant
                i <= self.children.len(),
                distinct_names(self.children@),
                forall|k: int| 0 <= k < i ==> (#[trigger] self.children@[k]).0@ != name@,
            decreases self.children.len() - i,
        {
            if self.children[i].0 == *name {
                proof {
                    lemma_entry_map_at(self.children@, i as int);
                }
                return Some(self.children[i].1);
            }
            i += 1;
        }
        None
    }

    /// Makes the entry named `name` lead to `id`, replacing the entry of
    /// that name if there is one.
    pub fn set_child(&mut self, name: String, id: u32)
        requires
            distinct_names(old(self).children@),
        ensures
            distinct_names(final(self).children@),
            final(self)@ == (InodeState {
                children: old(self)@.children.insert(name@, id),
                ..old(self)@
            }),
            final(self).id == old(self).id,
    {
        let mut i: usize = 0;
        while i < self.children.len()
            invariant
                i <= self.children.len(),
                *self == *old(self),
                distinct_names(self.children@),
                forall|k: int| 0 <= k < i ==> (#[trigger] self.children@[k]).0@ != name@,
            decreases self.children.len() - i,
        {
            if self.children[i].0 == name {
                proof {
                    lemma_entry_map_update(self.children@, i as int, name, id);
                }
                self.children.set(i, (name, id));
                return ;
            }
            i += 1;
        }
        proof {
            lemma_entry_map_push(self.children@, name, id);
        }
        self.children.push((name, id));
    }

    /// The names of the entries, each once.
    pub fn child_names(&self) -> (r: Vec<String>)
        requires
            distinct_names(self.children@),
        ensures
            texts(r@) == entry_names(self.children@),
            texts(r@).no_duplicates(),
            texts(r@).to_set() == self@.children.dom(),
    {
        let mut r: Vec<String> = Vec::new();
        let mut i: usize = 0;
        while i < self.children.len()
            invariant
                i <= self.children.len(),
                r@.len() == i,
                texts(r@) == entry_names(self.children@).take(i as int),
            decreases self.children.len() - i,
        {
            let name = self.children[i].0.clone();
            proof {
                let before = entry_names(self.children@).take(i as int);
                let after = entry_names(self.children@).take(i + 1);
                assert(name@ == self.children@[i as int].0@);
                assert(texts(r@.push(name)).len() == after.len());
                assert forall|k: int| 0 <= k < after.len() implies texts(r@.push(name))[k]
                    == after[k] by {
                    if k < i {
                        assert(texts(r@)[k] == before[k]);
                    }
                }
                assert(texts(r@.push(name)) =~= after);
            }
            r.push(name);
            i += 1;
        }
        proof {
            assert(entry_names(self.children@).take(i as int) =~= entry_names(self.children@));
            lemma_entry_names(self.children@);
        }
        r
    }
}

} // verus!
