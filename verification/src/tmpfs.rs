//! Tmpfs (Temporary file system) is, as its name states a temporary filesystem.
//!
//! The files are stored on the kernel's memory and thus are removed when the filesystem is
//! unmounted.
//!
//! Nodes are kept in a table indexed by their inode number. A directory holds its entries in slots
//! that may have holes, so that the offsets used to iterate on a directory remain stable between
//! calls.
use crate::errno::Errno;
use crate::file::{type_of_mode, FileType, Gid, INode, Mode, Stat, Uid, S_IFDIR};
use crate::perm::{ROOT_GID, ROOT_UID};
use vstd::prelude::*;
use vstd::string::*;

verus! {

/// The maximum length of a file name.
pub const NAME_MAX: usize = 255;
/// The size of a page of file content, in bytes.
pub const TMPFS_PAGE_SIZE: usize = 4096;
/// Rename flag: atomically exchange the source and the destination.
pub const RENAME_EXCHANGE: i32 = 2;
/// The inode of the root directory of a tmpfs.
pub const ROOT_INODE: INode = 0;

/// The view of a directory slot: empty, or holding an entry's name and the node it points to.
pub type SlotView = Option<(Seq<u8>, INode)>;

/// An entry of a tmpfs directory.
#[derive(Debug)]
pub struct TmpfsDirEntry {
    /// The name of the entry.
    pub name: Vec<u8>,
    /// The inode of the node the entry points to.
    pub node: INode,
}

/// The entries of a tmpfs directory.
#[derive(Debug)]
pub struct DirInner {
    /// The slots of the directory. An empty slot is a hole left by a removed entry.
    entries: Vec<Option<TmpfsDirEntry>>,
    /// The number of non-empty slots.
    used_slots: usize,
}

/// The number of non-empty slots in `s`.
pub open spec fn count_used(s: Seq<SlotView>) -> nat
    decreases s.len(),
{
    if s.len() == 0 {
        0
    } else {
        count_used(s.drop_last()) + if s.last() is Some {
            1nat
        } else {
            0nat
        }
    }
}

/// Slot `e` holds an entry named `name`.
pub open spec fn slot_named(e: SlotView, name: Seq<u8>) -> bool {
    e matches Some(x) && x.0 == name
}

/// Slot `i` is the first one holding an entry named `name`.
pub open spec fn is_first_named(s: Seq<SlotView>, name: Seq<u8>, i: int) -> bool {
    &&& 0 <= i < s.len()
    &&& slot_named(s[i], name)
    &&& forall|j: int| 0 <= j < i ==> !#[trigger] slot_named(s[j], name)
}

/// No slot holds an entry named `name`.
pub open spec fn no_slot_named(s: Seq<SlotView>, name: Seq<u8>) -> bool {
    forall|j: int| 0 <= j < s.len() ==> !#[trigger] slot_named(s[j], name)
}

/// Slot `i` is the first empty slot.
pub open spec fn is_first_hole(s: Seq<SlotView>, i: int) -> bool {
    &&& 0 <= i < s.len()
    &&& s[i] is None
    &&& forall|j: int| 0 <= j < i ==> #[trigger] s[j] is Some
}

/// The node an entry points to.
pub open spec fn slot_node(e: SlotView) -> INode {
    match e {
        Some(x) => x.1,
        None => 0,
    }
}

/// The node of the entry named `name` in the directory `s`: that of its first such entry.
pub open spec fn lookup_slots(s: Seq<SlotView>, name: Seq<u8>) -> Option<INode> {
    if exists|i: int| is_first_named(s, name, i) {
        Some(slot_node(s[choose|i: int| is_first_named(s, name, i)]))
    } else {
        None
    }
}

/// The slots after inserting entry `e`: in the first hole if there is one, else at the end.
pub open spec fn insert_slots(s: Seq<SlotView>, e: (Seq<u8>, INode)) -> Seq<SlotView> {
    if exists|i: int| is_first_hole(s, i) {
        s.update(choose|i: int| is_first_hole(s, i), Some(e))
    } else {
        s.push(Some(e))
    }
}

/// The slots after removing the first entry named `name`: the slot becomes a hole, or is dropped
/// if it is the last one.
pub open spec fn remove_slots(s: Seq<SlotView>, name: Seq<u8>) -> Seq<SlotView> {
    if exists|i: int| is_first_named(s, name, i) {
        let i = choose|i: int| is_first_named(s, name, i);
        if i == s.len() - 1 {
            s.take(i)
        } else {
            s.update(i, None)
        }
    } else {
        s
    }
}

/// The slots after pointing the first entry named `name` to `node`.
pub open spec fn set_inode_slots(s: Seq<SlotView>, name: Seq<u8>, node: INode) -> Seq<SlotView> {
    if exists|i: int| is_first_named(s, name, i) {
        let i = choose|i: int| is_first_named(s, name, i);
        s.update(i, Some((name, node)))
    } else {
        s
    }
}

proof fn lemma_first_named_unique(s: Seq<SlotView>, name: Seq<u8>, i: int, j: int)
    requires
        is_first_named(s, name, i),
        is_first_named(s, name, j),
    ensures
        i == j,
{
    if i < j {
        assert(!slot_named(s[i], name));
    } else if j < i {
        assert(!slot_named(s[j], name));
    }
}

proof fn lemma_first_hole_unique(s: Seq<SlotView>, i: int, j: int)
    requires
        is_first_hole(s, i),
        is_first_hole(s, j),
    ensures
        i == j,
{
    if i < j {
        assert(s[i] is Some);
    } else if j < i {
        assert(s[j] is Some);
    }
}

proof fn lemma_count_bound(s: Seq<SlotView>)
    ensures
        count_used(s) <= s.len(),
        count_used(s) == s.len() ==> forall|j: int| 0 <= j < s.len() ==> #[trigger] s[j] is Some,
    decreases s.len(),
{
    if s.len() > 0 {
        lemma_count_bound(s.drop_last());
        assert forall|j: int| 0 <= j < s.len() && count_used(s) == s.len() implies #[trigger] s[j] is Some by {
            if j < s.len() - 1 {
                assert(s.drop_last()[j] == s[j]);
            }
        }
    }
}

proof fn lemma_count_full(s: Seq<SlotView>)
    requires
        forall|j: int| 0 <= j < s.len() ==> #[trigger] s[j] is Some,
    ensures
        count_used(s) == s.len(),
    decreases s.len(),
{
    if s.len() > 0 {
        assert forall|j: int| 0 <= j < s.drop_last().len() implies #[trigger] s.drop_last()[j] is Some by {
            assert(s[j] is Some);
        }
        lemma_count_full(s.drop_last());
        assert(s[s.len() - 1] is Some);
    }
}

proof fn lemma_count_push(s: Seq<SlotView>, e: SlotView)
    ensures
        count_used(s.push(e)) == count_used(s) + if e is Some {
            1nat
        } else {
            0nat
        },
{
    assert(s.push(e).drop_last() =~= s);
}

proof fn lemma_count_update(s: Seq<SlotView>, i: int, e: SlotView)
    requires
        0 <= i < s.len(),
    ensures
        count_used(s.update(i, e)) + (if s[i] is Some {
            1int
        } else {
            0int
        }) == count_used(s) + if e is Some {
            1int
        } else {
            0int
        },
    decreases s.len(),
{
    if i == s.len() - 1 {
        assert(s.update(i, e).drop_last() =~= s.drop_last());
    } else {
        lemma_count_update(s.drop_last(), i, e);
        assert(s.update(i, e).drop_last() =~= s.drop_last().update(i, e));
    }
}

proof fn lemma_count_take_last(s: Seq<SlotView>)
    requires
        s.len() > 0,
    ensures
        count_used(s.take(s.len() - 1)) + (if s.last() is Some {
            1int
        } else {
            0int
        }) == count_used(s),
{
    assert(s.take(s.len() - 1) =~= s.drop_last());
}

impl TmpfsDirEntry {
    /// The entry's name and node.
    pub open spec fn view(&self) -> (Seq<u8>, INode) {
        (self.name@, self.node)
    }
}

/// The view of a slot.
pub open spec fn slot_view(e: Option<TmpfsDirEntry>) -> SlotView {
    match e {
        Some(x) => Some(x.view()),
        None => None,
    }
}

impl DirInner {
    /// The directory's slots.
    pub closed spec fn view(&self) -> Seq<SlotView> {
        self.entries@.map_values(|e: Option<TmpfsDirEntry>| slot_view(e))
    }

    /// The number of non-empty slots is counted exactly.
    pub closed spec fn wf(&self) -> bool {
        self.used_slots == count_used(self@)
    }

    /// Creates an empty directory.
    pub fn new() -> (d: Self)
        ensures
            d.wf(),
            d@ == Seq::<SlotView>::empty(),
    {
        let d = DirInner { entries: Vec::new(), used_slots: 0 };
        assert(d@ =~= Seq::<SlotView>::empty());
        d
    }

    /// The number of non-empty slots.
    pub fn used_slots(&self) -> (n: usize)
        requires
            self.wf(),
        ensures
            n == count_used(self@),
    {
        self.used_slots
    }

    /// The number of slots, holes included.
    pub fn slots_count(&self) -> (n: usize)
        ensures
            n == self@.len(),
    {
        self.entries.len()
    }

    /// Returns the slot at index `i`: the name and the node of its entry, if any.
    pub fn slot(&self, i: usize) -> (r: Option<(&[u8], INode)>)
        requires
            i < self@.len(),
        ensures
            match r {
                None => self@[i as int] is None,
                Some((name, node)) => self@[i as int] == Some((name@, node)),
            },
    {
        match &self.entries[i] {
            Some(e) => Some((e.name.as_slice(), e.node)),
            None => None,
        }
    }

    /// Returns the index of the slot of the entry with the given `name`.
    ///
    /// If no such entry exist, the function returns `None`.
    pub fn find_slot(&self, name: &[u8]) -> (r: Option<usize>)
        ensures
            match r {
                None => no_slot_named(self@, name@),
                Some(i) => is_first_named(self@, name@, i as int),
            },
    {
        let mut i: usize = 0;
        while i < self.entries.len()
            invariant
                i <= self.entries.len(),
                forall|j: int| 0 <= j < i ==> !#[trigger] slot_named(self@[j], name@),
            decreases self.entries.len() - i,
        {
            match &self.entries[i] {
                Some(e) => {
                    if bytes_eq(e.name.as_slice(), name) {
                        return Some(i);
                    }
                },
                None => {},
            }
            i += 1;
        }
        None
    }

    /// Returns the node of the entry with the given `name`.
    ///
    /// If no such entry exist, the function returns `None`.
    pub fn find(&self, name: &[u8]) -> (r: Option<INode>)
        ensures
            r == lookup_slots(self@, name@),
    {
        match self.find_slot(name) {
            Some(i) => {
                proof {
                    assert forall|k: int| is_first_named(self@, name@, k) implies k == i by {
                        lemma_first_named_unique(self@, name@, k, i as int);
                    }
                }
                match &self.entries[i] {
                    Some(e) => Some(e.node),
                    None => None,
                }
            },
            None => None,
        }
    }

    /// Inserts a new entry, in the first hole if there is one, else at the end.
    ///
    /// The function returns the index of the slot of the inserted entry.
    pub fn insert(&mut self, ent: TmpfsDirEntry) -> (slot: usize)
        requires
            old(self).wf(),
            old(self)@.len() < usize::MAX,
        ensures
            final(self).wf(),
            final(self)@ == insert_slots(old(self)@, ent@),
            slot < final(self)@.len(),
            final(self)@[slot as int] == Some(ent@),
    {
        proof {
            lemma_count_bound(self@);
        }
        let ghost e = ent@;
        if self.used_slots == self.entries.len() {
            proof {
                assert forall|i: int| !is_first_hole(self@, i) by {
                    if 0 <= i < self@.len() {
                        assert(self@[i] is Some);
                    }
                }
                lemma_count_push(self@, Some(e));
            }
            self.entries.push(Some(ent));
            self.used_slots += 1;
            assert(self@ =~= old(self)@.push(Some(e)));
            self.entries.len() - 1
        } else {
            let mut i: usize = 0;
            while i < self.entries.len()
                invariant
                    *self == *old(self),
                    i <= self.entries.len(),
                    count_used(self@) < self@.len(),
                    forall|j: int| 0 <= j < i ==> #[trigger] self@[j] is Some,
                ensures
                    i < self@.len() ==> self@[i as int] is None,
                decreases self.entries.len() - i,
            {
                if self.entries[i].is_none() {
                    break ;
                }
                i += 1;
            }
            if i == self.entries.len() {
                proof {
                    lemma_count_full(self@);
                }
                // Unreachable: a hole exists since fewer slots are used than there are
                self.entries.push(Some(ent));
                proof {
                    assert(false);
                }
                return self.entries.len() - 1;
            }
            proof {
                assert(is_first_hole(self@, i as int));
                assert forall|k: int| is_first_hole(self@, k) implies k == i by {
                    lemma_first_hole_unique(self@, k, i as int);
                }
                lemma_count_update(self@, i as int, Some(e));
            }
            self.entries.set(i, Some(ent));
            self.used_slots += 1;
            assert(self@ =~= old(self)@.update(i as int, Some(e)));
            i
        }
    }

    /// Changes the node the entry with name `name` points to.
    ///
    /// If no such entry exist, the function does nothing.
    pub fn set_inode(&mut self, name: &[u8], node: INode)
        requires
            old(self).wf(),
        ensures
            final(self).wf(),
            final(self)@ == set_inode_slots(old(self)@, name@, node),
    {
        match self.find_slot(name) {
            Some(i) => {
                proof {
                    assert forall|k: int| is_first_named(self@, name@, k) implies k == i by {
                        lemma_first_named_unique(self@, name@, k, i as int);
                    }
                    lemma_count_update(self@, i as int, Some((name@, node)));
                }
                let n = copy_bytes(name);
                self.entries.set(i, Some(TmpfsDirEntry { name: n, node }));
                assert(self@ =~= old(self)@.update(i as int, Some((name@, node))));
            },
            None => {},
        }
    }

    /// Removes the entry with name `name`, if any.
    ///
    /// The slot becomes a hole, unless it is the last one, in which case it is dropped.
    pub fn remove(&mut self, name: &[u8])
        requires
            old(self).wf(),
        ensures
            final(self).wf(),
            final(self)@ == remove_slots(old(self)@, name@),
    {
        let slots_count = self.entries.len();
        match self.find_slot(name) {
            Some(i) => {
                proof {
                    assert forall|k: int| is_first_named(self@, name@, k) implies k == i by {
                        lemma_first_named_unique(self@, name@, k, i as int);
                    }
                }
                if i == slots_count - 1 {
                    proof {
                        lemma_count_take_last(self@);
                    }
                    self.entries.truncate(i);
                    assert(self@ =~= old(self)@.take(i as int));
                } else {
                    proof {
                        lemma_count_update(self@, i as int, None);
                    }
                    self.entries.set(i, None);
                    assert(self@ =~= old(self)@.update(i as int, None));
                }
                self.used_slots -= 1;
            },
            None => {},
        }
    }

    /// Removes every entry, holes included.
    pub fn clear(&mut self)
        ensures
            final(self).wf(),
            final(self)@ == Seq::<SlotView>::empty(),
    {
        self.entries.clear();
        self.used_slots = 0;
        assert(self@ =~= Seq::<SlotView>::empty());
    }
}

/// Tells whether the two byte strings are equal.
pub fn bytes_eq(a: &[u8], b: &[u8]) -> (r: bool)
    ensures
        r == (a@ == b@),
{
    if a.len() != b.len() {
        return false;
    }
    let mut i: usize = 0;
    while i < a.len()
        invariant
            a.len() == b.len(),
            i <= a.len(),
            forall|j: int| 0 <= j < i ==> a@[j] == b@[j],
        decreases a.len() - i,
    {
        if a[i] != b[i] {
            return false;
        }
        i += 1;
    }
    assert(a@ =~= b@);
    true
}

/// Returns an owned copy of the given bytes.
pub fn copy_bytes(s: &[u8]) -> (v: Vec<u8>)
    ensures
        v@ == s@,
{
    let mut v: Vec<u8> = Vec::new();
    let mut i: usize = 0;
    while i < s.len()
        invariant
            i <= s.len(),
            v@ == s@.take(i as int),
        decreases s.len() - i,
    {
        v.push(s[i]);
        i += 1;
        assert(v@ =~= s@.take(i as int));
    }
    assert(s@.take(s.len() as int) =~= s@);
    v
}

/// The content of a tmpfs node.
#[derive(Debug)]
pub enum NodeContent {
    /// Regular file content: the file's pages, one after the other.
    Regular(Vec<u8>),
    /// Directory entries.
    Directory(DirInner),
    /// Symbolic link path.
    Link(Vec<u8>),
    /// No content.
    NoContent,
}

/// The view of a node's content.
pub enum ContentView {
    /// The bytes of the file's pages.
    Regular(Seq<u8>),
    /// The slots of the directory.
    Directory(Seq<SlotView>),
    /// The target of the symbolic link.
    Link(Seq<u8>),
    /// No content.
    NoContent,
}

impl NodeContent {
    /// The content's view.
    pub open spec fn view(&self) -> ContentView {
        match self {
            NodeContent::Regular(v) => ContentView::Regular(v@),
            NodeContent::Directory(d) => ContentView::Directory(d@),
            NodeContent::Link(v) => ContentView::Link(v@),
            NodeContent::NoContent => ContentView::NoContent,
        }
    }

    /// A regular file is made of whole pages, and a directory counts its used slots exactly.
    pub open spec fn wf(&self) -> bool {
        match self {
            NodeContent::Regular(v) => v@.len() % (TMPFS_PAGE_SIZE as nat) == 0,
            NodeContent::Directory(d) => d.wf(),
            _ => true,
        }
    }
}

/// A node of a tmpfs: its status and its content.
#[derive(Debug)]
pub struct TmpNode {
    /// The node's status.
    pub stat: Stat,
    /// The node's content.
    pub content: NodeContent,
}

/// The view of a node.
pub struct NodeView {
    /// The node's status.
    pub stat: Stat,
    /// The node's content.
    pub content: ContentView,
}

impl TmpNode {
    /// The node's view.
    pub open spec fn view(&self) -> NodeView {
        NodeView { stat: self.stat, content: self.content.view() }
    }

    /// The node's content is consistent, and is a directory's exactly when the node's type is
    /// directory.
    pub open spec fn wf(&self) -> bool {
        &&& self.content.wf()
        &&& kind_agrees(self@)
    }
}

/// The node holds directory entries exactly when its type is directory.
pub open spec fn kind_agrees(n: NodeView) -> bool {
    (n.content is Directory) == (type_of_mode(n.stat.mode) == Some(FileType::Directory))
}

/// The view of a tmpfs: its nodes, indexed by inode.
pub type FsView = Seq<Option<NodeView>>;

/// The view of a slot of the node table.
pub open spec fn node_slot_view(n: Option<TmpNode>) -> Option<NodeView> {
    match n {
        Some(x) => Some(x.view()),
        None => None,
    }
}

/// The node of inode `ino`, if any.
pub open spec fn node_at(v: FsView, ino: int) -> Option<NodeView> {
    if 0 <= ino < v.len() {
        v[ino]
    } else {
        None
    }
}

/// The slots of the directory of inode `ino`, if it is a directory.
pub open spec fn slots_at(v: FsView, ino: int) -> Option<Seq<SlotView>> {
    match node_at(v, ino) {
        Some(n) => match n.content {
            ContentView::Directory(s) => Some(s),
            _ => None,
        },
        None => None,
    }
}

/// The number of links of the node of inode `ino`, or zero if there is no such node.
pub open spec fn nlink_at(v: FsView, ino: int) -> int {
    match node_at(v, ino) {
        Some(n) => n.stat.nlink as int,
        None => 0,
    }
}

/// `s` with the number of links `nlink`.
pub open spec fn stat_with_nlink(s: Stat, nlink: u16) -> Stat {
    Stat { nlink, ..s }
}

/// `s` with the size `size`.
pub open spec fn stat_with_size(s: Stat, size: u64) -> Stat {
    Stat { size, ..s }
}

/// The filesystem after setting the number of links of node `ino`, if it exists.
pub open spec fn with_nlink(v: FsView, ino: int, nlink: u16) -> FsView {
    match node_at(v, ino) {
        Some(n) => v.update(
            ino,
            Some(NodeView { stat: stat_with_nlink(n.stat, nlink), content: n.content }),
        ),
        None => v,
    }
}

/// The filesystem after adding `d` to the number of links of node `ino`, if it exists.
pub open spec fn add_nlink(v: FsView, ino: int, d: int) -> FsView {
    with_nlink(v, ino, (nlink_at(v, ino) + d) as u16)
}

/// The filesystem after replacing the slots of directory `ino`, if it is a directory.
pub open spec fn with_slots(v: FsView, ino: int, s: Seq<SlotView>) -> FsView {
    match slots_at(v, ino) {
        Some(_) => v.update(
            ino,
            Some(NodeView { stat: node_at(v, ino)->0.stat, content: ContentView::Directory(s) }),
        ),
        None => v,
    }
}

/// A temporary file system.
#[derive(Debug)]
pub struct TmpFS {
    /// Tells whether the filesystem is readonly.
    readonly: bool,
    /// The nodes, indexed by inode. An empty slot is a free inode.
    nodes: Vec<Option<TmpNode>>,
}

impl TmpFS {
    /// The nodes of the filesystem, indexed by inode.
    pub closed spec fn view(&self) -> FsView {
        self.nodes@.map_values(|n: Option<TmpNode>| node_slot_view(n))
    }

    /// Tells whether the filesystem is readonly.
    pub closed spec fn is_readonly(&self) -> bool {
        self.readonly
    }

    /// Every node's content is consistent.
    pub closed spec fn wf(&self) -> bool {
        forall|i: int|
            0 <= i < self.nodes@.len() ==> (#[trigger] self.nodes@[i] matches Some(n)
                ==> n.wf())
    }

    /// Returns the index of the node of inode `ino` in the table, if the node exists.
    fn index_of(&self, ino: INode) -> (r: Option<usize>)
        ensures
            match r {
                Some(i) => i == ino && node_at(self@, ino as int) is Some,
                None => node_at(self@, ino as int) is None,
            },
    {
        if ino >= self.nodes.len() as u64 {
            return None;
        }
        let i = ino as usize;
        if self.nodes[i].is_some() {
            Some(i)
        } else {
            None
        }
    }

    /// Returns the status of the node of inode `ino`, if it exists.
    pub fn stat(&self, ino: INode) -> (r: Option<Stat>)
        ensures
            match r {
                Some(s) => node_at(self@, ino as int) matches Some(n) && n.stat == s,
                None => node_at(self@, ino as int) is None,
            },
    {
        match self.index_of(ino) {
            Some(i) => match &self.nodes[i] {
                Some(n) => Some(n.stat),
                None => None,
            },
            None => None,
        }
    }

    /// Tells whether one more node fits in the filesystem, with one more slot in the directory
    /// `parent` and, if the node is a directory (`dir`), one more link to `parent`.
    pub fn creation_fits(&self, parent: INode, dir: bool) -> (b: bool)
        ensures
            b == {
                &&& self@.len() + 1 < usize::MAX
                &&& slots_at(self@, parent as int) matches Some(s) ==> s.len() + 1 < usize::MAX
                &&& dir ==> nlink_at(self@, parent as int) + 1 <= u16::MAX
            },
    {
        if self.nodes.len() >= usize::MAX - 1 {
            return false;
        }
        match self.index_of(parent) {
            Some(i) => match &self.nodes[i] {
                Some(n) => {
                    if let NodeContent::Directory(d) = &n.content {
                        if d.slots_count() >= usize::MAX - 1 {
                            return false;
                        }
                    }
                    !dir || n.stat.nlink < u16::MAX
                },
                None => true,
            },
            None => true,
        }
    }

    /// Tells whether the node of inode `ino` is a directory.
    fn is_dir(&self, ino: INode) -> (b: bool)
        ensures
            b == slots_at(self@, ino as int) is Some,
    {
        match self.index_of(ino) {
            Some(i) => match &self.nodes[i] {
                Some(n) => match &n.content {
                    NodeContent::Directory(_) => true,
                    _ => false,
                },
                None => false,
            },
            None => false,
        }
    }

    /// Sets the number of links of node `ino`, if it exists.
    fn set_nlink(&mut self, ino: INode, nlink: u16)
        requires
            old(self).wf(),
        ensures
            final(self).wf(),
            final(self).is_readonly() == old(self).is_readonly(),
            final(self)@ == with_nlink(old(self)@, ino as int, nlink),
    {
        match self.index_of(ino) {
            Some(i) => {
                match &mut self.nodes[i] {
                    Some(n) => {
                        n.stat.nlink = nlink;
                    },
                    None => {},
                }
                proof {
                    assert(self@ =~= with_nlink(old(self)@, ino as int, nlink));
                    assert forall|k: int|
                        0 <= k < self.nodes@.len() implies (#[trigger] self.nodes@[k] matches Some(
                        n,
                    ) ==> n.wf()) by {
                        if k != i {
                            assert(self.nodes@[k] == old(self).nodes@[k]);
                        }
                    }
                }
            },
            None => {},
        }
    }

    /// Applies `f` to the directory of node `ino`, if it is a directory. This is the shared
    /// proof that the other nodes are left untouched.
    proof fn lemma_dir_update(old_fs: &TmpFS, new_fs: &TmpFS, ino: int, s: Seq<SlotView>)
        requires
            old_fs.wf(),
            slots_at(old_fs@, ino) is Some,
            new_fs.nodes@.len() == old_fs.nodes@.len(),
            forall|k: int|
                0 <= k < old_fs.nodes@.len() && k != ino ==> #[trigger] new_fs.nodes@[k]
                    == old_fs.nodes@[k],
            new_fs.nodes@[ino] matches Some(n) && n.wf() && n.stat == old_fs.nodes@[ino]->0.stat
                && n.content.view() == ContentView::Directory(s),
        ensures
            new_fs.wf(),
            new_fs@ == with_slots(old_fs@, ino, s),
    {
        assert(new_fs@ =~= with_slots(old_fs@, ino, s));
        assert forall|k: int|
            0 <= k < new_fs.nodes@.len() implies (#[trigger] new_fs.nodes@[k] matches Some(n)
            ==> n.wf()) by {
            if k != ino {
                assert(new_fs.nodes@[k] == old_fs.nodes@[k]);
            }
        }
    }

    /// Inserts the entry `name` pointing to `node` in the directory `ino`.
    fn dir_insert(&mut self, ino: INode, name: &[u8], node: INode)
        requires
            old(self).wf(),
            slots_at(old(self)@, ino as int) matches Some(s) && s.len() < usize::MAX,
        ensures
            final(self).wf(),
            final(self).is_readonly() == old(self).is_readonly(),
            final(self)@ == with_slots(
                old(self)@,
                ino as int,
                insert_slots(slots_at(old(self)@, ino as int)->0, (name@, node)),
            ),
    {
        let i = match self.index_of(ino) {
            Some(i) => i,
            None => {
                return ;
            },
        };
        let ghost s = slots_at(self@, ino as int)->0;
        assert(self.nodes@[i as int] matches Some(n) && n.content.view() == ContentView::Directory(s));
        let ent = TmpfsDirEntry { name: copy_bytes(name), node };
        match &mut self.nodes[i] {
            Some(n) => match &mut n.content {
                NodeContent::Directory(d) => {
                    d.insert(ent);
                },
                _ => {},
            },
            None => {},
        }
        proof {
            Self::lemma_dir_update(old(self), self, ino as int, insert_slots(s, (name@, node)));
        }
    }

    /// Removes the entry `name` from the directory `ino`.
    fn dir_remove(&mut self, ino: INode, name: &[u8])
        requires
            old(self).wf(),
            slots_at(old(self)@, ino as int) is Some,
        ensures
            final(self).wf(),
            final(self).is_readonly() == old(self).is_readonly(),
            final(self)@ == with_slots(
                old(self)@,
                ino as int,
                remove_slots(slots_at(old(self)@, ino as int)->0, name@),
            ),
    {
        let i = match self.index_of(ino) {
            Some(i) => i,
            None => {
                return ;
            },
        };
        let ghost s = slots_at(self@, ino as int)->0;
        assert(self.nodes@[i as int] matches Some(n) && n.content.view() == ContentView::Directory(s));
        match &mut self.nodes[i] {
            Some(n) => match &mut n.content {
                NodeContent::Directory(d) => {
                    d.remove(name);
                },
                _ => {},
            },
            None => {},
        }
        proof {
            Self::lemma_dir_update(old(self), self, ino as int, remove_slots(s, name@));
        }
    }

    /// Points the entry `name` of the directory `ino` to `node`.
    fn dir_set_inode(&mut self, ino: INode, name: &[u8], node: INode)
        requires
            old(self).wf(),
            slots_at(old(self)@, ino as int) is Some,
        ensures
            final(self).wf(),
            final(self).is_readonly() == old(self).is_readonly(),
            final(self)@ == with_slots(
                old(self)@,
                ino as int,
                set_inode_slots(slots_at(old(self)@, ino as int)->0, name@, node),
            ),
    {
        let i = match self.index_of(ino) {
            Some(i) => i,
            None => {
                return ;
            },
        };
        let ghost s = slots_at(self@, ino as int)->0;
        assert(self.nodes@[i as int] matches Some(n) && n.content.view() == ContentView::Directory(s));
        match &mut self.nodes[i] {
            Some(n) => match &mut n.content {
                NodeContent::Directory(d) => {
                    d.set_inode(name, node);
                },
                _ => {},
            },
            None => {},
        }
        proof {
            Self::lemma_dir_update(old(self), self, ino as int, set_inode_slots(s, name@, node));
        }
    }

    /// Removes every slot of the directory `ino`.
    fn dir_clear(&mut self, ino: INode)
        requires
            old(self).wf(),
            slots_at(old(self)@, ino as int) is Some,
        ensures
            final(self).wf(),
            final(self).is_readonly() == old(self).is_readonly(),
            final(self)@ == with_slots(old(self)@, ino as int, Seq::<SlotView>::empty()),
    {
        let i = match self.index_of(ino) {
            Some(i) => i,
            None => {
                return ;
            },
        };
        match &mut self.nodes[i] {
            Some(n) => match &mut n.content {
                NodeContent::Directory(d) => {
                    d.clear();
                },
                _ => {},
            },
            None => {},
        }
        proof {
            Self::lemma_dir_update(old(self), self, ino as int, Seq::<SlotView>::empty());
        }
    }

    /// Looks up the entry `name` in the directory `ino`.
    fn dir_find(&self, ino: INode, name: &[u8]) -> (r: Option<INode>)
        requires
            slots_at(self@, ino as int) is Some,
        ensures
            r == lookup_slots(slots_at(self@, ino as int)->0, name@),
    {
        let i = match self.index_of(ino) {
            Some(i) => i,
            None => {
                return None;
            },
        };
        assert(self.nodes@[i as int] matches Some(n) && n.content.view() == ContentView::Directory(
            slots_at(self@, ino as int)->0,
        ));
        match &self.nodes[i] {
            Some(n) => match &n.content {
                NodeContent::Directory(d) => d.find(name),
                _ => None,
            },
            None => None,
        }
    }

    /// Creates a tmpfs holding only its root directory, whose `.` and `..` entries point to
    /// itself.
    pub fn load_filesystem(readonly: bool) -> (fs: Self)
        ensures
            fs.wf(),
            fs.is_readonly() == readonly,
            fs@ == seq![Some(NodeView { stat: root_stat(), content: ContentView::Directory(root_slots()) })],
    {
        let mut entries = DirInner::new();
        let dot: [u8; 1] = [46u8];
        let dotdot: [u8; 2] = [46u8, 46u8];
        entries.insert(TmpfsDirEntry { name: copy_bytes(&dot), node: ROOT_INODE });
        entries.insert(TmpfsDirEntry { name: copy_bytes(&dotdot), node: ROOT_INODE });
        proof {
            assert(forall|i: int| !is_first_hole(Seq::<SlotView>::empty(), i));
            assert(forall|i: int| !is_first_hole(seq![Some((dot@, ROOT_INODE))], i));
            assert(dot@ =~= seq![46u8]);
            assert(dotdot@ =~= seq![46u8, 46u8]);
            assert(entries@ =~= root_slots());
        }
        let root = TmpNode {
            stat: Stat {
                mode: S_IFDIR | 0o1777,
                nlink: 2,
                uid: ROOT_UID,
                gid: ROOT_GID,
                size: 0,
                blocks: 0,
                dev_major: 0,
                dev_minor: 0,
                ctime: 0,
                mtime: 0,
                atime: 0,
            },
            content: NodeContent::Directory(entries),
        };
        let m: Mode = S_IFDIR | 0o1777;
        assert(m & 0o770000 == 0o040000) by (bit_vector)
            requires
                m == 0o040000u32 | 0o1777u32,
        ;
        assert(root.wf());
        let mut nodes: Vec<Option<TmpNode>> = Vec::new();
        nodes.push(Some(root));
        let fs = TmpFS { readonly, nodes };
        assert(fs@ =~= seq![Some(NodeView { stat: root_stat(), content: ContentView::Directory(root_slots()) })]);
        fs
    }

    /// A node holds directory entries exactly when its type is directory.
    pub proof fn lemma_dir_kind(&self, ino: int)
        requires
            self.wf(),
        ensures
            slots_at(self@, ino) is Some <==> (node_at(self@, ino) matches Some(n) && type_of_mode(
                n.stat.mode,
            ) == Some(FileType::Directory)),
    {
        if 0 <= ino < self.nodes@.len() && self.nodes@[ino] is Some {
            assert(self.nodes@[ino]->0.wf());
        }
    }

    /// Tells whether the filesystem is read-only.
    pub fn readonly(&self) -> (b: bool)
        ensures
            b == self.is_readonly(),
    {
        self.readonly
    }

    /// Returns the inode of the root directory.
    ///
    /// If the root directory has been removed, the function returns [`Errno::ENOENT`].
    pub fn root(&self) -> (r: Result<INode, Errno>)
        ensures
            match r {
                Ok(ino) => ino == ROOT_INODE && node_at(self@, ROOT_INODE as int) is Some,
                Err(e) => e == Errno::ENOENT && node_at(self@, ROOT_INODE as int) is None,
            },
    {
        match self.index_of(ROOT_INODE) {
            Some(_) => Ok(ROOT_INODE),
            None => Err(Errno::ENOENT),
        }
    }

    /// Returns the filesystem's statistics.
    pub fn get_stat(&self) -> (st: Statfs)
        ensures
            st.f_type == 0 && st.f_bsize == TMPFS_PAGE_SIZE && st.f_blocks == 0 && st.f_bfree == 0
                && st.f_bavail == 0 && st.f_files == 0 && st.f_ffree == 0 && st.f_fsid == [0i32, 0i32]
                && st.f_namelen == NAME_MAX && st.f_frsize == 0 && st.f_flags == 0,
    {
        Statfs {
            f_type: 0,
            f_bsize: TMPFS_PAGE_SIZE,
            f_blocks: 0,
            f_bfree: 0,
            f_bavail: 0,
            f_files: 0,
            f_ffree: 0,
            f_fsid: [0i32, 0i32],
            f_namelen: NAME_MAX,
            f_frsize: 0,
            f_flags: 0,
        }
    }

    /// Creates a node with the given status, in the first free inode, or in a new one if none is
    /// free. Its content is empty, of the kind that its file type calls for.
    ///
    /// Errors:
    /// - the filesystem is read-only: [`Errno::EROFS`]
    /// - the file type of `stat` is invalid: [`Errno::EINVAL`]
    pub fn create_node(&mut self, stat: Stat) -> (r: Result<INode, Errno>)
        requires
            old(self).wf(),
            old(self)@.len() < usize::MAX,
        ensures
            final(self).wf(),
            final(self).is_readonly() == old(self).is_readonly(),
            old(self).is_readonly() ==> r == Err::<INode, Errno>(Errno::EROFS) && final(self)@ == old(self)@,
            !old(self).is_readonly() && type_of_mode(stat.mode) is None ==> r == Err::<INode, Errno>(
                Errno::EINVAL,
            ) && final(self)@ == old(self)@,
            !old(self).is_readonly() && type_of_mode(stat.mode) is Some ==> (r matches Ok(ino) && {
                &&& is_first_free(old(self)@, ino as int)
                &&& final(self)@ == place_node(
                    old(self)@,
                    ino as int,
                    NodeView { stat, content: empty_content(type_of_mode(stat.mode)->0) },
                )
            }),
    {
        if self.readonly {
            return Err(Errno::EROFS);
        }
        let file_type = match FileType::from_mode(stat.mode) {
            Some(t) => t,
            None => {
                return Err(Errno::EINVAL);
            },
        };
        let content = match file_type {
            FileType::Regular => NodeContent::Regular(Vec::new()),
            FileType::Directory => NodeContent::Directory(DirInner::new()),
            FileType::Link => NodeContent::Link(Vec::new()),
            _ => NodeContent::NoContent,
        };
        assert(content.view() == empty_content(file_type));
        assert(content.wf());
        let node = TmpNode { stat, content };
        let mut i: usize = 0;
        while i < self.nodes.len()
            invariant
                *self == *old(self),
                i <= self.nodes.len(),
                forall|j: int| 0 <= j < i ==> #[trigger] self.nodes@[j] is Some,
            ensures
                i < self.nodes.len() ==> self.nodes@[i as int] is None,
            decreases self.nodes.len() - i,
        {
            if self.nodes[i].is_none() {
                break ;
            }
            i += 1;
        }
        let ghost nv = node@;
        if i < self.nodes.len() {
            self.nodes.set(i, Some(node));
            proof {
                assert(self@ =~= old(self)@.update(i as int, Some(nv)));
            }
        } else {
            self.nodes.push(Some(node));
            proof {
                assert(self@ =~= old(self)@.push(Some(nv)));
            }
        }
        proof {
            assert forall|k: int|
                0 <= k < self.nodes@.len() implies (#[trigger] self.nodes@[k] matches Some(n)
                ==> n.wf()) by {
                if k != i {
                    assert(self.nodes@[k] == old(self).nodes@[k]);
                }
            }
        }
        Ok(i as u64)
    }

    /// Removes the node of inode `ino` from the filesystem, freeing its inode.
    ///
    /// If the filesystem is read-only, the function returns [`Errno::EROFS`].
    pub fn destroy_node(&mut self, ino: INode) -> (r: Result<(), Errno>)
        requires
            old(self).wf(),
        ensures
            final(self).wf(),
            final(self).is_readonly() == old(self).is_readonly(),
            old(self).is_readonly() ==> r == Err::<(), Errno>(Errno::EROFS) && final(self)@ == old(self)@,
            !old(self).is_readonly() ==> r is Ok && final(self)@ == (if node_at(old(self)@, ino as int) is Some {
                old(self)@.update(ino as int, None)
            } else {
                old(self)@
            }),
    {
        if self.readonly {
            return Err(Errno::EROFS);
        }
        if let Some(i) = self.index_of(ino) {
            self.nodes.set(i, None);
            proof {
                assert(self@ =~= old(self)@.update(ino as int, None));
                assert forall|k: int|
                    0 <= k < self.nodes@.len() implies (#[trigger] self.nodes@[k] matches Some(n)
                    ==> n.wf()) by {
                    if k != i {
                        assert(self.nodes@[k] == old(self).nodes@[k]);
                    }
                }
            }
        }
        Ok(())
    }

    /// Looks up the entry `name` in the directory `dir`, returning the inode it points to.
    ///
    /// If `dir` is not a directory, the function returns [`Errno::ENOTDIR`].
    pub fn lookup_entry(&self, dir: INode, name: &[u8]) -> (r: Result<Option<INode>, Errno>)
        ensures
            match slots_at(self@, dir as int) {
                Some(s) => r == Ok::<Option<INode>, Errno>(lookup_slots(s, name@)),
                None => r == Err::<Option<INode>, Errno>(Errno::ENOTDIR),
            },
    {
        if !self.is_dir(dir) {
            return Err(Errno::ENOTDIR);
        }
        Ok(self.dir_find(dir, name))
    }

    /// Lists the entries of the directory `dir`, from its slot `off` on, holes skipped.
    ///
    /// At most `limit` entries are returned: the consumer of the entries accepts that many. The
    /// function returns the entries and the new offset, which is `off` plus the number of entries
    /// returned.
    ///
    /// Errors:
    /// - `dir` is not a directory: [`Errno::ENOTDIR`]
    /// - `off` does not fit in an `usize`: [`Errno::EOVERFLOW`]
    pub fn iter_entries(&self, dir: INode, off: u64, limit: usize) -> (r: Result<
        (Vec<DirEntry>, u64),
        Errno,
    >)
        ensures
            match slots_at(self@, dir as int) {
                None => r == Err::<(Vec<DirEntry>, u64), Errno>(Errno::ENOTDIR),
                Some(s) => if off > usize::MAX {
                    r == Err::<(Vec<DirEntry>, u64), Errno>(Errno::EOVERFLOW)
                } else {
                    r matches Ok((ents, new_off)) && listing_is(
                        self@,
                        present(s.subrange(start_of(off, s), s.len() as int)),
                        limit,
                        ents@,
                    ) && new_off == off + ents@.len()
                },
            },
    {
        if !self.is_dir(dir) {
            return Err(Errno::ENOTDIR);
        }
        if off > usize::MAX as u64 {
            return Err(Errno::EOVERFLOW);
        }
        let i0 = self.index_of(dir).unwrap();
        let ghost s = slots_at(self@, dir as int)->0;
        assert(self.nodes@[i0 as int] matches Some(n) && n.content.view() == ContentView::Directory(s));
        let mut out: Vec<DirEntry> = Vec::new();
        let mut new_off = off;
        match &self.nodes[i0] {
            Some(n) => match &n.content {
                NodeContent::Directory(d) => {
                    let start: usize = if (off as usize) < d.slots_count() {
                        off as usize
                    } else {
                        d.slots_count()
                    };
                    let mut i = start;
                    while i < d.slots_count()
                        invariant_except_break
                            out@.len() <= limit,
                            out@.len() == present(s.subrange(start as int, i as int)).len(),
                        invariant
                            d@ == s,
                            start <= i <= s.len(),
                            start as int == start_of(off, s),
                            out@.len() <= i - start,
                            out@.len() <= present(s.subrange(start as int, i as int)).len(),
                            out@.len() <= limit,
                            forall|k: int|
                                0 <= k < out@.len() ==> #[trigger] out@[k]@ == dir_entry_view(
                                    self@,
                                    present(s.subrange(start as int, i as int))[k],
                                ),
                            new_off == off + out@.len(),
                            off <= usize::MAX,
                        ensures
                            out@.len() <= present(s.subrange(start as int, s.len() as int)).len(),
                            out@.len() == limit || (i == s.len() && out@.len() == present(s.subrange(start as int, s.len() as int)).len()),
                            forall|k: int|
                                0 <= k < out@.len() ==> #[trigger] out@[k]@ == dir_entry_view(
                                    self@,
                                    present(s.subrange(start as int, s.len() as int))[k],
                                ),
                            new_off == off + out@.len(),
                        decreases s.len() - i,
                    {
                        proof {
                            lemma_present_step(s, start as int, i as int);
                        }
                        match d.slot(i) {
                            Some((name, node)) => {
                                if out.len() == limit {
                                    proof {
                                        lemma_present_prefix(s, start as int, i as int);
                                    }
                                    break ;
                                }
                                let entry_type = match self.stat(node) {
                                    Some(st) => FileType::from_mode(st.mode),
                                    None => None,
                                };
                                out.push(DirEntry { inode: node, entry_type, name: copy_bytes(name) });
                                new_off = new_off + 1;
                            },
                            None => {},
                        }
                        i += 1;
                        proof {
                            if i == s.len() {
                                assert(s.subrange(start as int, i as int) == s.subrange(start as int, s.len() as int));
                            }
                        }
                    }
                },
                _ => {},
            },
            None => {},
        }
        proof {
            lemma_present_prefix(s, start_of(off, s), s.len() as int);
            let expected = present(s.subrange(start_of(off, s), s.len() as int));
            assert(expected.len() <= limit ==> out@.len() == expected.len());
            assert(expected.len() > limit ==> out@.len() == limit);
        }
        Ok((out, new_off))
    }

    /// Adds one to the number of links of node `ino`, if it exists.
    fn inc_nlink(&mut self, ino: INode)
        requires
            old(self).wf(),
            node_at(old(self)@, ino as int) is Some ==> nlink_at(old(self)@, ino as int) < u16::MAX,
        ensures
            final(self).wf(),
            final(self).is_readonly() == old(self).is_readonly(),
            final(self)@ == add_nlink(old(self)@, ino as int, 1),
    {
        match self.stat(ino) {
            Some(st) => self.set_nlink(ino, st.nlink + 1),
            None => {},
        }
    }

    /// Subtracts one from the number of links of node `ino`, if it exists.
    fn dec_nlink(&mut self, ino: INode)
        requires
            old(self).wf(),
            node_at(old(self)@, ino as int) is Some ==> nlink_at(old(self)@, ino as int) >= 1,
        ensures
            final(self).wf(),
            final(self).is_readonly() == old(self).is_readonly(),
            final(self)@ == add_nlink(old(self)@, ino as int, -1),
    {
        match self.stat(ino) {
            Some(st) => self.set_nlink(ino, st.nlink - 1),
            None => {},
        }
    }

    /// Tells whether the directory `ino` holds only its `.` and `..` entries, or fewer.
    fn dir_is_empty(&self, ino: INode) -> (b: bool)
        requires
            self.wf(),
            slots_at(self@, ino as int) is Some,
        ensures
            b == !dir_not_empty(slots_at(self@, ino as int)->0),
    {
        let i = self.index_of(ino).unwrap();
        let ghost s = slots_at(self@, ino as int)->0;
        assert(self.nodes@[i as int] matches Some(n) && n.content.view() == ContentView::Directory(s));
        assert(self.nodes@[i as int]->0.content.wf());
        let dot: &[u8] = &[46u8];
        let dotdot: &[u8] = &[46u8, 46u8];
        assert(dot@ =~= dot_name());
        assert(dotdot@ =~= dotdot_name());
        match &self.nodes[i] {
            Some(n) => match &n.content {
                NodeContent::Directory(d) => {
                    if d.used_slots() > 2 {
                        return false;
                    }
                    let mut k: usize = 0;
                    while k < d.slots_count()
                        invariant
                            d@ == s,
                            s == slots_at(self@, ino as int)->0,
                            count_used(s) <= 2,
                            dot@ == dot_name(),
                            dotdot@ == dotdot_name(),
                            k <= s.len(),
                            forall|j: int| 0 <= j < k ==> !#[trigger] is_other_entry(s[j]),
                        decreases s.len() - k,
                    {
                        match d.slot(k) {
                            Some((name, _)) => {
                                if !bytes_eq(name, dot) && !bytes_eq(name, dotdot) {
                                    assert(is_other_entry(s[k as int]));
                                    return false;
                                }
                            },
                            None => {},
                        }
                        k += 1;
                    }
                    true
                },
                _ => true,
            },
            None => true,
        }
    }

    /// Adds an entry named `name` pointing to `node` in the directory `parent`, and counts the
    /// new link. If `node` is a directory, its `.` and `..` entries are created, pointing to
    /// itself and to `parent`, and counted as links of both.
    ///
    /// Errors:
    /// - the filesystem is read-only: [`Errno::EROFS`]
    /// - `parent` is not a directory: [`Errno::ENOTDIR`]
    /// - `parent` already has an entry named `name`: [`Errno::EEXIST`]
    pub fn link(&mut self, parent: INode, name: &[u8], node: INode) -> (r: Result<(), Errno>)
        requires
            old(self).wf(),
            link_error(old(self).is_readonly(), old(self)@, parent, name@) is None ==> link_fits(
                old(self)@,
                parent,
                node,
            ),
        ensures
            final(self).wf(),
            final(self).is_readonly() == old(self).is_readonly(),
            match link_error(old(self).is_readonly(), old(self)@, parent, name@) {
                Some(e) => r == Err::<(), Errno>(e) && final(self)@ == old(self)@,
                None => r is Ok && final(self)@ == link_result(old(self)@, parent, name@, node),
            },
    {
        if self.readonly {
            return Err(Errno::EROFS);
        }
        if !self.is_dir(parent) {
            return Err(Errno::ENOTDIR);
        }
        if self.dir_find(parent, name).is_some() {
            return Err(Errno::EEXIST);
        }
        let ghost v0 = self@;
        let dot: [u8; 1] = [46u8];
        let dotdot: [u8; 2] = [46u8, 46u8];
        assert(dot@ =~= dot_name());
        assert(dotdot@ =~= dotdot_name());
        if self.is_dir(node) {
            proof {
                lemma_insert_len(slots_at(v0, node as int)->0, (dot_name(), node));
            }
            self.dir_insert(node, &dot, node);
            self.dir_insert(node, &dotdot, parent);
            proof {
                lemma_insert_len(slots_at(v0, node as int)->0, (dot_name(), node));
                lemma_frame(v0, node as int);
            }
            self.inc_nlink(node);
            proof {
                lemma_frame(v0, node as int);
            }
            self.inc_nlink(parent);
        }
        proof {
            lemma_frame(v0, node as int);
        }
        self.dir_insert(parent, name, node);
        proof {
            lemma_frame(v0, node as int);
        }
        self.inc_nlink(node);
        Ok(())
    }

    /// Removes the entry named `name` from the directory `parent`, and counts the link as gone.
    /// If the entry is a directory, its entries (`.` and `..`) are removed first, and their links
    /// to it and to `parent` counted as gone.
    ///
    /// Errors:
    /// - the filesystem is read-only: [`Errno::EROFS`]
    /// - `parent` is not a directory: [`Errno::ENOTDIR`]
    /// - `parent` has no entry named `name`: [`Errno::ENOENT`]
    /// - the entry is a directory holding entries other than `.` and `..`: [`Errno::ENOTEMPTY`]
    pub fn unlink(&mut self, parent: INode, name: &[u8]) -> (r: Result<(), Errno>)
        requires
            old(self).wf(),
            unlink_error(old(self).is_readonly(), old(self)@, parent, name@) is None ==> unlink_fits(
                old(self)@,
                parent,
                name@,
            ),
        ensures
            final(self).wf(),
            final(self).is_readonly() == old(self).is_readonly(),
            match unlink_error(old(self).is_readonly(), old(self)@, parent, name@) {
                Some(e) => r == Err::<(), Errno>(e) && final(self)@ == old(self)@,
                None => r is Ok && final(self)@ == unlink_result(old(self)@, parent, name@),
            },
    {
        if self.readonly {
            return Err(Errno::EROFS);
        }
        if !self.is_dir(parent) {
            return Err(Errno::ENOTDIR);
        }
        let target = match self.dir_find(parent, name) {
            Some(t) => t,
            None => {
                return Err(Errno::ENOENT);
            },
        };
        let ghost v0 = self@;
        if self.is_dir(target) {
            if !self.dir_is_empty(target) {
                return Err(Errno::ENOTEMPTY);
            }
            self.dir_clear(target);
            proof {
                lemma_frame(v0, target as int);
            }
            self.dec_nlink(target);
            proof {
                lemma_frame(v0, target as int);
            }
            self.dec_nlink(parent);
        }
        proof {
            lemma_frame(v0, target as int);
        }
        self.dec_nlink(target);
        proof {
            lemma_frame(v0, target as int);
        }
        self.dir_remove(parent, name);
        Ok(())
    }

    /// Moves the entry `old_name` of the directory `old_parent` to the entry `new_name` of the
    /// directory `new_parent`.
    ///
    /// If the destination exists, it is made to point to the moved node. With
    /// [`RENAME_EXCHANGE`] in `flags`, the source entry is made to point to the destination's
    /// previous node; otherwise that node loses a link and the source entry is removed. If the
    /// destination does not exist, it is created and the source entry is removed.
    ///
    /// If the moved node is a directory, its `..` entry is pointed to `new_parent`, which gains a
    /// link.
    ///
    /// `new_in_old` tells whether the destination lies inside the moved node, which cannot be.
    ///
    /// Errors:
    /// - the filesystem is read-only: [`Errno::EROFS`]
    /// - `new_parent` is not a directory: [`Errno::ENOTDIR`]
    /// - `new_in_old` is set: [`Errno::EINVAL`]
    /// - with [`RENAME_EXCHANGE`], the source entry vanished: [`Errno::EUCLEAN`]
    /// - `new_parent` has the maximum number of links: [`Errno::EMFILE`], the entries being moved
    ///   already
    pub fn rename(
        &mut self,
        old_parent: INode,
        old_name: &[u8],
        new_parent: INode,
        new_name: &[u8],
        flags: i32,
        new_in_old: bool,
    ) -> (r: Result<(), Errno>)
        requires
            old(self).wf(),
            !old(self).is_readonly() ==> slots_at(old(self)@, old_parent as int) is Some,
            rename_error(old(self).is_readonly(), old(self)@, new_parent, new_in_old) is None
                ==> rename_fits(old(self)@, old_parent, old_name@, new_parent, new_name@),
        ensures
            final(self).wf(),
            final(self).is_readonly() == old(self).is_readonly(),
            match rename_error(old(self).is_readonly(), old(self)@, new_parent, new_in_old) {
                Some(e) => r == Err::<(), Errno>(e) && final(self)@ == old(self)@,
                None => (r, final(self)@) == rename_result(
                    old(self)@,
                    old_parent,
                    old_name@,
                    new_parent,
                    new_name@,
                    flags,
                ),
            },
    {
        if self.readonly {
            return Err(Errno::EROFS);
        }
        if !self.is_dir(new_parent) {
            return Err(Errno::ENOTDIR);
        }
        if new_in_old {
            return Err(Errno::EINVAL);
        }
        let ghost v0 = self@;
        let old_node = self.dir_find(old_parent, old_name).unwrap();
        let dotdot: &[u8] = &[46u8, 46u8];
        assert(dotdot@ =~= dotdot_name());
        match self.dir_find(new_parent, new_name) {
            Some(prev) => {
                self.dir_set_inode(new_parent, new_name, old_node);
                proof {
                    lemma_frame(v0, 0);
                }
                if flags & RENAME_EXCHANGE != 0 {
                    match self.dir_find(old_parent, old_name) {
                        Some(_) => {},
                        None => {
                            return Err(Errno::EUCLEAN);
                        },
                    }
                    self.dir_set_inode(old_parent, old_name, prev);
                } else {
                    let ghost va = self@;
                    match self.stat(prev) {
                        Some(st) => {
                            let n = if st.nlink == 0 {
                                0
                            } else {
                                st.nlink - 1
                            };
                            self.set_nlink(prev, n);
                        },
                        None => {},
                    }
                    proof {
                        lemma_frame(va, 0);
                    }
                    self.dir_remove(old_parent, old_name);
                }
            },
            None => {
                proof {
                    lemma_insert_len(slots_at(v0, new_parent as int)->0, (new_name@, old_node));
                }
                self.dir_insert(new_parent, new_name, old_node);
                proof {
                    lemma_frame(v0, 0);
                }
                self.dir_remove(old_parent, old_name);
            },
        }
        let ghost v1 = self@;
        proof {
            lemma_frame(v1, 0);
        }
        if self.is_dir(old_node) {
            self.dir_set_inode(old_node, dotdot, new_parent);
            let ghost v2 = self@;
            proof {
                lemma_frame(v2, 0);
                lemma_frame(v1, 0);
            }
            let st = self.stat(new_parent).unwrap();
            if st.nlink == u16::MAX {
                return Err(Errno::EMFILE);
            }
            self.inc_nlink(new_parent);
            // The moved directory's `..` entry no longer links to the old parent
            let ghost v3 = self@;
            match self.stat(old_parent) {
                Some(st) => {
                    let n = if st.nlink == 0 {
                        0
                    } else {
                        st.nlink - 1
                    };
                    self.set_nlink(old_parent, n);
                },
                None => {},
            }
            proof {
                lemma_frame(v3, 0);
            }
        }
        Ok(())
    }

    /// Sets the size of the regular file `ino` to `size`, allocating or freeing pages so that
    /// exactly those covering `size` bytes remain. The first bytes of the file, up to the smaller
    /// of its old and new sizes, are kept; all the bytes after them are zeros.
    ///
    /// Errors:
    /// - `ino` is not a regular file: [`Errno::EINVAL`]
    /// - `size` does not fit in an `usize`: [`Errno::EOVERFLOW`]
    pub fn truncate(&mut self, ino: INode, size: u64) -> (r: Result<(), Errno>)
        requires
            old(self).wf(),
            regular_data(old(self)@, ino as int) is Some && size <= usize::MAX ==> pages_for(size as nat)
                * TMPFS_PAGE_SIZE <= usize::MAX,
        ensures
            final(self).wf(),
            final(self).is_readonly() == old(self).is_readonly(),
            match regular_data(old(self)@, ino as int) {
                None => r == Err::<(), Errno>(Errno::EINVAL) && final(self)@ == old(self)@,
                Some(data) => if size > usize::MAX {
                    r == Err::<(), Errno>(Errno::EOVERFLOW) && final(self)@ == old(self)@
                } else {
                    r is Ok && final(self)@ == old(self)@.update(
                        ino as int,
                        Some(NodeView {
                            stat: stat_with_size(node_at(old(self)@, ino as int)->0.stat, size),
                            content: ContentView::Regular(
                                truncate_pages(
                                    data,
                                    node_at(old(self)@, ino as int)->0.stat.size as nat,
                                    size as nat,
                                ),
                            ),
                        }),
                    )
                },
            },
    {
        let i = match self.index_of(ino) {
            Some(i) => i,
            None => {
                return Err(Errno::EINVAL);
            },
        };
        match &self.nodes[i] {
            Some(n) => match &n.content {
                NodeContent::Regular(_) => {},
                _ => {
                    return Err(Errno::EINVAL);
                },
            },
            None => {
                return Err(Errno::EINVAL);
            },
        }
        if size > usize::MAX as u64 {
            return Err(Errno::EOVERFLOW);
        }
        let size = size as usize;
        let ghost v0 = self@;
        let ghost data = regular_data(v0, ino as int)->0;
        let new_pages_count = size / TMPFS_PAGE_SIZE + if size % TMPFS_PAGE_SIZE == 0 {
            0
        } else {
            1
        };
        assert(new_pages_count == pages_for(size as nat));
        let ghost old_size = node_at(v0, ino as int)->0.stat.size as nat;
        match &mut self.nodes[i] {
            Some(n) => {
                let keep: usize = if n.stat.size < size as u64 {
                    n.stat.size as usize
                } else {
                    size
                };
                assert(keep == min_int(old_size as int, size as int));
                match &mut n.content {
                    NodeContent::Regular(pages) => {
                        let old_len = pages.len();
                        let new_len = new_pages_count * TMPFS_PAGE_SIZE;
                        if new_len >= old_len {
                            let mut k = old_len;
                            while k < new_len
                                invariant
                                    data.len() == old_len,
                                    old_len <= k <= new_len,
                                    pages@.len() == k,
                                    forall|j: int| 0 <= j < data.len() ==> pages@[j] == data[j],
                                    forall|j: int| data.len() <= j < k ==> pages@[j] == 0,
                                decreases new_len - k,
                            {
                                pages.push(0);
                                k += 1;
                            }
                        } else {
                            pages.truncate(new_len);
                        }
                        let end = if old_len < new_len {
                            old_len
                        } else {
                            new_len
                        };
                        let mut k = if keep < end {
                            keep
                        } else {
                            end
                        };
                        let ghost k0 = k as int;
                        while k < end
                            invariant
                                data.len() == old_len,
                                end <= new_len,
                                end <= old_len,
                                k0 <= k <= end,
                                pages@.len() == new_len,
                                forall|j: int|
                                    0 <= j < new_len ==> pages@[j] == if k0 <= j < k {
                                        0u8
                                    } else if j < data.len() {
                                        data[j]
                                    } else {
                                        0u8
                                    },
                            decreases end - k,
                        {
                            pages.set(k, 0u8);
                            k += 1;
                        }
                        assert(pages@ =~= truncate_pages(data, old_size, size as nat));
                    },
                    _ => {},
                }
                n.stat.size = size as u64;
            },
            None => {},
        }
        proof {
            assert(self@ =~= v0.update(
                ino as int,
                Some(NodeView {
                    stat: stat_with_size(node_at(v0, ino as int)->0.stat, size as u64),
                    content: ContentView::Regular(truncate_pages(data, old_size, size as nat)),
                }),
            ));
            assert forall|k: int|
                0 <= k < self.nodes@.len() implies (#[trigger] self.nodes@[k] matches Some(n)
                ==> n.wf()) by {
                if k != i {
                    assert(self.nodes@[k] == old(self).nodes@[k]);
                } else {
                    lemma_truncate_pages_len(data, old_size, size as nat);
                }
            }
        }
        Ok(())
    }

    /// Reads from the regular file `ino` at offset `off` into `buf`, as much as fits and as the
    /// file holds. The function returns the number of bytes read and whether the end of the file
    /// was reached. Bytes of the file that lie beyond its pages read as zeros.
    ///
    /// Errors:
    /// - `ino` is not a regular file: [`Errno::EINVAL`]
    /// - `off` is beyond the end of the file: [`Errno::EINVAL`]
    pub fn read(&self, ino: INode, off: u64, buf: &mut [u8]) -> (r: Result<(u64, bool), Errno>)
        ensures
            match (regular_data(self@, ino as int), node_at(self@, ino as int)) {
                (Some(data), Some(n)) => if off > n.stat.size {
                    r == Err::<(u64, bool), Errno>(Errno::EINVAL) && final(buf)@ == old(buf)@
                } else {
                    let len = min_int(n.stat.size - off, old(buf)@.len() as int);
                    &&& r == Ok::<(u64, bool), Errno>((len as u64, off + len >= n.stat.size))
                    &&& final(buf)@ == file_bytes(data, n.stat.size as nat).subrange(
                        off as int,
                        off + len,
                    ) + old(buf)@.skip(len)
                },
                _ => r == Err::<(u64, bool), Errno>(Errno::EINVAL) && final(buf)@ == old(buf)@,
            },
    {
        let i = match self.index_of(ino) {
            Some(i) => i,
            None => {
                return Err(Errno::EINVAL);
            },
        };
        match &self.nodes[i] {
            Some(n) => match &n.content {
                NodeContent::Regular(data) => {
                    let size = n.stat.size;
                    if off > size {
                        return Err(Errno::EINVAL);
                    }
                    let len: usize = if size - off < buf.len() as u64 {
                        (size - off) as usize
                    } else {
                        buf.len()
                    };
                    let ghost bytes = file_bytes(data@, size as nat);
                    let mut k: usize = 0;
                    while k < len
                        invariant
                            k <= len,
                            len <= buf@.len(),
                            off + len <= size,
                            bytes == file_bytes(data@, size as nat),
                            buf@.len() == old(buf)@.len(),
                            forall|j: int| 0 <= j < k ==> buf@[j] == bytes[off + j],
                            forall|j: int| k <= j < buf@.len() ==> buf@[j] == old(buf)@[j],
                        decreases len - k,
                    {
                        let pos = off + k as u64;
                        buf[k] = if (pos as usize) < data.len() && pos <= usize::MAX as u64 {
                            data[pos as usize]
                        } else {
                            0
                        };
                        k += 1;
                    }
                    assert(buf@ =~= bytes.subrange(off as int, off + len) + old(buf)@.skip(
                        len as int,
                    ));
                    Ok((len as u64, off + len as u64 >= size))
                },
                _ => Err(Errno::EINVAL),
            },
            None => Err(Errno::EINVAL),
        }
    }

    /// Writes `buf` to the regular file `ino` at offset `off`. The file grows as needed, new
    /// pages being zeroed. The function returns the number of bytes written.
    ///
    /// Errors:
    /// - the filesystem is read-only: [`Errno::EROFS`]
    /// - `ino` is not a regular file: [`Errno::EINVAL`]
    /// - `off` is beyond the end of the file: [`Errno::EINVAL`]
    pub fn write(&mut self, ino: INode, off: u64, buf: &[u8]) -> (r: Result<u64, Errno>)
        requires
            old(self).wf(),
            off + buf@.len() <= u64::MAX,
            pages_for(max_int(off + buf@.len(), nlink_free_size(old(self)@, ino as int)) as nat) * TMPFS_PAGE_SIZE <= usize::MAX,
        ensures
            final(self).wf(),
            final(self).is_readonly() == old(self).is_readonly(),
            old(self).is_readonly() ==> r == Err::<u64, Errno>(Errno::EROFS) && final(self)@ == old(self)@,
            !old(self).is_readonly() ==> match (regular_data(old(self)@, ino as int), node_at(old(self)@, ino as int)) {
                (Some(data), Some(n)) => if off > n.stat.size {
                    r == Err::<u64, Errno>(Errno::EINVAL) && final(self)@ == old(self)@
                } else {
                    let new_size = max_int(off + buf@.len(), n.stat.size as int);
                    &&& r == Ok::<u64, Errno>(buf@.len() as u64)
                    &&& final(self)@ == old(self)@.update(
                        ino as int,
                        Some(NodeView {
                            stat: stat_with_size(n.stat, new_size as u64),
                            content: ContentView::Regular(write_pages(data, off as int, buf@, new_size as nat)),
                        }),
                    )
                },
                _ => r == Err::<u64, Errno>(Errno::EINVAL) && final(self)@ == old(self)@,
            },
    {
        if self.readonly {
            return Err(Errno::EROFS);
        }
        let i = match self.index_of(ino) {
            Some(i) => i,
            None => {
                return Err(Errno::EINVAL);
            },
        };
        let ghost v0 = self@;
        let ghost data0 = regular_data(v0, ino as int);
        match &mut self.nodes[i] {
            Some(n) => match &mut n.content {
                NodeContent::Regular(data) => {
                    let size = n.stat.size;
                    if off > size {
                        return Err(Errno::EINVAL);
                    }
                    let end = off + buf.len() as u64;
                    let new_size = if end > size {
                        end
                    } else {
                        size
                    };
                    let new_len = ((new_size / TMPFS_PAGE_SIZE as u64) + if new_size % TMPFS_PAGE_SIZE as u64 == 0 {
                        0
                    } else {
                        1
                    }) as usize * TMPFS_PAGE_SIZE;
                    assert(new_len == pages_for(new_size as nat) * TMPFS_PAGE_SIZE);
                    let ghost old_data = data@;
                    let target = if new_len > data.len() {
                        new_len
                    } else {
                        data.len()
                    };
                    let mut k = data.len();
                    while k < target
                        invariant
                            old_data.len() <= k <= target,
                            data@.len() == k,
                            forall|j: int| 0 <= j < old_data.len() ==> data@[j] == old_data[j],
                            forall|j: int| old_data.len() <= j < k ==> data@[j] == 0,
                        decreases target - k,
                    {
                        data.push(0);
                        k += 1;
                    }
                    let ghost grown = data@;
                    proof {
                        lemma_pages_cover(new_size as nat);
                    }
                    assert(off + buf@.len() <= data@.len());
                    assert(data@.len() == target);
                    assert(data.len() == data@.len());
                    assert(forall|j: int|
                        0 <= j < grown.len() ==> #[trigger] grown[j] == (if j < old_data.len() {
                            old_data[j]
                        } else {
                            0u8
                        }));
                    let start = off as usize;
                    assert(start == off);
                    let mut k: usize = 0;
                    while k < buf.len()
                        invariant
                            k <= buf@.len(),
                            start == off,
                            data@.len() <= usize::MAX,
                            forall|j: int|
                                0 <= j < grown.len() ==> #[trigger] grown[j] == (if j < old_data.len() {
                                    old_data[j]
                                } else {
                                    0u8
                                }),
                            start + buf@.len() <= data@.len(),
                            data@.len() == grown.len(),
                            forall|j: int| 0 <= j < data@.len() && !(start <= j < start + k) ==> data@[j] == grown[j],
                            forall|j: int| start <= j < start + k ==> data@[j] == buf@[j - start],
                        decreases buf@.len() - k,
                    {
                        data.set(start + k, buf[k]);
                        k += 1;
                    }
                    n.stat.size = new_size;
                    assert(data@.len() == write_pages(old_data, off as int, buf@, new_size as nat).len());
                    assert(forall|j: int| start <= j < start + buf@.len() ==> data@[j] == write_pages(old_data, off as int, buf@, new_size as nat)[j]);
                    assert(forall|j: int| 0 <= j < data@.len() && !(start <= j < start + buf@.len()) ==> data@[j] == grown[j]);
                    assert forall|j: int| 0 <= j < data@.len() && !(start <= j < start + buf@.len()) implies data@[j] == write_pages(old_data, off as int, buf@, new_size as nat)[j] by {
                        assert(data@[j] == grown[j]);
                    }
                    assert(data@ =~= write_pages(old_data, off as int, buf@, new_size as nat));
                },
                _ => {
                    return Err(Errno::EINVAL);
                },
            },
            None => {
                return Err(Errno::EINVAL);
            },
        }
        proof {
            assert forall|k: int|
                0 <= k < self.nodes@.len() implies (#[trigger] self.nodes@[k] matches Some(n)
                ==> n.wf()) by {
                if k != i {
                    assert(self.nodes@[k] == old(self).nodes@[k]);
                } else {
                    let nn = self.nodes@[k]->0;
                    lemma_write_pages_len(data0->0, off as int, buf@, nn.stat.size as nat);
                }
            }
        }
        Ok(buf.len() as u64)
    }

    /// Copies the target of the symbolic link `ino` into `buf`, as much of it as fits, and returns
    /// the number of bytes copied.
    ///
    /// If `ino` is not a symbolic link, the function returns [`Errno::EINVAL`].
    pub fn readlink(&self, ino: INode, buf: &mut [u8]) -> (r: Result<usize, Errno>)
        ensures
            match link_target(self@, ino as int) {
                Some(t) => r matches Ok(n) && n == (if t.len() < old(buf)@.len() {
                    t.len()
                } else {
                    old(buf)@.len()
                }) && final(buf)@ == t.take(n as int) + old(buf)@.skip(n as int),
                None => r == Err::<usize, Errno>(Errno::EINVAL) && final(buf)@ == old(buf)@,
            },
    {
        let i = match self.index_of(ino) {
            Some(i) => i,
            None => {
                return Err(Errno::EINVAL);
            },
        };
        match &self.nodes[i] {
            Some(n) => match &n.content {
                NodeContent::Link(t) => {
                    let len = if t.len() < buf.len() {
                        t.len()
                    } else {
                        buf.len()
                    };
                    let mut k: usize = 0;
                    while k < len
                        invariant
                            k <= len,
                            len <= t@.len(),
                            len <= buf@.len(),
                            buf@.len() == old(buf)@.len(),
                            forall|j: int| 0 <= j < k ==> buf@[j] == t@[j],
                            forall|j: int| k <= j < buf@.len() ==> buf@[j] == old(buf)@[j],
                        decreases len - k,
                    {
                        buf[k] = t[k];
                        k += 1;
                    }
                    assert(buf@ =~= t@.take(len as int) + old(buf)@.skip(len as int));
                    Ok(len)
                },
                _ => Err(Errno::EINVAL),
            },
            None => Err(Errno::EINVAL),
        }
    }

    /// Sets the target of the symbolic link `ino` to `buf`, and its size to the length of `buf`.
    ///
    /// If `ino` is not a symbolic link, the function returns [`Errno::EINVAL`].
    pub fn writelink(&mut self, ino: INode, buf: &[u8]) -> (r: Result<(), Errno>)
        requires
            old(self).wf(),
        ensures
            final(self).wf(),
            final(self).is_readonly() == old(self).is_readonly(),
            match link_target(old(self)@, ino as int) {
                Some(_) => r is Ok && final(self)@ == old(self)@.update(
                    ino as int,
                    Some(NodeView {
                        stat: stat_with_size(node_at(old(self)@, ino as int)->0.stat, buf@.len() as u64),
                        content: ContentView::Link(buf@),
                    }),
                ),
                None => r == Err::<(), Errno>(Errno::EINVAL) && final(self)@ == old(self)@,
            },
    {
        let i = match self.index_of(ino) {
            Some(i) => i,
            None => {
                return Err(Errno::EINVAL);
            },
        };
        let ghost v0 = self@;
        match &mut self.nodes[i] {
            Some(n) => match &mut n.content {
                NodeContent::Link(t) => {
                    *t = copy_bytes(buf);
                    n.stat.size = buf.len() as u64;
                },
                _ => {
                    return Err(Errno::EINVAL);
                },
            },
            None => {
                return Err(Errno::EINVAL);
            },
        }
        proof {
            assert(self@ =~= v0.update(
                ino as int,
                Some(NodeView {
                    stat: stat_with_size(node_at(v0, ino as int)->0.stat, buf@.len() as u64),
                    content: ContentView::Link(buf@),
                }),
            ));
            assert forall|k: int|
                0 <= k < self.nodes@.len() implies (#[trigger] self.nodes@[k] matches Some(n)
                ==> n.wf()) by {
                if k != i {
                    assert(self.nodes@[k] == old(self).nodes@[k]);
                }
            }
        }
        Ok(())
    }
}

/// `ents` lists the first `limit` entries of `expected`, or all of them if there are fewer.
pub open spec fn listing_is(
    v: FsView,
    expected: Seq<(Seq<u8>, INode)>,
    limit: usize,
    ents: Seq<DirEntry>,
) -> bool {
    let listed = if expected.len() <= limit {
        expected
    } else {
        expected.take(limit as int)
    };
    &&& ents.len() == listed.len()
    &&& forall|k: int| 0 <= k < ents.len() ==> #[trigger] ents[k]@ == dir_entry_view(v, listed[k])
}

/// The name of the entry of a directory that points to itself.
pub open spec fn dot_name() -> Seq<u8> {
    seq![46u8]
}

/// The name of the entry of a directory that points to its parent.
pub open spec fn dotdot_name() -> Seq<u8> {
    seq![46u8, 46u8]
}

/// Slot `e` holds an entry other than `.` and `..`.
pub open spec fn is_other_entry(e: SlotView) -> bool {
    e matches Some(x) && x.0 != dot_name() && x.0 != dotdot_name()
}

/// The directory holds more than its `.` and `..` entries.
pub open spec fn dir_not_empty(s: Seq<SlotView>) -> bool {
    count_used(s) > 2 || exists|i: int| 0 <= i < s.len() && #[trigger] is_other_entry(s[i])
}

/// The target of the symbolic link `ino`, if it is one.
pub open spec fn link_target(v: FsView, ino: int) -> Option<Seq<u8>> {
    match node_at(v, ino) {
        Some(n) => match n.content {
            ContentView::Link(t) => Some(t),
            _ => None,
        },
        None => None,
    }
}

/// The error with which a link named `name` in `parent` is refused, if any.
pub open spec fn link_error(readonly: bool, v: FsView, parent: INode, name: Seq<u8>) -> Option<Errno> {
    if readonly {
        Some(Errno::EROFS)
    } else if slots_at(v, parent as int) is None {
        Some(Errno::ENOTDIR)
    } else if lookup_slots(slots_at(v, parent as int)->0, name) is Some {
        Some(Errno::EEXIST)
    } else {
        None
    }
}

/// The counts that a link of `node` in `parent` increments fit in their types, and a directory
/// is not linked into itself.
pub open spec fn link_fits(v: FsView, parent: INode, node: INode) -> bool {
    &&& slots_at(v, parent as int)->0.len() + 1 < usize::MAX
    &&& slots_at(v, node as int) matches Some(s) ==> {
        &&& node != parent
        &&& s.len() + 2 < usize::MAX
        &&& nlink_at(v, node as int) + 2 <= u16::MAX
        &&& nlink_at(v, parent as int) + 1 <= u16::MAX
    }
    &&& slots_at(v, node as int) is None ==> nlink_at(v, node as int) + 1 <= u16::MAX
}

/// The filesystem after linking `node` as `name` in `parent`.
pub open spec fn link_result(v: FsView, parent: INode, name: Seq<u8>, node: INode) -> FsView {
    let v1 = match slots_at(v, node as int) {
        Some(s) => add_nlink(
            add_nlink(
                with_slots(
                    v,
                    node as int,
                    insert_slots(insert_slots(s, (dot_name(), node)), (dotdot_name(), parent)),
                ),
                node as int,
                1,
            ),
            parent as int,
            1,
        ),
        None => v,
    };
    let v2 = with_slots(v1, parent as int, insert_slots(slots_at(v1, parent as int)->0, (name, node)));
    add_nlink(v2, node as int, 1)
}

/// The error with which the removal of the entry `name` of `parent` is refused, if any.
pub open spec fn unlink_error(readonly: bool, v: FsView, parent: INode, name: Seq<u8>) -> Option<
    Errno,
> {
    if readonly {
        Some(Errno::EROFS)
    } else if slots_at(v, parent as int) is None {
        Some(Errno::ENOTDIR)
    } else if lookup_slots(slots_at(v, parent as int)->0, name) is None {
        Some(Errno::ENOENT)
    } else if slots_at(v, lookup_slots(slots_at(v, parent as int)->0, name)->0 as int) matches Some(
        ts,
    ) && dir_not_empty(ts) {
        Some(Errno::ENOTEMPTY)
    } else {
        None
    }
}

/// The counts that the removal of the entry `name` of `parent` decrements are positive, and the
/// entry is not the directory itself.
pub open spec fn unlink_fits(v: FsView, parent: INode, name: Seq<u8>) -> bool {
    let t = lookup_slots(slots_at(v, parent as int)->0, name)->0;
    &&& slots_at(v, t as int) is Some ==> t != parent && nlink_at(v, t as int) >= 2 && nlink_at(
        v,
        parent as int,
    ) >= 1
    &&& node_at(v, t as int) is Some ==> nlink_at(v, t as int) >= 1
}

/// The filesystem after removing the entry `name` of `parent`.
pub open spec fn unlink_result(v: FsView, parent: INode, name: Seq<u8>) -> FsView {
    let t = lookup_slots(slots_at(v, parent as int)->0, name)->0;
    let v1 = if slots_at(v, t as int) is Some {
        add_nlink(
            add_nlink(with_slots(v, t as int, Seq::empty()), t as int, -1),
            parent as int,
            -1,
        )
    } else {
        v
    };
    let v2 = add_nlink(v1, t as int, -1);
    with_slots(v2, parent as int, remove_slots(slots_at(v2, parent as int)->0, name))
}

/// The error with which a rename is refused before any change, if any.
pub open spec fn rename_error(readonly: bool, v: FsView, new_parent: INode, new_in_old: bool) -> Option<
    Errno,
> {
    if readonly {
        Some(Errno::EROFS)
    } else if slots_at(v, new_parent as int) is None {
        Some(Errno::ENOTDIR)
    } else if new_in_old {
        Some(Errno::EINVAL)
    } else {
        None
    }
}

/// A rename can be carried out: the source entry exists, the destination, if it exists, points
/// to another node, a moved directory is neither parent, and the directories have room for one
/// more slot.
pub open spec fn rename_fits(
    v: FsView,
    old_parent: INode,
    old_name: Seq<u8>,
    new_parent: INode,
    new_name: Seq<u8>,
) -> bool {
    let old_node = lookup_slots(slots_at(v, old_parent as int)->0, old_name);
    &&& old_node is Some
    &&& lookup_slots(slots_at(v, new_parent as int)->0, new_name) != old_node
    &&& slots_at(v, old_node->0 as int) is Some ==> old_node->0 != old_parent && old_node->0
        != new_parent
    &&& slots_at(v, new_parent as int)->0.len() + 1 < usize::MAX
}

/// `n` minus one, or zero.
pub open spec fn saturating_dec(n: int) -> u16 {
    if n <= 0 {
        0
    } else {
        (n - 1) as u16
    }
}

/// The outcome of a rename that passed the first checks: its result and the filesystem after
/// it.
pub open spec fn rename_result(
    v: FsView,
    old_parent: INode,
    old_name: Seq<u8>,
    new_parent: INode,
    new_name: Seq<u8>,
    flags: i32,
) -> (Result<(), Errno>, FsView) {
    let o = lookup_slots(slots_at(v, old_parent as int)->0, old_name)->0;
    let (r1, v1) = match lookup_slots(slots_at(v, new_parent as int)->0, new_name) {
        Some(prev) => {
            let va = with_slots(
                v,
                new_parent as int,
                set_inode_slots(slots_at(v, new_parent as int)->0, new_name, o),
            );
            if flags & RENAME_EXCHANGE != 0 {
                match lookup_slots(slots_at(va, old_parent as int)->0, old_name) {
                    Some(_) => (
                        Ok(()),
                        with_slots(
                            va,
                            old_parent as int,
                            set_inode_slots(slots_at(va, old_parent as int)->0, old_name, prev),
                        ),
                    ),
                    None => (Err(Errno::EUCLEAN), va),
                }
            } else {
                let vb = with_nlink(va, prev as int, saturating_dec(nlink_at(va, prev as int)));
                (
                    Ok(()),
                    with_slots(
                        vb,
                        old_parent as int,
                        remove_slots(slots_at(vb, old_parent as int)->0, old_name),
                    ),
                )
            }
        },
        None => {
            let va = with_slots(
                v,
                new_parent as int,
                insert_slots(slots_at(v, new_parent as int)->0, (new_name, o)),
            );
            (
                Ok(()),
                with_slots(
                    va,
                    old_parent as int,
                    remove_slots(slots_at(va, old_parent as int)->0, old_name),
                ),
            )
        },
    };
    if r1 is Err {
        (r1, v1)
    } else if slots_at(v1, o as int) is Some {
        let v2 = with_slots(
            v1,
            o as int,
            set_inode_slots(slots_at(v1, o as int)->0, dotdot_name(), new_parent),
        );
        if nlink_at(v2, new_parent as int) == u16::MAX {
            (Err(Errno::EMFILE), v2)
        } else {
            let v3 = add_nlink(v2, new_parent as int, 1);
            (Ok(()), with_nlink(v3, old_parent as int, saturating_dec(nlink_at(v3, old_parent as int))))
        }
    } else {
        (Ok(()), v1)
    }
}

/// The pages of the regular file `ino`, if it is one.
pub open spec fn regular_data(v: FsView, ino: int) -> Option<Seq<u8>> {
    match node_at(v, ino) {
        Some(n) => match n.content {
            ContentView::Regular(d) => Some(d),
            _ => None,
        },
        None => None,
    }
}

/// The number of pages covering `size` bytes.
pub open spec fn pages_for(size: nat) -> nat {
    (size / (TMPFS_PAGE_SIZE as nat)) + if size % (TMPFS_PAGE_SIZE as nat) == 0 {
        0nat
    } else {
        1nat
    }
}

/// The pages of a file of size `old_size` after setting its size to `size`: the pages covering
/// `size` bytes, holding the first `min(old_size, size)` bytes of the file and zeros after them.
pub open spec fn truncate_pages(data: Seq<u8>, old_size: nat, size: nat) -> Seq<u8> {
    Seq::new(
        (pages_for(size) * TMPFS_PAGE_SIZE) as nat,
        |j: int|
            if j < old_size && j < size && j < data.len() {
                data[j]
            } else {
                0u8
            },
    )
}

proof fn lemma_truncate_pages_len(data: Seq<u8>, old_size: nat, size: nat)
    ensures
        truncate_pages(data, old_size, size).len() == pages_for(size) * TMPFS_PAGE_SIZE,
        truncate_pages(data, old_size, size).len() % (TMPFS_PAGE_SIZE as nat) == 0,
{
    vstd::arithmetic::div_mod::lemma_mod_multiples_basic(pages_for(size) as int, 4096);
}

/// The smaller of two integers.
pub open spec fn min_int(a: int, b: int) -> int {
    if a < b {
        a
    } else {
        b
    }
}

/// The larger of two integers.
pub open spec fn max_int(a: int, b: int) -> int {
    if a < b {
        b
    } else {
        a
    }
}

/// The size of the node of inode `ino`, or zero if there is none.
pub open spec fn nlink_free_size(v: FsView, ino: int) -> int {
    match node_at(v, ino) {
        Some(n) => n.stat.size as int,
        None => 0,
    }
}

/// The bytes of a regular file of size `size` whose pages are `data`: bytes beyond the pages
/// are zeros.
pub open spec fn file_bytes(data: Seq<u8>, size: nat) -> Seq<u8> {
    Seq::new(size, |j: int| if j < data.len() { data[j] } else { 0u8 })
}

/// The pages of a file after writing `buf` at offset `off`, the file's new size being
/// `new_size`: the pages covering `new_size` bytes, new ones zeroed, holding `buf` from `off` on.
pub open spec fn write_pages(data: Seq<u8>, off: int, buf: Seq<u8>, new_size: nat) -> Seq<u8> {
    let new_len = if pages_for(new_size) * TMPFS_PAGE_SIZE >= data.len() {
        pages_for(new_size) * TMPFS_PAGE_SIZE
    } else {
        data.len() as int
    };
    Seq::new(
        new_len as nat,
        |j: int|
            if off <= j < off + buf.len() {
                buf[j - off]
            } else if j < data.len() {
                data[j]
            } else {
                0u8
            },
    )
}

proof fn lemma_pages_cover(n: nat)
    ensures
        pages_for(n) * TMPFS_PAGE_SIZE >= n,
{
    let q = n / 4096;
    let r = n % 4096;
    assert(n == q * 4096 + r) by (nonlinear_arith)
        requires
            q == n / 4096,
            r == n % 4096,
    ;
}

proof fn lemma_write_pages_len(data: Seq<u8>, off: int, buf: Seq<u8>, new_size: nat)
    requires
        data.len() % (TMPFS_PAGE_SIZE as nat) == 0,
    ensures
        write_pages(data, off, buf, new_size).len() % (TMPFS_PAGE_SIZE as nat) == 0,
{
    vstd::arithmetic::div_mod::lemma_mod_multiples_basic(pages_for(new_size) as int, 4096);
}

/// Changing the links count or the slots of one node changes nothing else: which nodes exist,
/// which are directories, and the counts and slots of the others.
proof fn lemma_frame(v: FsView, ino: int)
    ensures
        forall|a: int, n: u16, b: int|
            #![trigger slots_at(with_nlink(v, a, n), b)]
            slots_at(with_nlink(v, a, n), b) == slots_at(v, b),
        forall|a: int, n: u16, b: int|
            #![trigger node_at(with_nlink(v, a, n), b)]
            (node_at(with_nlink(v, a, n), b) is Some) == (node_at(v, b) is Some),
        forall|a: int, n: u16, b: int|
            #![trigger nlink_at(with_nlink(v, a, n), b)]
            nlink_at(with_nlink(v, a, n), b) == if a == b && node_at(v, a) is Some {
                n as int
            } else {
                nlink_at(v, b)
            },
        forall|a: int, s: Seq<SlotView>, b: int|
            #![trigger slots_at(with_slots(v, a, s), b)]
            slots_at(with_slots(v, a, s), b) == if a == b && slots_at(v, a) is Some {
                Some(s)
            } else {
                slots_at(v, b)
            },
        forall|a: int, s: Seq<SlotView>, b: int|
            #![trigger nlink_at(with_slots(v, a, s), b)]
            nlink_at(with_slots(v, a, s), b) == nlink_at(v, b),
        forall|a: int, s: Seq<SlotView>, b: int|
            #![trigger node_at(with_slots(v, a, s), b)]
            (node_at(with_slots(v, a, s), b) is Some) == (node_at(v, b) is Some),
{
}

proof fn lemma_insert_len(s: Seq<SlotView>, e: (Seq<u8>, INode))
    ensures
        insert_slots(s, e).len() <= s.len() + 1,
{
}

/// The start of a listing of the slots `s` from `off`.
pub open spec fn start_of(off: u64, s: Seq<SlotView>) -> int {
    if off < s.len() {
        off as int
    } else {
        s.len() as int
    }
}

/// The status of the root directory of a new tmpfs.
pub open spec fn root_stat() -> Stat {
    Stat {
        mode: S_IFDIR | 0o1777,
        nlink: 2,
        uid: ROOT_UID,
        gid: ROOT_GID,
        size: 0,
        blocks: 0,
        dev_major: 0,
        dev_minor: 0,
        ctime: 0,
        mtime: 0,
        atime: 0,
    }
}

/// The slots of the root directory of a new tmpfs: `.` and `..`, both pointing to it.
pub open spec fn root_slots() -> Seq<SlotView> {
    seq![Some((seq![46u8], ROOT_INODE)), Some((seq![46u8, 46u8], ROOT_INODE))]
}

/// The empty content of a new node of type `t`.
pub open spec fn empty_content(t: FileType) -> ContentView {
    match t {
        FileType::Regular => ContentView::Regular(Seq::empty()),
        FileType::Directory => ContentView::Directory(Seq::empty()),
        FileType::Link => ContentView::Link(Seq::empty()),
        _ => ContentView::NoContent,
    }
}

/// Inode `i` is the first free inode, or the next one after the table if none is free.
pub open spec fn is_first_free(v: FsView, i: int) -> bool {
    &&& 0 <= i <= v.len()
    &&& i < v.len() ==> v[i] is None
    &&& forall|j: int| 0 <= j < i ==> #[trigger] v[j] is Some
}

/// The first free inode, or the next one after the table if none is free.
pub open spec fn first_free(v: FsView) -> int {
    choose|i: int| is_first_free(v, i)
}

/// There is one first free inode.
pub proof fn lemma_first_free(v: FsView, i: int)
    requires
        is_first_free(v, i),
    ensures
        first_free(v) == i,
{
    let k = first_free(v);
    assert(is_first_free(v, k));
    if k < i {
        assert(v[k] is Some);
    } else if i < k {
        assert(v[i] is Some);
    }
}

/// The filesystem after placing node `n` at inode `i`, which is free or just after the table.
pub open spec fn place_node(v: FsView, i: int, n: NodeView) -> FsView {
    if i < v.len() {
        v.update(i, Some(n))
    } else {
        v.push(Some(n))
    }
}

/// The entries held by the slots `s`, in order, holes skipped.
pub open spec fn present(s: Seq<SlotView>) -> Seq<(Seq<u8>, INode)>
    decreases s.len(),
{
    if s.len() == 0 {
        Seq::empty()
    } else {
        present(s.drop_last()) + match s.last() {
            Some(e) => seq![e],
            None => Seq::empty(),
        }
    }
}

proof fn lemma_present_step(s: Seq<SlotView>, a: int, i: int)
    requires
        0 <= a <= i < s.len(),
    ensures
        present(s.subrange(a, i + 1)) == present(s.subrange(a, i)) + match s[i] {
            Some(e) => seq![e],
            None => Seq::<(Seq<u8>, INode)>::empty(),
        },
{
    assert(s.subrange(a, i + 1).drop_last() =~= s.subrange(a, i));
}

proof fn lemma_present_append(x: Seq<SlotView>, y: Seq<SlotView>)
    ensures
        present(x + y) == present(x) + present(y),
    decreases y.len(),
{
    if y.len() == 0 {
        assert(x + y =~= x);
        assert(present(x) + present(y) =~= present(x));
    } else {
        lemma_present_append(x, y.drop_last());
        assert((x + y).drop_last() =~= x + y.drop_last());
        assert(present(x) + present(y) =~= present(x) + present(y.drop_last()) + match y.last() {
            Some(e) => seq![e],
            None => Seq::<(Seq<u8>, INode)>::empty(),
        });
    }
}

proof fn lemma_present_prefix(s: Seq<SlotView>, a: int, i: int)
    requires
        0 <= a <= i <= s.len(),
    ensures
        present(s.subrange(a, s.len() as int)).take(present(s.subrange(a, i)).len() as int)
            == present(s.subrange(a, i)),
        present(s.subrange(a, i)).len() <= present(s.subrange(a, s.len() as int)).len(),
{
    lemma_present_append(s.subrange(a, i), s.subrange(i, s.len() as int));
    assert(s.subrange(a, i) + s.subrange(i, s.len() as int) =~= s.subrange(a, s.len() as int));
    assert(present(s.subrange(a, s.len() as int)).take(present(s.subrange(a, i)).len() as int)
        =~= present(s.subrange(a, i)));
}

/// The type of the node of inode `ino`, if it exists and its type is valid.
pub open spec fn node_type(v: FsView, ino: INode) -> Option<FileType> {
    match node_at(v, ino as int) {
        Some(n) => type_of_mode(n.stat.mode),
        None => None,
    }
}

/// The listing of the directory entry `e`: its inode, its type and its name.
pub open spec fn dir_entry_view(v: FsView, e: (Seq<u8>, INode)) -> (INode, Option<FileType>, Seq<u8>) {
    (e.1, node_type(v, e.1), e.0)
}

/// An entry of a directory listing.
#[derive(Debug)]
pub struct DirEntry {
    /// The inode the entry points to.
    pub inode: INode,
    /// The type of the file, if it is valid.
    pub entry_type: Option<FileType>,
    /// The name of the entry.
    pub name: Vec<u8>,
}

impl DirEntry {
    /// The entry's inode, type and name.
    pub open spec fn view(&self) -> (INode, Option<FileType>, Seq<u8>) {
        (self.inode, self.entry_type, self.name@)
    }
}

/// Filesystem statistics.
#[derive(Clone, Copy, Debug)]
pub struct Statfs {
    /// The type of the filesystem.
    pub f_type: u32,
    /// The optimal transfer block size.
    pub f_bsize: usize,
    /// The total number of data blocks.
    pub f_blocks: u64,
    /// The number of free blocks.
    pub f_bfree: u64,
    /// The number of free blocks available to unprivileged users.
    pub f_bavail: u64,
    /// The total number of file nodes.
    pub f_files: u64,
    /// The number of free file nodes.
    pub f_ffree: u64,
    /// The filesystem's ID.
    pub f_fsid: [i32; 2],
    /// The maximum length of file names.
    pub f_namelen: usize,
    /// The fragment size.
    pub f_frsize: u32,
    /// The mount flags of the filesystem.
    pub f_flags: u32,
}

/// A regular file node whose content is held as one buffer of bytes.
#[derive(Debug)]
pub struct TmpFSRegular {
    /// The number of hard links to the node.
    hard_links_count: u16,
    /// The file's permissions.
    mode: Mode,
    /// The file's owner user ID.
    uid: Uid,
    /// The file's owner group ID.
    gid: Gid,
    /// Timestamp of the last modification of the metadata.
    ctime: u64,
    /// Timestamp of the last modification of the file.
    mtime: u64,
    /// Timestamp of the last access to the file.
    atime: u64,
    /// The content of the file.
    content: Vec<u8>,
}

impl TmpFSRegular {
    /// The content of the file.
    pub closed spec fn content(&self) -> Seq<u8> {
        self.content@
    }

    /// The number of hard links to the node.
    pub closed spec fn links(&self) -> u16 {
        self.hard_links_count
    }

    /// The file's permissions.
    pub closed spec fn mode_spec(&self) -> Mode {
        self.mode
    }

    /// The file's owner user and group IDs.
    pub closed spec fn owner(&self) -> (Uid, Gid) {
        (self.uid, self.gid)
    }

    /// The file's timestamps: metadata change, modification and access.
    pub closed spec fn times(&self) -> (u64, u64, u64) {
        (self.ctime, self.mtime, self.atime)
    }

    /// Creates an empty file with one link, the given permissions and owner, and all its
    /// timestamps set to `now`, the current time in seconds, or zero if the clock is not
    /// available.
    pub fn new(mode: Mode, uid: Uid, gid: Gid, now: Option<u64>) -> (f: Self)
        ensures
            f.content() == Seq::<u8>::empty(),
            f.links() == 1,
            f.mode_spec() == mode,
            f.owner() == (uid, gid),
            f.times() == (match now {
                Some(t) => (t, t, t),
                None => (0u64, 0u64, 0u64),
            }),
    {
        let ts = match now {
            Some(t) => t,
            None => 0,
        };
        TmpFSRegular {
            hard_links_count: 1,
            mode,
            uid,
            gid,
            ctime: ts,
            mtime: ts,
            atime: ts,
            content: Vec::new(),
        }
    }

    /// Returns the number of hard links to the node.
    pub fn get_hard_links_count(&self) -> (n: u16)
        ensures
            n == self.links(),
    {
        self.hard_links_count
    }

    /// Sets the number of hard links to the node.
    pub fn set_hard_links_count(&mut self, hard_links_count: u16)
        ensures
            final(self).links() == hard_links_count,
            final(self).content() == old(self).content(),
            final(self).mode_spec() == old(self).mode_spec(),
            final(self).owner() == old(self).owner(),
            final(self).times() == old(self).times(),
    {
        self.hard_links_count = hard_links_count;
    }

    /// Returns the file's permissions.
    pub fn get_mode(&self) -> (m: Mode)
        ensures
            m == self.mode_spec(),
    {
        self.mode
    }

    /// Sets the file's permissions.
    pub fn set_mode(&mut self, mode: Mode)
        ensures
            final(self).mode_spec() == mode,
            final(self).content() == old(self).content(),
            final(self).links() == old(self).links(),
            final(self).owner() == old(self).owner(),
            final(self).times() == old(self).times(),
    {
        self.mode = mode;
    }

    /// Returns the file's owner user ID.
    pub fn get_uid(&self) -> (u: Uid)
        ensures
            u == self.owner().0,
    {
        self.uid
    }

    /// Sets the file's owner user ID.
    pub fn set_uid(&mut self, uid: Uid)
        ensures
            final(self).owner() == (uid, old(self).owner().1),
            final(self).content() == old(self).content(),
            final(self).links() == old(self).links(),
            final(self).mode_spec() == old(self).mode_spec(),
            final(self).times() == old(self).times(),
    {
        self.uid = uid;
    }

    /// Returns the file's owner group ID.
    pub fn get_gid(&self) -> (g: Gid)
        ensures
            g == self.owner().1,
    {
        self.gid
    }

    /// Sets the file's owner group ID.
    pub fn set_gid(&mut self, gid: Gid)
        ensures
            final(self).owner() == (old(self).owner().0, gid),
            final(self).content() == old(self).content(),
            final(self).links() == old(self).links(),
            final(self).mode_spec() == old(self).mode_spec(),
            final(self).times() == old(self).times(),
    {
        self.gid = gid;
    }

    /// Returns the timestamp of the last access to the file.
    pub fn get_atime(&self) -> (t: u64)
        ensures
            t == self.times().2,
    {
        self.atime
    }

    /// Sets the timestamp of the last access to the file.
    pub fn set_atime(&mut self, ts: u64)
        ensures
            final(self).times() == (old(self).times().0, old(self).times().1, ts),
            final(self).content() == old(self).content(),
            final(self).links() == old(self).links(),
            final(self).mode_spec() == old(self).mode_spec(),
            final(self).owner() == old(self).owner(),
    {
        self.atime = ts;
    }

    /// Returns the timestamp of the last modification of the metadata.
    pub fn get_ctime(&self) -> (t: u64)
        ensures
            t == self.times().0,
    {
        self.ctime
    }

    /// Sets the timestamp of the last modification of the metadata.
    pub fn set_ctime(&mut self, ts: u64)
        ensures
            final(self).times() == (ts, old(self).times().1, old(self).times().2),
            final(self).content() == old(self).content(),
            final(self).links() == old(self).links(),
            final(self).mode_spec() == old(self).mode_spec(),
            final(self).owner() == old(self).owner(),
    {
        self.ctime = ts;
    }

    /// Returns the timestamp of the last modification of the file.
    pub fn get_mtime(&self) -> (t: u64)
        ensures
            t == self.times().1,
    {
        self.mtime
    }

    /// Sets the timestamp of the last modification of the file.
    pub fn set_mtime(&mut self, ts: u64)
        ensures
            final(self).times() == (old(self).times().0, ts, old(self).times().2),
            final(self).content() == old(self).content(),
            final(self).links() == old(self).links(),
            final(self).mode_spec() == old(self).mode_spec(),
            final(self).owner() == old(self).owner(),
    {
        self.mtime = ts;
    }

    /// Returns the size of the file in bytes.
    pub fn get_size(&self) -> (n: u64)
        ensures
            n == self.content().len(),
    {
        self.content.len() as u64
    }

    /// Reads from the file at `offset` into `buff`, as much as fits and as the file holds. The
    /// function returns the number of bytes read and whether the end of the file was reached.
    ///
    /// If `offset` is beyond the end of the file, the function returns [`Errno::EINVAL`].
    pub fn read(&self, offset: u64, buff: &mut [u8]) -> (r: Result<(u64, bool), Errno>)
        ensures
            offset > self.content().len() ==> r == Err::<(u64, bool), Errno>(Errno::EINVAL)
                && final(buff)@ == old(buff)@,
            offset <= self.content().len() ==> {
                let len = min_int(self.content().len() - offset, old(buff)@.len() as int);
                &&& r == Ok::<(u64, bool), Errno>((len as u64, offset + len >= self.content().len()))
                &&& final(buff)@ == self.content().subrange(offset as int, offset + len) + old(
                    buff,
                )@.skip(len)
            },
    {
        if offset > self.content.len() as u64 {
            return Err(Errno::EINVAL);
        }
        let off = offset as usize;
        assert(self.content@.len() == self.content.len());
        let len = if self.content.len() - off < buff.len() {
            self.content.len() - off
        } else {
            buff.len()
        };
        let mut k: usize = 0;
        while k < len
            invariant
                k <= len,
                len <= buff@.len(),
                off + len <= self.content@.len(),
                self.content@.len() <= usize::MAX,
                buff@.len() == old(buff)@.len(),
                forall|j: int| 0 <= j < k ==> buff@[j] == self.content@[off + j],
                forall|j: int| k <= j < buff@.len() ==> buff@[j] == old(buff)@[j],
            decreases len - k,
        {
            buff[k] = self.content[off + k];
            k += 1;
        }
        assert(buff@ =~= self.content@.subrange(off as int, off + len) + old(buff)@.skip(
            len as int,
        ));
        let eof = off + len >= self.content.len();
        Ok((len as u64, eof))
    }

    /// Writes `buff` to the file at `offset`, growing it as needed with zeros. The function
    /// returns the number of bytes written.
    ///
    /// If `offset` is beyond the end of the file, the function returns [`Errno::EINVAL`].
    pub fn write(&mut self, offset: u64, buff: &[u8]) -> (r: Result<u64, Errno>)
        requires
            offset + buff@.len() <= usize::MAX,
        ensures
            final(self).links() == old(self).links(),
            final(self).mode_spec() == old(self).mode_spec(),
            final(self).owner() == old(self).owner(),
            final(self).times() == old(self).times(),
            offset > old(self).content().len() ==> r == Err::<u64, Errno>(Errno::EINVAL)
                && final(self).content() == old(self).content(),
            offset <= old(self).content().len() ==> r == Ok::<u64, Errno>(buff@.len() as u64)
                && final(self).content() == write_bytes(old(self).content(), offset as int, buff@),
    {
        if offset > self.content.len() as u64 {
            return Err(Errno::EINVAL);
        }
        let off = offset as usize;
        let ghost old_content = self.content@;
        let new_len = if off + buff.len() > self.content.len() {
            off + buff.len()
        } else {
            self.content.len()
        };
        while self.content.len() < new_len
            invariant
                old_content.len() <= self.content@.len() <= new_len,
                self.links() == old(self).links(),
                self.mode_spec() == old(self).mode_spec(),
                self.owner() == old(self).owner(),
                self.times() == old(self).times(),
                forall|j: int| 0 <= j < old_content.len() ==> self.content@[j] == old_content[j],
                forall|j: int| old_content.len() <= j < self.content@.len() ==> self.content@[j] == 0,
            decreases new_len - self.content@.len(),
        {
            self.content.push(0);
        }
        let ghost grown = self.content@;
        assert(self.content@.len() == self.content.len());
        let mut k: usize = 0;
        while k < buff.len()
            invariant
                k <= buff@.len(),
                off + buff@.len() <= self.content@.len(),
                self.content@.len() <= usize::MAX,
                self.content@.len() == grown.len(),
                self.links() == old(self).links(),
                self.mode_spec() == old(self).mode_spec(),
                self.owner() == old(self).owner(),
                self.times() == old(self).times(),
                forall|j: int|
                    0 <= j < self.content@.len() && !(off <= j < off + k) ==> self.content@[j]
                        == grown[j],
                forall|j: int| off <= j < off + k ==> self.content@[j] == buff@[j - off],
            decreases buff@.len() - k,
        {
            self.content.set(off + k, buff[k]);
            k += 1;
        }
        assert(self.content@ =~= write_bytes(old_content, off as int, buff@));
        Ok(buff.len() as u64)
    }
}

/// The bytes of a buffer after writing `buf` at offset `off`, growing it with zeros as needed.
pub open spec fn write_bytes(content: Seq<u8>, off: int, buf: Seq<u8>) -> Seq<u8> {
    Seq::new(
        max_int(off + buf.len(), content.len() as int) as nat,
        |j: int|
            if off <= j < off + buf.len() {
                buf[j - off]
            } else if j < content.len() {
                content[j]
            } else {
                0u8
            },
    )
}

proof fn lemma_first_named_exists(s: Seq<SlotView>, name: Seq<u8>, i: int)
    requires
        0 <= i < s.len(),
        slot_named(s[i], name),
    ensures
        exists|k: int| is_first_named(s, name, k),
    decreases i,
{
    if exists|j: int| 0 <= j < i && slot_named(s[j], name) {
        let j = choose|j: int| 0 <= j < i && slot_named(s[j], name);
        lemma_first_named_exists(s, name, j);
    } else {
        assert(is_first_named(s, name, i));
    }
}

/// A directory's lookup finds nothing exactly when no slot holds an entry of that name.
proof fn lemma_lookup_none(s: Seq<SlotView>, name: Seq<u8>)
    ensures
        lookup_slots(s, name) is None <==> no_slot_named(s, name),
{
    if !no_slot_named(s, name) {
        let i = choose|i: int| 0 <= i < s.len() && slot_named(s[i], name);
        lemma_first_named_exists(s, name, i);
    }
}

/// Inserting an entry whose name is absent makes a lookup of that name find its node.
pub proof fn lemma_insert_then_lookup(s: Seq<SlotView>, name: Seq<u8>, node: INode)
    requires
        lookup_slots(s, name) is None,
    ensures
        lookup_slots(insert_slots(s, (name, node)), name) == Some(node),
{
    lemma_lookup_none(s, name);
    let t = insert_slots(s, (name, node));
    if exists|i: int| is_first_hole(s, i) {
        let h = choose|i: int| is_first_hole(s, i);
        assert(is_first_named(t, name, h));
        assert forall|k: int| is_first_named(t, name, k) implies k == h by {
            lemma_first_named_unique(t, name, k, h);
        }
    } else {
        assert(is_first_named(t, name, s.len() as int));
        assert forall|k: int| is_first_named(t, name, k) implies k == s.len() by {
            lemma_first_named_unique(t, name, k, s.len() as int);
        }
    }
}

/// At most one slot holds an entry named `name`.
pub open spec fn single_name(s: Seq<SlotView>, name: Seq<u8>) -> bool {
    forall|i: int, j: int|
        0 <= i < s.len() && 0 <= j < s.len() && #[trigger] slot_named(s[i], name)
            && #[trigger] slot_named(s[j], name) ==> i == j
}

/// Removing the entry of a name that appears once in the directory leaves no entry of that name.
pub proof fn lemma_remove_then_lookup(s: Seq<SlotView>, name: Seq<u8>)
    requires
        single_name(s, name),
    ensures
        lookup_slots(remove_slots(s, name), name) is None,
{
    let t = remove_slots(s, name);
    if exists|i: int| is_first_named(s, name, i) {
        let i = choose|i: int| is_first_named(s, name, i);
        assert forall|j: int| 0 <= j < t.len() implies !#[trigger] slot_named(t[j], name) by {
            if j != i && slot_named(t[j], name) {
                assert(slot_named(s[j], name) && slot_named(s[i], name));
            }
        }
    } else {
        assert forall|j: int| 0 <= j < t.len() implies !#[trigger] slot_named(t[j], name) by {
            if slot_named(t[j], name) {
                lemma_first_named_exists(s, name, j);
            }
        }
    }
    lemma_lookup_none(t, name);
}

/// Linking a node under a name makes a lookup of that name in the directory find the node.
pub proof fn lemma_link_then_lookup(v: FsView, parent: INode, name: Seq<u8>, node: INode)
    requires
        link_error(false, v, parent, name) is None,
        link_fits(v, parent, node),
    ensures
        slots_at(link_result(v, parent, name, node), parent as int) matches Some(s) && lookup_slots(
            s,
            name,
        ) == Some(node),
{
    lemma_frame(v, 0);
    let v1 = match slots_at(v, node as int) {
        Some(s) => add_nlink(
            add_nlink(
                with_slots(
                    v,
                    node as int,
                    insert_slots(insert_slots(s, (dot_name(), node)), (dotdot_name(), parent)),
                ),
                node as int,
                1,
            ),
            parent as int,
            1,
        ),
        None => v,
    };
    lemma_frame(with_slots(
        v,
        node as int,
        insert_slots(insert_slots(slots_at(v, node as int)->0, (dot_name(), node)), (dotdot_name(), parent)),
    ), 0);
    assert(slots_at(v1, parent as int) == slots_at(v, parent as int));
    lemma_frame(v1, 0);
    let v2 = with_slots(v1, parent as int, insert_slots(slots_at(v1, parent as int)->0, (name, node)));
    lemma_frame(v2, 0);
    lemma_insert_then_lookup(slots_at(v, parent as int)->0, name, node);
}

/// Removing an entry whose name appears once in its directory makes a lookup of that name find
/// nothing.
pub proof fn lemma_unlink_then_lookup(v: FsView, parent: INode, name: Seq<u8>)
    requires
        unlink_error(false, v, parent, name) is None,
        unlink_fits(v, parent, name),
        single_name(slots_at(v, parent as int)->0, name),
    ensures
        slots_at(unlink_result(v, parent, name), parent as int) matches Some(s) && lookup_slots(
            s,
            name,
        ) is None,
{
    lemma_frame(v, 0);
    let t = lookup_slots(slots_at(v, parent as int)->0, name)->0;
    let v1 = if slots_at(v, t as int) is Some {
        add_nlink(
            add_nlink(with_slots(v, t as int, Seq::empty()), t as int, -1),
            parent as int,
            -1,
        )
    } else {
        v
    };
    lemma_frame(with_slots(v, t as int, Seq::empty()), 0);
    lemma_frame(add_nlink(with_slots(v, t as int, Seq::empty()), t as int, -1), 0);
    assert(slots_at(v1, parent as int) == slots_at(v, parent as int));
    lemma_frame(v1, 0);
    let v2 = add_nlink(v1, t as int, -1);
    lemma_frame(v2, 0);
    lemma_remove_then_lookup(slots_at(v, parent as int)->0, name);
}

/// A read of a regular file at the offset of a write gives back the bytes written.
pub proof fn lemma_write_then_read(data: Seq<u8>, size: nat, off: nat, buf: Seq<u8>)
    requires
        off <= size,
    ensures
        ({
            let new_size = max_int(off + buf.len() as int, size as int) as nat;
            file_bytes(write_pages(data, off as int, buf, new_size), new_size).subrange(
                off as int,
                off + buf.len() as int,
            ) == buf
        }),
{
    let new_size = max_int(off + buf.len() as int, size as int) as nat;
    lemma_pages_cover(new_size);
    assert(file_bytes(write_pages(data, off as int, buf, new_size), new_size).subrange(
        off as int,
        off + buf.len() as int,
    ) =~= buf);
}

/// A read of a file buffer at the offset of a write gives back the bytes written, and the bytes
/// before that offset are kept.
pub proof fn lemma_write_bytes_then_read(content: Seq<u8>, off: nat, buf: Seq<u8>)
    requires
        off <= content.len(),
    ensures
        write_bytes(content, off as int, buf).subrange(off as int, off + buf.len() as int) == buf,
        write_bytes(content, off as int, buf).take(off as int) == content.take(off as int),
{
    assert(write_bytes(content, off as int, buf).subrange(off as int, off + buf.len() as int) =~= buf);
    assert(write_bytes(content, off as int, buf).take(off as int) =~= content.take(off as int));
}

/// Setting the target of a symbolic link makes it read back as that target.
pub proof fn lemma_writelink_then_readlink(v: FsView, ino: int, stat: Stat, target: Seq<u8>)
    requires
        link_target(v, ino) is Some,
    ensures
        link_target(v.update(ino, Some(NodeView { stat, content: ContentView::Link(target) })), ino)
            == Some(target),
{
}

/// A created node is found at the inode it was given, with its status.
pub proof fn lemma_create_then_stat(v: FsView, i: int, n: NodeView)
    requires
        is_first_free(v, i),
    ensures
        node_at(place_node(v, i, n), i) == Some(n),
{
}

proof fn lemma_lookup_is_first(s: Seq<SlotView>, name: Seq<u8>, i: int)
    requires
        is_first_named(s, name, i),
    ensures
        lookup_slots(s, name) == Some(slot_node(s[i])),
{
    assert forall|k: int| is_first_named(s, name, k) implies k == i by {
        lemma_first_named_unique(s, name, k, i);
    }
}

proof fn lemma_lookup_set_inode(s: Seq<SlotView>, name: Seq<u8>, node: INode)
    requires
        lookup_slots(s, name) is Some,
    ensures
        lookup_slots(set_inode_slots(s, name, node), name) == Some(node),
{
    let i = choose|i: int| is_first_named(s, name, i);
    let t = set_inode_slots(s, name, node);
    assert(is_first_named(t, name, i));
    lemma_lookup_is_first(t, name, i);
}

proof fn lemma_lookup_same_names(s: Seq<SlotView>, t: Seq<SlotView>, name: Seq<u8>)
    requires
        forall|j: int| 0 <= j < t.len() ==> (slot_named(#[trigger] t[j], name) <==> (j < s.len() && slot_named(s[j], name))),
        forall|j: int| 0 <= j < t.len() && slot_named(#[trigger] t[j], name) ==> t[j] == s[j],
        forall|j: int| 0 <= j < s.len() && slot_named(#[trigger] s[j], name) ==> j < t.len(),
    ensures
        lookup_slots(t, name) == lookup_slots(s, name),
{
    if exists|i: int| is_first_named(s, name, i) {
        let i = choose|i: int| is_first_named(s, name, i);
        assert(is_first_named(t, name, i));
        lemma_lookup_is_first(t, name, i);
        lemma_lookup_is_first(s, name, i);
    } else {
        lemma_lookup_none(s, name);
        assert(no_slot_named(t, name));
        lemma_lookup_none(t, name);
    }
}

proof fn lemma_lookup_other(s: Seq<SlotView>, a: Seq<u8>, b: Seq<u8>, node: INode)
    requires
        a != b,
    ensures
        lookup_slots(remove_slots(s, a), b) == lookup_slots(s, b),
        lookup_slots(set_inode_slots(s, a, node), b) == lookup_slots(s, b),
        lookup_slots(insert_slots(s, (a, node)), b) == lookup_slots(s, b),
{
    lemma_lookup_same_names(s, remove_slots(s, a), b);
    lemma_lookup_same_names(s, set_inode_slots(s, a, node), b);
    lemma_lookup_same_names(s, insert_slots(s, (a, node)), b);
}

proof fn lemma_single_other(s: Seq<SlotView>, a: Seq<u8>, b: Seq<u8>, node: INode)
    requires
        a != b,
        single_name(s, b),
    ensures
        single_name(set_inode_slots(s, a, node), b),
        single_name(insert_slots(s, (a, node)), b),
{
    let t = set_inode_slots(s, a, node);
    assert forall|i: int, j: int|
        0 <= i < t.len() && 0 <= j < t.len() && #[trigger] slot_named(t[i], b)
            && #[trigger] slot_named(t[j], b) implies i == j by {
        assert(slot_named(s[i], b) && slot_named(s[j], b));
    }
    let u = insert_slots(s, (a, node));
    assert forall|i: int, j: int|
        0 <= i < u.len() && 0 <= j < u.len() && #[trigger] slot_named(u[i], b)
            && #[trigger] slot_named(u[j], b) implies i == j by {
        assert(slot_named(s[i], b) && slot_named(s[j], b));
    }
}

/// A rename that succeeds without [`RENAME_EXCHANGE`] leaves the destination entry pointing to
/// the moved node, and, if the source name appeared once in its directory and differs from the
/// destination, no entry of the source name in the source directory.
pub proof fn lemma_rename_moves(
    v: FsView,
    old_parent: INode,
    old_name: Seq<u8>,
    new_parent: INode,
    new_name: Seq<u8>,
    flags: i32,
)
    requires
        slots_at(v, old_parent as int) is Some,
        slots_at(v, new_parent as int) is Some,
        rename_fits(v, old_parent, old_name, new_parent, new_name),
        flags & RENAME_EXCHANGE == 0,
        rename_result(v, old_parent, old_name, new_parent, new_name, flags).0 is Ok,
    ensures
        ({
            let w = rename_result(v, old_parent, old_name, new_parent, new_name, flags).1;
            let o = lookup_slots(slots_at(v, old_parent as int)->0, old_name)->0;
            &&& slots_at(w, new_parent as int) matches Some(s) && lookup_slots(s, new_name) == Some(o)
            &&& single_name(slots_at(v, old_parent as int)->0, old_name) && (old_parent != new_parent
                || old_name != new_name) ==> (slots_at(w, old_parent as int) matches Some(s)
                && lookup_slots(s, old_name) is None)
        }),
{
    lemma_frame(v, 0);
    let so = slots_at(v, old_parent as int)->0;
    let sn = slots_at(v, new_parent as int)->0;
    let o = lookup_slots(so, old_name)->0;
    if old_parent == new_parent && old_name == new_name {
        assert(lookup_slots(sn, new_name) == Some(o));
    }
    let va = match lookup_slots(sn, new_name) {
        Some(prev) => with_slots(v, new_parent as int, set_inode_slots(sn, new_name, o)),
        None => with_slots(v, new_parent as int, insert_slots(sn, (new_name, o))),
    };
    lemma_frame(va, 0);
    match lookup_slots(sn, new_name) {
        Some(prev) => {
            lemma_lookup_set_inode(sn, new_name, o);
            let vb = with_nlink(va, prev as int, saturating_dec(nlink_at(va, prev as int)));
            lemma_frame(vb, 0);
            let sa = slots_at(vb, old_parent as int)->0;
            if old_parent == new_parent {
                lemma_lookup_other(set_inode_slots(sn, new_name, o), old_name, new_name, o);
                if single_name(so, old_name) {
                    lemma_single_other(sn, new_name, old_name, o);
                    lemma_remove_then_lookup(sa, old_name);
                }
            } else if single_name(so, old_name) {
                lemma_remove_then_lookup(sa, old_name);
            }
            let v1 = with_slots(vb, old_parent as int, remove_slots(sa, old_name));
            lemma_frame(v1, 0);
            if slots_at(v1, o as int) is Some {
                let v2 = with_slots(
                    v1,
                    o as int,
                    set_inode_slots(slots_at(v1, o as int)->0, dotdot_name(), new_parent),
                );
                lemma_frame(v2, 0);
            }
        },
        None => {
            lemma_insert_then_lookup(sn, new_name, o);
            let sa = slots_at(va, old_parent as int)->0;
            if old_parent == new_parent {
                lemma_lookup_other(insert_slots(sn, (new_name, o)), old_name, new_name, o);
                if single_name(so, old_name) {
                    lemma_single_other(sn, new_name, old_name, o);
                    lemma_remove_then_lookup(sa, old_name);
                }
            } else if single_name(so, old_name) {
                lemma_remove_then_lookup(sa, old_name);
            }
            let v1 = with_slots(va, old_parent as int, remove_slots(sa, old_name));
            lemma_frame(v1, 0);
            if slots_at(v1, o as int) is Some {
                let v2 = with_slots(
                    v1,
                    o as int,
                    set_inode_slots(slots_at(v1, o as int)->0, dotdot_name(), new_parent),
                );
                lemma_frame(v2, 0);
            }
        },
    }
}


/// The tmpfs filesystem type.
pub struct TmpFsType;

impl TmpFsType {
    /// The name of the filesystem type.
    pub fn get_name(&self) -> (n: &'static [u8])
        ensures
            n@ == "tmpfs".spec_bytes(),
    {
        "tmpfs".as_bytes()
    }

    /// A tmpfs is never detected on a device: the function returns `false`.
    pub fn detect(&self) -> (r: Result<bool, Errno>)
        ensures
            r == Ok::<bool, Errno>(false),
    {
        Ok(false)
    }

    /// Creates a tmpfs, read-only if `readonly` is set, holding only its root directory: see
    /// [`TmpFS::load_filesystem`].
    pub fn load_filesystem(&self, readonly: bool) -> (r: Result<TmpFS, Errno>)
        ensures
            r matches Ok(fs) && fs.wf() && fs.is_readonly() == readonly && fs@ == seq![
                Some(NodeView { stat: root_stat(), content: ContentView::Directory(root_slots()) }),
            ],
    {
        Ok(TmpFS::load_filesystem(readonly))
    }
}


/// A change of the status of a node: the fields to set, where they are given.
#[derive(Clone, Copy, Debug)]
pub struct StatSet {
    /// The new permissions, of which only the permission bits are used.
    pub mode: Option<Mode>,
    /// The new owner user ID.
    pub uid: Option<Uid>,
    /// The new owner group ID.
    pub gid: Option<Gid>,
    /// The new timestamp of the last modification of the metadata.
    pub ctime: Option<u64>,
    /// The new timestamp of the last modification of the content.
    pub mtime: Option<u64>,
    /// The new timestamp of the last access.
    pub atime: Option<u64>,
}

/// The status `st` after the change `set`: the given fields are set, the permission bits of
/// the mode only, keeping its file type.
pub open spec fn apply_stat_set(st: Stat, set: StatSet) -> Stat {
    Stat {
        mode: match set.mode {
            Some(m) => (st.mode & !0o7777u32) | (m & 0o7777u32),
            None => st.mode,
        },
        uid: match set.uid {
            Some(u) => u,
            None => st.uid,
        },
        gid: match set.gid {
            Some(g) => g,
            None => st.gid,
        },
        ctime: match set.ctime {
            Some(t) => t,
            None => st.ctime,
        },
        mtime: match set.mtime {
            Some(t) => t,
            None => st.mtime,
        },
        atime: match set.atime {
            Some(t) => t,
            None => st.atime,
        },
        ..st
    }
}

/// Returns the status `st` after the change `set`: see [`apply_stat_set`].
pub fn stat_after_set(st: Stat, set: &StatSet) -> (r: Stat)
    ensures
        r == apply_stat_set(st, *set),
        type_of_mode(r.mode) == type_of_mode(st.mode),
{
    let mut r = st;
    if let Some(mode) = set.mode {
        r.mode = (st.mode & !0o7777u32) | (mode & 0o7777u32);
        let old_mode = st.mode;
        assert(((old_mode & !0o7777u32) | (mode & 0o7777u32)) & 0o770000u32 == old_mode & 0o770000u32)
            by (bit_vector);
    }
    if let Some(uid) = set.uid {
        r.uid = uid;
    }
    if let Some(gid) = set.gid {
        r.gid = gid;
    }
    if let Some(t) = set.ctime {
        r.ctime = t;
    }
    if let Some(t) = set.mtime {
        r.mtime = t;
    }
    if let Some(t) = set.atime {
        r.atime = t;
    }
    r
}

impl TmpFS {
    /// Changes the status of the node `ino` with `set`: see [`apply_stat_set`].
    ///
    /// If the node does not exist, the function returns [`Errno::ENOENT`].
    pub fn set_stat(&mut self, ino: INode, set: &StatSet) -> (r: Result<(), Errno>)
        requires
            old(self).wf(),
        ensures
            final(self).wf(),
            final(self).is_readonly() == old(self).is_readonly(),
            match node_at(old(self)@, ino as int) {
                None => r == Err::<(), Errno>(Errno::ENOENT) && final(self)@ == old(self)@,
                Some(n) => r is Ok && final(self)@ == old(self)@.update(
                    ino as int,
                    Some(NodeView { stat: apply_stat_set(n.stat, *set), content: n.content }),
                ),
            },
    {
        let i = match self.index_of(ino) {
            Some(i) => i,
            None => {
                return Err(Errno::ENOENT);
            },
        };
        let ghost v0 = self@;
        match &mut self.nodes[i] {
            Some(n) => {
                let st = stat_after_set(n.stat, set);
                n.stat = st;
            },
            None => {},
        }
        proof {
            let n0 = v0[i as int]->0;
            assert(self@ =~= v0.update(
                i as int,
                Some(NodeView { stat: apply_stat_set(n0.stat, *set), content: n0.content }),
            ));
            assert forall|j: int| 0 <= j < self.nodes@.len() implies (#[trigger] self.nodes@[j] matches Some(n)
                ==> n.wf()) by {
                if j != i {
                    assert(self.nodes@[j] == old(self).nodes@[j]);
                }
            }
        }
        Ok(())
    }
}

} // verus!
