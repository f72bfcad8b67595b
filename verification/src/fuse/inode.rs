use crate::fuse::convert::FuseFileType;
use dashmap::DashMap;
use vstd::prelude::*;

verus! {

/// `fuse3::Errno`, the error code a FUSE operation answers with. Opaque:
/// this layer only carries it.
#[verifier::external_type_specification]
#[verifier::external_body]
pub struct ExErrno(fuse3::Errno);

/// What the filesystem records about one inode.
#[derive(Clone)]
pub struct InodeInfo {
    pub ino: u64,
    pub parent: u64,
    pub name: String,
    pub kind: FuseFileType,
    pub size: u64,
    pub mode: u16,
}

/// An inode record with its name taken as a character sequence.
pub struct InodeInfoView {
    pub ino: u64,
    pub parent: u64,
    pub name: Seq<char>,
    pub kind: FuseFileType,
    pub size: u64,
    pub mode: u16,
}

impl View for InodeInfo {
    type V = InodeInfoView;

    open spec fn view(&self) -> InodeInfoView {
        InodeInfoView {
            ino: self.ino,
            parent: self.parent,
            name: self.name@,
            kind: self.kind,
            size: self.size,
            mode: self.mode,
        }
    }
}

/// The inode table: inode number to inode record.
pub type InodeMap = DashMap<u64, InodeInfo>;

/// The name table: (parent inode, entry name) to inode number.
pub type NameMap = DashMap<(u64, String), u64>;

/// The contents of an inode table.
pub uninterp spec fn inode_table(m: InodeMap) -> Map<u64, InodeInfoView>;

/// The contents of a name table, each name taken as a character sequence.
pub uninterp spec fn name_table(m: NameMap) -> Map<(u64, Seq<char>), u64>;

/// Calls `DashMap::new`. Claimed: the new map is empty.
#[verifier::external_body]
fn inode_table_new() -> (table: InodeMap)
    ensures
        inode_table(table) =~= Map::empty(),
{
    DashMap::new()
}

/// Calls `DashMap::insert`, dropping the replaced value. Claimed: the key
/// now maps to the record and every other entry is unchanged.
#[verifier::external_body]
fn inode_table_insert(m: &mut InodeMap, ino: u64, info: InodeInfo)
    ensures
        inode_table(*final(m)) == inode_table(*old(m)).insert(ino, info@),
{
    m.insert(ino, info);
}

/// Calls `DashMap::get` and clones the record out of the returned guard.
/// Claimed: the result is the key's record, or `None` if it is absent.
#[verifier::external_body]
fn inode_table_get(m: &InodeMap, ino: u64) -> (r: Option<InodeInfo>)
    ensures
        match r {
            Some(info) => inode_table(*m).contains_key(ino) && inode_table(*m)[ino] == info@,
            None => !inode_table(*m).contains_key(ino),
        },
{
    match m.get(&ino) {
        Some(entry) => Some(entry.value().clone()),
        None => None,
    }
}

/// Calls `DashMap::remove`, dropping the removed entry. Claimed: the key is
/// gone and every other entry is unchanged.
#[verifier::external_body]
fn inode_table_remove(m: &mut InodeMap, ino: u64)
    ensures
        inode_table(*final(m)) == inode_table(*old(m)).remove(ino),
{
    m.remove(&ino);
}

/// Calls `DashMap::new`. Claimed: the new map is empty.
#[verifier::external_body]
fn name_table_new() -> (table: NameMap)
    ensures
        name_table(table) =~= Map::empty(),
{
    DashMap::new()
}

/// Calls `DashMap::insert` with the key `(parent, name)`, dropping the
/// replaced value. Claimed: that key, names compared by their characters,
/// now maps to `ino`, and every other entry is unchanged.
#[verifier::external_body]
fn name_table_insert(m: &mut NameMap, parent: u64, name: String, ino: u64)
    ensures
        name_table(*final(m)) == name_table(*old(m)).insert((parent, name@), ino),
{
    m.insert((parent, name), ino);
}

/// Calls `DashMap::get` with the key `(parent, name)` and copies the value
/// out of the returned guard. Claimed: the result is that key's inode
/// number, or `None` if the key is absent.
#[verifier::external_body]
fn name_table_get(m: &NameMap, parent: u64, name: &str) -> (r: Option<u64>)
    ensures
        match r {
            Some(ino) => name_table(*m).contains_key((parent, name@)) && name_table(*m)[(parent, name@)] == ino,
            None => !name_table(*m).contains_key((parent, name@)),
        },
{
    match m.get(&(parent, name.to_string())) {
        Some(entry) => Some(*entry.value()),
        None => None,
    }
}

/// Calls `DashMap::remove` with the key `(parent, name)`. Claimed: the key
/// is gone, every other entry is unchanged, and the result is the value
/// the key had, or `None` if it was absent.
#[verifier::external_body]
fn name_table_remove(m: &mut NameMap, parent: u64, name: &str) -> (r: Option<u64>)
    ensures
        name_table(*final(m)) == name_table(*old(m)).remove((parent, name@)),
        match r {
            Some(ino) => name_table(*old(m)).contains_key((parent, name@)) && name_table(*old(m))[(parent, name@)] == ino,
            None => !name_table(*old(m)).contains_key((parent, name@)),
        },
{
    match m.remove(&(parent, name.to_string())) {
        Some((_, ino)) => Some(ino),
        None => None,
    }
}

/// The inode number of the filesystem root.
pub const ROOT_INODE: u64 = 1;

/// The permission bits of the root directory.
pub const ROOT_MODE: u16 = 0o755;

/// The record of the root directory: its own parent, with an empty name.
pub open spec fn root_info() -> InodeInfoView {
    InodeInfoView {
        ino: ROOT_INODE,
        parent: ROOT_INODE,
        name: Seq::empty(),
        kind: FuseFileType::Directory,
        size: 0,
        mode: ROOT_MODE,
    }
}

/// The abstract state of an inode manager.
pub struct InodeManagerView {
    pub next: u64,
    pub inodes: Map<u64, InodeInfoView>,
    pub names: Map<(u64, Seq<char>), u64>,
}

impl InodeManagerView {
    /// Every recorded inode number lies below the next number to hand out,
    /// so handing that number out cannot collide with a recorded inode.
    pub open spec fn wf(self) -> bool {
        forall|k: u64| #[trigger] self.inodes.contains_key(k) ==> k < self.next
    }
}

/// Hands out inode numbers and keeps the inode and name tables.
pub struct InodeManager {
    next_inode: u64,
    inodes: InodeMap,
    name_to_inode: NameMap,
}

impl View for InodeManager {
    type V = InodeManagerView;

    closed spec fn view(&self) -> InodeManagerView {
        InodeManagerView {
            next: self.next_inode,
            inodes: inode_table(self.inodes),
            names: name_table(self.name_to_inode),
        }
    }
}

impl InodeManager {
    /// A filesystem holding only its root directory; the next inode number
    /// handed out is the one after the root's.
    pub fn new() -> (m: Self)
        ensures
            m@.next == ROOT_INODE + 1,
            m@.wf(),
            m@.inodes == map![ROOT_INODE => root_info()],
            m@.names == Map::<(u64, Seq<char>), u64>::empty(),
    {
        let mut inodes = inode_table_new();
        let root = InodeInfo {
            ino: ROOT_INODE,
            parent: ROOT_INODE,
            name: String::new(),
            kind: FuseFileType::Directory,
            size: 0,
            mode: ROOT_MODE,
        };
        inode_table_insert(&mut inodes, ROOT_INODE, root);
        let m = Self { next_inode: ROOT_INODE + 1, inodes, name_to_inode: name_table_new() };
        assert(m@.inodes =~= map![ROOT_INODE => root_info()]);
        m
    }

    /// Takes the next inode number (which then moves up by one, wrapping at
    /// `u64::MAX`). The number is not entered in any table; in a
    /// well-formed manager no inode holds it yet.
    pub fn alloc_inode(&mut self) -> (ino: u64)
        ensures
            ino == old(self)@.next,
            final(self)@.next == old(self)@.next.wrapping_add(1),
            final(self)@.inodes == old(self)@.inodes,
            final(self)@.names == old(self)@.names,
            old(self)@.wf() ==> !old(self)@.inodes.contains_key(ino),
            old(self)@.wf() && old(self)@.next < u64::MAX ==> final(self)@.wf(),
    {
        let ino = self.next_inode;
        self.next_inode = self.next_inode.wrapping_add(1);
        ino
    }

    /// The record of inode `ino`, if there is one.
    pub fn get_inode(&self, ino: u64) -> (r: Option<InodeInfo>)
        ensures
            match r {
                Some(info) => self@.inodes.contains_key(ino) && self@.inodes[ino] == info@,
                None => !self@.inodes.contains_key(ino),
            },
    {
        inode_table_get(&self.inodes, ino)
    }

    /// The inode that the entry `name` of directory `parent` names, if any.
    pub fn lookup(&self, parent: u64, name: &str) -> (r: Option<u64>)
        ensures
            match r {
                Some(ino) => self@.names.contains_key((parent, name@)) && self@.names[(parent, name@)] == ino,
                None => !self@.names.contains_key((parent, name@)),
            },
    {
        name_table_get(&self.name_to_inode, parent, name)
    }

    /// Records `info` under its inode number and enters it as `name` in
    /// directory `parent`, replacing what was there. Always succeeds.
    pub fn add_inode(&mut self, parent: u64, name: String, info: InodeInfo) -> (r: Result<(), fuse3::Errno>)
        ensures
            r is Ok,
            final(self)@ == add_inode_post(old(self)@, parent, name@, info@),
            final(self)@.next == old(self)@.next,
            final(self)@.inodes.contains_key(info.ino) && final(self)@.inodes[info.ino] == info@,
            final(self)@.names.contains_key((parent, name@)) && final(self)@.names[(parent, name@)] == info.ino,
            forall|x: u64|
                x != info.ino ==> (#[trigger] final(self)@.inodes.contains_key(x) == old(self)@.inodes.contains_key(x)
                    && (old(self)@.inodes.contains_key(x) ==> final(self)@.inodes[x] == old(self)@.inodes[x])),
            old(self)@.wf() && info.ino < old(self)@.next ==> final(self)@.wf(),
    {
        let ino = info.ino;
        inode_table_insert(&mut self.inodes, ino, info);
        name_table_insert(&mut self.name_to_inode, parent, name, ino);
        proof {
            if old(self)@.wf() && ino < old(self)@.next {
                assert forall|k: u64| #[trigger] self@.inodes.contains_key(k) implies k < self@.next by {
                    if k != ino {
                        assert(old(self)@.inodes.contains_key(k));
                    }
                }
            }
        }
        Ok(())
    }

    /// Removes the entry `name` of directory `parent` and the record of the
    /// inode it named; nothing changes if there is no such entry. Always
    /// succeeds.
    pub fn remove_inode(&mut self, parent: u64, name: &str) -> (r: Result<(), fuse3::Errno>)
        ensures
            r is Ok,
            final(self)@ == remove_inode_post(old(self)@, parent, name@),
            !old(self)@.names.contains_key((parent, name@)) ==> final(self)@ == old(self)@,
            forall|x: u64|
                !(old(self)@.names.contains_key((parent, name@)) && x == old(self)@.names[(parent, name@)])
                    ==> (#[trigger] final(self)@.inodes.contains_key(x) == old(self)@.inodes.contains_key(x)
                    && (old(self)@.inodes.contains_key(x) ==> final(self)@.inodes[x] == old(self)@.inodes[x])),
            old(self)@.wf() ==> final(self)@.wf(),
    {
        match name_table_remove(&mut self.name_to_inode, parent, name) {
            Some(ino) => {
                inode_table_remove(&mut self.inodes, ino);
            },
            None => {
                assert(name_table(self.name_to_inode) =~= name_table(old(self).name_to_inode));
            },
        }
        Ok(())
    }
}

/// The state after entering `info` as `name` in directory `parent`.
pub open spec fn add_inode_post(
    pre: InodeManagerView,
    parent: u64,
    name: Seq<char>,
    info: InodeInfoView,
) -> InodeManagerView {
    InodeManagerView {
        next: pre.next,
        inodes: pre.inodes.insert(info.ino, info),
        names: pre.names.insert((parent, name), info.ino),
    }
}

/// The state after removing the entry `name` of directory `parent`, and the
/// record of the inode it named.
pub open spec fn remove_inode_post(pre: InodeManagerView, parent: u64, name: Seq<char>) -> InodeManagerView {
    if pre.names.contains_key((parent, name)) {
        InodeManagerView {
            next: pre.next,
            inodes: pre.inodes.remove(pre.names[(parent, name)]),
            names: pre.names.remove((parent, name)),
        }
    } else {
        pre
    }
}

/// After an inode is entered under a name, looking the name up finds that
/// inode, and the inode's record is the one entered.
pub proof fn lemma_lookup_after_add(pre: InodeManagerView, parent: u64, name: Seq<char>, info: InodeInfoView)
    ensures
        add_inode_post(pre, parent, name, info).names.contains_key((parent, name)),
        add_inode_post(pre, parent, name, info).names[(parent, name)] == info.ino,
        add_inode_post(pre, parent, name, info).inodes.contains_key(info.ino),
        add_inode_post(pre, parent, name, info).inodes[info.ino] == info,
{
}

/// Entering an inode keeps the counter and touches no other inode record
/// and no other name.
pub proof fn lemma_add_touches_only_its_entry(
    pre: InodeManagerView,
    parent: u64,
    name: Seq<char>,
    info: InodeInfoView,
    x: u64,
    key: (u64, Seq<char>),
)
    ensures
        add_inode_post(pre, parent, name, info).next == pre.next,
        x != info.ino ==> {
            &&& add_inode_post(pre, parent, name, info).inodes.contains_key(x) == pre.inodes.contains_key(x)
            &&& pre.inodes.contains_key(x) ==> add_inode_post(pre, parent, name, info).inodes[x] == pre.inodes[x]
        },
        key != (parent, name) ==> {
            &&& add_inode_post(pre, parent, name, info).names.contains_key(key) == pre.names.contains_key(key)
            &&& pre.names.contains_key(key) ==> add_inode_post(pre, parent, name, info).names[key] == pre.names[key]
        },
{
}

/// After an entry is removed, looking its name up finds nothing, and the
/// inode it named has no record any more.
pub proof fn lemma_lookup_after_remove(pre: InodeManagerView, parent: u64, name: Seq<char>)
    ensures
        !remove_inode_post(pre, parent, name).names.contains_key((parent, name)),
        pre.names.contains_key((parent, name)) ==> !remove_inode_post(pre, parent, name).inodes.contains_key(
            pre.names[(parent, name)],
        ),
{
}

/// Removing a name that is not entered changes nothing; removing one that
/// is touches no inode record but the one it named and no entry but its
/// own, and keeps the counter.
pub proof fn lemma_remove_touches_only_its_entry(pre: InodeManagerView, parent: u64, name: Seq<char>, x: u64, key: (u64, Seq<char>))
    ensures
        !pre.names.contains_key((parent, name)) ==> remove_inode_post(pre, parent, name) == pre,
        remove_inode_post(pre, parent, name).next == pre.next,
        !(pre.names.contains_key((parent, name)) && x == pre.names[(parent, name)]) ==> {
            &&& remove_inode_post(pre, parent, name).inodes.contains_key(x) == pre.inodes.contains_key(x)
            &&& pre.inodes.contains_key(x) ==> remove_inode_post(pre, parent, name).inodes[x] == pre.inodes[x]
        },
        key != (parent, name) ==> {
            &&& remove_inode_post(pre, parent, name).names.contains_key(key) == pre.names.contains_key(key)
            &&& pre.names.contains_key(key) ==> remove_inode_post(pre, parent, name).names[key] == pre.names[key]
        },
{
}

/// Entering a name and then removing it again leaves the name table as it
/// was, when the name was not entered before.
pub proof fn lemma_remove_undoes_add(pre: InodeManagerView, parent: u64, name: Seq<char>, info: InodeInfoView)
    requires
        !pre.names.contains_key((parent, name)),
        !pre.inodes.contains_key(info.ino),
    ensures
        remove_inode_post(add_inode_post(pre, parent, name, info), parent, name) == pre,
{
    let mid = add_inode_post(pre, parent, name, info);
    let post = remove_inode_post(mid, parent, name);
    assert(post.names =~= pre.names);
    assert(post.inodes =~= pre.inodes);
}

/// One call on an inode manager: taking an inode number (with the number it
/// gave), entering an inode record under a name in directory `parent`, or
/// removing an entry of directory `parent`.
pub enum InodeStep {
    Alloc { ino: u64 },
    Add { parent: u64, ino: u64 },
    Remove { parent: u64 },
}

/// `post` is what `step` makes of `pre`.
pub open spec fn inode_step(pre: InodeManagerView, step: InodeStep, post: InodeManagerView) -> bool {
    match step {
        InodeStep::Alloc { ino } => {
            &&& ino == pre.next
            &&& post.next == pre.next.wrapping_add(1)
            &&& post.inodes == pre.inodes
            &&& post.names == pre.names
        },
        InodeStep::Add { parent, ino } => exists|name: Seq<char>, info: InodeInfoView|
            info.ino == ino && post == #[trigger] add_inode_post(pre, parent, name, info),
        InodeStep::Remove { parent } => exists|name: Seq<char>|
            post == #[trigger] remove_inode_post(pre, parent, name),
    }
}

/// `states` is a run of `steps` from `states[0]`, with the inode counter
/// never reaching `u64::MAX`, in which every inode entered got its number
/// from an earlier `Alloc` step.
pub open spec fn inode_run(states: Seq<InodeManagerView>, steps: Seq<InodeStep>) -> bool {
    &&& states.len() == steps.len() + 1
    &&& forall|k: int| 0 <= k < steps.len() ==> inode_step(states[k], #[trigger] steps[k], states[k + 1])
    &&& forall|k: int| 0 <= k < states.len() ==> #[trigger] states[k].next < u64::MAX
    &&& forall|k: int|
        0 <= k < steps.len() && #[trigger] steps[k] is Add ==> exists|i: int|
            0 <= i < k && #[trigger] steps[i] == (InodeStep::Alloc { ino: steps[k]->Add_ino })
}

proof fn lemma_inode_counter_grows(states: Seq<InodeManagerView>, steps: Seq<InodeStep>, i: int, j: int)
    requires
        inode_run(states, steps),
        0 <= i <= j < states.len(),
    ensures
        states[i].next <= states[j].next,
        i < j && steps[i] is Alloc ==> states[i].next < states[j].next,
    decreases j - i,
{
    if i < j {
        lemma_inode_counter_grows(states, steps, i + 1, j);
        assert(inode_step(states[i], steps[i], states[i + 1]));
        assert(states[i].next < u64::MAX);
    }
}

proof fn lemma_inode_run_wf(states: Seq<InodeManagerView>, steps: Seq<InodeStep>, k: int)
    requires
        inode_run(states, steps),
        states[0].wf(),
        0 <= k < states.len(),
    ensures
        states[k].wf(),
    decreases k,
{
    if k > 0 {
        let pre = states[k - 1];
        let post = states[k];
        lemma_inode_run_wf(states, steps, k - 1);
        assert(inode_step(pre, steps[k - 1], post));
        match steps[k - 1] {
            InodeStep::Alloc { ino } => {
                assert forall|x: u64| #[trigger] post.inodes.contains_key(x) implies x < post.next by {
                    assert(pre.inodes.contains_key(x));
                }
            },
            InodeStep::Add { parent, ino } => {
                let (name, info) = choose|name: Seq<char>, info: InodeInfoView|
                    info.ino == ino && post == #[trigger] add_inode_post(pre, parent, name, info);
                assert(steps[k - 1] is Add);
                let i = choose|i: int| 0 <= i < k - 1 && #[trigger] steps[i] == (InodeStep::Alloc { ino: ino });
                assert(inode_step(states[i], steps[i], states[i + 1]));
                lemma_inode_counter_grows(states, steps, i, k - 1);
                assert forall|x: u64| #[trigger] post.inodes.contains_key(x) implies x < post.next by {
                    if x != ino {
                        assert(pre.inodes.contains_key(x));
                    }
                }
            },
            InodeStep::Remove { parent } => {
                let name = choose|name: Seq<char>| post == #[trigger] remove_inode_post(pre, parent, name);
                assert forall|x: u64| #[trigger] post.inodes.contains_key(x) implies x < post.next by {
                    assert(pre.inodes.contains_key(x));
                }
            },
        }
    }
}

/// Over any run from a well-formed manager (as `new` gives) in which every
/// inode entered got its number from an earlier allocation and the counter
/// does not wrap, each number handed out belongs to no recorded inode (the
/// root included) and is larger than every number handed out before it.
pub proof fn lemma_inode_numbers_fresh(states: Seq<InodeManagerView>, steps: Seq<InodeStep>, i: int, j: int)
    requires
        inode_run(states, steps),
        states[0].wf(),
        0 <= i < j < steps.len(),
        steps[i] is Alloc,
        steps[j] is Alloc,
    ensures
        !states[j].inodes.contains_key(steps[j]->Alloc_ino),
        steps[i]->Alloc_ino < steps[j]->Alloc_ino,
{
    lemma_inode_run_wf(states, steps, j);
    lemma_inode_counter_grows(states, steps, i, j);
    assert(inode_step(states[i], steps[i], states[i + 1]));
    assert(inode_step(states[j], steps[j], states[j + 1]));
}

} // verus!
