use dashmap::DashMap;
use vstd::prelude::*;

verus! {

/// A handle table: open file handle to inode.
pub type HandleMap = DashMap<u64, u64>;

/// The contents of a handle table: open file handle to inode.
pub uninterp spec fn handle_table(m: DashMap<u64, u64>) -> Map<u64, u64>;

/// Calls `DashMap::new`. Claimed: the new map is empty.
#[verifier::external_body]
fn handle_table_new() -> (table: HandleMap)
    ensures
        handle_table(table) =~= Map::empty(),
{
    DashMap::new()
}

/// Calls `DashMap::insert`, dropping the replaced value. Claimed: the key
/// now maps to the value and every other entry is unchanged.
#[verifier::external_body]
fn handle_table_insert(m: &mut DashMap<u64, u64>, key: u64, value: u64)
    ensures
        handle_table(*final(m)) == handle_table(*old(m)).insert(key, value),
{
    m.insert(key, value);
}

/// Calls `DashMap::get` and copies the value out of the returned guard.
/// Claimed: the result is the key's value, or `None` if the key is absent.
#[verifier::external_body]
fn handle_table_get(m: &DashMap<u64, u64>, key: u64) -> (r: Option<u64>)
    ensures
        match r {
            Some(v) => handle_table(*m).contains_key(key) && handle_table(*m)[key] == v,
            None => !handle_table(*m).contains_key(key),
        },
{
    match m.get(&key) {
        Some(entry) => Some(*entry.value()),
        None => None,
    }
}

/// Calls `DashMap::remove`, dropping the removed entry. Claimed: the key is
/// gone and every other entry is unchanged.
#[verifier::external_body]
fn handle_table_remove(m: &mut DashMap<u64, u64>, key: u64)
    ensures
        handle_table(*final(m)) == handle_table(*old(m)).remove(key),
{
    m.remove(&key);
}

/// The abstract state of a handle manager.
pub struct HandleManagerView {
    pub next: u64,
    pub handles: Map<u64, u64>,
}

impl HandleManagerView {
    /// Every open handle lies in `1..next`: below every handle still to
    /// be handed out.
    pub open spec fn wf(self) -> bool {
        forall|k: u64| #[trigger] self.handles.contains_key(k) ==> 1 <= k < self.next
    }
}

/// Hands out file handles and remembers which inode each one is open on.
pub struct HandleManager {
    next_handle: u64,
    handles: DashMap<u64, u64>,
}

impl View for HandleManager {
    type V = HandleManagerView;

    closed spec fn view(&self) -> HandleManagerView {
        HandleManagerView { next: self.next_handle, handles: handle_table(self.handles) }
    }
}

impl HandleManager {
    /// No handles open; the first handle handed out will be 1.
    pub fn new() -> (h: Self)
        ensures
            h@.next == 1,
            h@.handles == Map::<u64, u64>::empty(),
            h@.wf(),
    {
        Self { next_handle: 1, handles: handle_table_new() }
    }

    /// Opens a new handle on `inode`: the next handle number (which then
    /// moves up by one, wrapping at `u64::MAX`), now mapped to `inode`. In a
    /// well-formed manager the handle is not open already.
    pub fn alloc_handle(&mut self, inode: u64) -> (handle: u64)
        ensures
            alloc_handle_post(old(self)@, inode, final(self)@, handle),
            final(self)@.handles.contains_key(handle) && final(self)@.handles[handle] == inode,
            forall|k: u64|
                k != handle ==> (#[trigger] final(self)@.handles.contains_key(k) == old(self)@.handles.contains_key(k)
                    && (old(self)@.handles.contains_key(k) ==> final(self)@.handles[k] == old(self)@.handles[k])),
            old(self)@.wf() ==> !old(self)@.handles.contains_key(handle),
            old(self)@.wf() && 1 <= old(self)@.next < u64::MAX ==> final(self)@.wf(),
    {
        let handle = self.next_handle;
        self.next_handle = self.next_handle.wrapping_add(1);
        handle_table_insert(&mut self.handles, handle, inode);
        proof {
            if old(self)@.wf() && 1 <= old(self)@.next < u64::MAX {
                assert forall|k: u64| #[trigger] self@.handles.contains_key(k) implies 1 <= k < self@.next by {
                    if k != handle {
                        assert(old(self)@.handles.contains_key(k));
                    }
                }
            }
        }
        handle
    }

    /// The inode that `handle` is open on, if it is open.
    pub fn get_inode(&self, handle: u64) -> (r: Option<u64>)
        ensures
            match r {
                Some(ino) => self@.handles.contains_key(handle) && self@.handles[handle] == ino,
                None => !self@.handles.contains_key(handle),
            },
    {
        handle_table_get(&self.handles, handle)
    }

    /// Closes `handle`; other handles are untouched.
    pub fn release_handle(&mut self, handle: u64)
        ensures
            final(self)@.next == old(self)@.next,
            final(self)@.handles == old(self)@.handles.remove(handle),
            old(self)@.wf() ==> final(self)@.wf(),
    {
        handle_table_remove(&mut self.handles, handle);
    }
}

/// The state after opening a handle on `inode`, and the handle handed out.
pub open spec fn alloc_handle_post(pre: HandleManagerView, inode: u64, post: HandleManagerView, handle: u64) -> bool {
    &&& handle == pre.next
    &&& post.next == pre.next.wrapping_add(1)
    &&& post.handles == pre.handles.insert(handle, inode)
}

/// Opening a handle leaves every other handle as it was: open on the same
/// inode if it was open, closed if it was not.
pub proof fn lemma_open_keeps_other_handles(pre: HandleManagerView, inode: u64, post: HandleManagerView, handle: u64, k: u64)
    requires
        alloc_handle_post(pre, inode, post, handle),
        k != handle,
    ensures
        post.handles.contains_key(k) == pre.handles.contains_key(k),
        pre.handles.contains_key(k) ==> post.handles[k] == pre.handles[k],
{
}

/// A handle just opened resolves to the inode it was opened on.
pub proof fn lemma_get_after_alloc(pre: HandleManagerView, inode: u64, post: HandleManagerView, handle: u64)
    requires
        alloc_handle_post(pre, inode, post, handle),
    ensures
        post.handles.contains_key(handle),
        post.handles[handle] == inode,
{
}

/// Two handles opened one after the other are different.
pub proof fn lemma_consecutive_handles_differ(
    s0: HandleManagerView,
    s1: HandleManagerView,
    s2: HandleManagerView,
    i1: u64,
    i2: u64,
    h1: u64,
    h2: u64,
)
    requires
        alloc_handle_post(s0, i1, s1, h1),
        alloc_handle_post(s1, i2, s2, h2),
    ensures
        h1 != h2,
{
}

/// A released handle no longer resolves; other handles are unaffected.
pub proof fn lemma_get_after_release(pre: HandleManagerView, handle: u64, other: u64)
    requires
        other != handle,
    ensures
        !pre.handles.remove(handle).contains_key(handle),
        pre.handles.remove(handle).contains_key(other) == pre.handles.contains_key(other),
{
}

/// One call on a handle manager: opening a handle on an inode (with the
/// handle it gave), or releasing a handle.
pub enum HandleStep {
    Open { inode: u64, handle: u64 },
    Release { handle: u64 },
}

/// `post` is what `step` makes of `pre`.
pub open spec fn handle_step(pre: HandleManagerView, step: HandleStep, post: HandleManagerView) -> bool {
    match step {
        HandleStep::Open { inode, handle } => alloc_handle_post(pre, inode, post, handle),
        HandleStep::Release { handle } => post.next == pre.next && post.handles == pre.handles.remove(handle),
    }
}

/// `states` is a run of `steps` from `states[0]`, with no handle counter
/// reaching `u64::MAX`.
pub open spec fn handle_run(states: Seq<HandleManagerView>, steps: Seq<HandleStep>) -> bool {
    &&& states.len() == steps.len() + 1
    &&& forall|k: int| 0 <= k < steps.len() ==> handle_step(states[k], #[trigger] steps[k], states[k + 1])
    &&& forall|k: int| 0 <= k < states.len() ==> #[trigger] states[k].next < u64::MAX
}

proof fn lemma_handle_counter_grows(states: Seq<HandleManagerView>, steps: Seq<HandleStep>, i: int, j: int)
    requires
        handle_run(states, steps),
        0 <= i <= j < states.len(),
    ensures
        states[i].next <= states[j].next,
        i < j && steps[i] is Open ==> states[i].next < states[j].next,
    decreases j - i,
{
    if i < j {
        lemma_handle_counter_grows(states, steps, i + 1, j);
        assert(handle_step(states[i], steps[i], states[i + 1]));
        assert(states[i].next < u64::MAX);
    }
}

/// Over any run of opens and releases that starts from a manager whose next
/// handle is at least 1 (as `new` gives) and whose counter does not wrap,
/// every handle opened is at least 1 and differs from every handle opened
/// before it, released ones included.
pub proof fn lemma_handles_never_reissued(
    states: Seq<HandleManagerView>,
    steps: Seq<HandleStep>,
    i: int,
    j: int,
)
    requires
        handle_run(states, steps),
        states[0].next >= 1,
        0 <= i < j < steps.len(),
        steps[i] is Open,
        steps[j] is Open,
    ensures
        steps[i]->Open_handle >= 1,
        steps[i]->Open_handle != steps[j]->Open_handle,
{
    lemma_handle_counter_grows(states, steps, 0, i);
    lemma_handle_counter_grows(states, steps, i, j);
    assert(handle_step(states[i], steps[i], states[i + 1]));
    assert(handle_step(states[j], steps[j], states[j + 1]));
}

} // verus!
