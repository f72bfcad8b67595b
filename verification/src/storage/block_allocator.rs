use crate::common::error::FfsError;
use std::collections::BTreeSet;
use vstd::prelude::*;

verus! {

#[verifier::external_type_specification]
#[verifier::external_body]
pub struct ExEncodeError(bincode::error::EncodeError);

#[verifier::external_type_specification]
#[verifier::external_body]
pub struct ExDecodeError(bincode::error::DecodeError);

/// The bytes that `bincode` (standard configuration, serde encoding) writes
/// for an allocator state made of a free set and a high-water mark.
pub uninterp spec fn allocator_state_encoding(free: Set<u64>, next: u64) -> Seq<u8>;

/// What `bincode` (standard configuration, serde decoding) reads back from
/// `bytes` as an allocator state, or `None` where it reports an error.
pub uninterp spec fn allocator_state_decoding(bytes: Seq<u8>) -> Option<(Set<u64>, u64)>;

/// Calls `bincode::serde::encode_to_vec` on the pair (free set, high-water
/// mark). Claimed: encoding succeeds (the standard configuration has no
/// size limit, a `BTreeSet` reports its exact length, and writing to a
/// `Vec` never fails), the bytes are the named encoding of the two values,
/// and bincode decodes them back to the same two values (its documented
/// round trip).
#[verifier::external_body]
fn bincode_encode_state(free: &BTreeSet<u64>, next: u64) -> (r: Result<Vec<u8>, bincode::error::EncodeError>)
    ensures
        r is Ok,
        r matches Ok(bytes) ==> {
            &&& bytes@ == allocator_state_encoding(free@, next)
            &&& allocator_state_decoding(bytes@) == Some((free@, next))
        },
{
    bincode::serde::encode_to_vec((free, next), bincode::config::standard())
}

/// Calls `bincode::serde::decode_from_slice` for the pair (free set,
/// high-water mark), dropping the count of bytes read. Claimed: the result
/// is the named decoding of `bytes`.
#[verifier::external_body]
fn bincode_decode_state(bytes: &[u8]) -> (r: Result<(BTreeSet<u64>, u64), bincode::error::DecodeError>)
    ensures
        match r {
            Ok((free, next)) => allocator_state_decoding(bytes@) == Some((free@, next)),
            Err(_) => allocator_state_decoding(bytes@) is None,
        },
{
    match bincode::serde::decode_from_slice::<(BTreeSet<u64>, u64), _>(bytes, bincode::config::standard()) {
        Ok((state, _)) => Ok(state),
        Err(e) => Err(e),
    }
}

/// The abstract state of a block allocator: the set of blocks that were
/// handed out and given back, and the high-water mark below which every
/// block has been handed out at least once.
pub struct AllocatorView {
    pub free: Set<u64>,
    pub next: u64,
}

/// `r` is the least element of `s`.
pub open spec fn is_least(s: Set<u64>, r: u64) -> bool {
    &&& s.contains(r)
    &&& forall|x: u64| #[trigger] s.contains(x) ==> r <= x
}

impl AllocatorView {
    /// Every free block lies below the high-water mark, and there are
    /// finitely many of them.
    pub open spec fn wf(self) -> bool {
        &&& self.free.finite()
        &&& forall|x: u64| #[trigger] self.free.contains(x) ==> x < self.next
    }
}

/// `post` and `id` are what taking a block from `pre` gives: the least free
/// block if any is free (the high-water mark stays), else the high-water
/// mark itself, which then moves up by one, wrapping at `u64::MAX`.
pub open spec fn allocate_post(pre: AllocatorView, post: AllocatorView, id: u64) -> bool {
    if pre.free.is_empty() {
        &&& id == pre.next
        &&& post.next == pre.next.wrapping_add(1)
        &&& post.free == pre.free
    } else {
        &&& is_least(pre.free, id)
        &&& post.free == pre.free.remove(id)
        &&& post.next == pre.next
    }
}

/// `post` is what giving block `id` back to `pre` gives: blocks at or above
/// the high-water mark are ignored, others join the free set.
pub open spec fn free_post(pre: AllocatorView, id: u64, post: AllocatorView) -> bool {
    if id >= pre.next {
        post == pre
    } else {
        post == (AllocatorView { free: pre.free.insert(id), next: pre.next })
    }
}

/// Hands out block ids: freed blocks first, smallest first; otherwise the
/// next never-used id.
pub struct Allocator {
    free_blocks: BTreeSet<u64>,
    next_block: u64,
}

impl View for Allocator {
    type V = AllocatorView;

    closed spec fn view(&self) -> AllocatorView {
        AllocatorView { free: self.free_blocks@, next: self.next_block }
    }
}

impl Allocator {
    /// The allocator's invariant: the free set is finite and every free
    /// block lies below the high-water mark.
    pub open spec fn wf(&self) -> bool {
        self@.wf()
    }

    /// An allocator with nothing handed out yet.
    pub fn new() -> (a: Self)
        ensures
            a@.free == Set::<u64>::empty(),
            a@.next == 0,
            a.wf(),
    {
        Allocator { free_blocks: BTreeSet::new(), next_block: 0 }
    }

    /// Takes a block: the smallest freed block if there is one, else the
    /// high-water mark, which then moves up by one (wrapping at `u64::MAX`).
    pub fn allocate(&mut self) -> (id: u64)
        ensures
            allocate_post(old(self)@, final(self)@, id),
            old(self).wf() ==> final(self).wf(),
    {
        let mut first: Option<u64> = None;
        for x in it: self.free_blocks.iter()
            invariant_except_break
                first is None,
                it.index() == 0,
            invariant
                it.seq().unref().to_set() == self.free_blocks@,
            ensures
                first is None ==> self.free_blocks@.is_empty(),
                first matches Some(v) ==> is_least(self.free_blocks@, v),
        {
            proof {
                let s = it.seq();
                assert(s.unref()[0] == *x);
                assert(vstd::laws_cmp::obeys_cmp::<u64>());
                assert(vstd::laws_cmp::obeys_cmp::<&u64>());
                assert(vstd::std_specs::btree::increasing_seq(s));
                assert forall|y: u64| #[trigger] self.free_blocks@.contains(y) implies *x <= y by {
                    assert(s.unref().contains(y));
                    let j = choose|j: int| 0 <= j < s.len() && s.unref()[j] == y;
                    if j > 0 {
                        assert(vstd::std_specs::cmp::OrdSpec::cmp_spec(&s[0], &s[j]) is Less);
                    }
                }
            }
            first = Some(*x);
            break;
        }
        match first {
            Some(id) => {
                self.free_blocks.remove(&id);
                id
            },
            None => {
                let id = self.next_block;
                self.next_block = self.next_block.wrapping_add(1);
                id
            },
        }
    }

    /// The persisted form of the allocator state: always produced, and the
    /// bytes decode back to exactly this free set and high-water mark.
    pub fn to_bytes(&self) -> (r: Result<Vec<u8>, FfsError>)
        ensures
            r is Ok,
            r matches Ok(bytes) ==> {
                &&& bytes@ == allocator_state_encoding(self@.free, self@.next)
                &&& allocator_state_decoding(bytes@) == Some((self@.free, self@.next))
            },
    {
        match bincode_encode_state(&self.free_blocks, self.next_block) {
            Ok(bytes) => Ok(bytes),
            Err(e) => {
                let msg = String::from_str("allocator encode: ").concat(e.to_string().as_str());
                Err(FfsError::StorageError(msg))
            },
        }
    }

    /// Restores an allocator from its persisted form. Fails with
    /// `Corruption` exactly when the bytes do not decode.
    pub fn from_bytes(bytes: &[u8]) -> (r: Result<Self, FfsError>)
        ensures
            match r {
                Ok(a) => allocator_state_decoding(bytes@) == Some((a@.free, a@.next)),
                Err(e) => allocator_state_decoding(bytes@) is None && e is Corruption,
            },
    {
        match bincode_decode_state(bytes) {
            Ok((free_blocks, next_block)) => Ok(Allocator { free_blocks, next_block }),
            Err(e) => {
                let msg = String::from_str("allocator decode: ").concat(e.to_string().as_str());
                Err(FfsError::Corruption(msg))
            },
        }
    }

    /// Gives a block back. A block at or above the high-water mark was never
    /// handed out, so giving it back is ignored.
    pub fn free(&mut self, id: u64)
        ensures
            free_post(old(self)@, id, final(self)@),
            old(self).wf() ==> final(self).wf(),
    {
        let next = self.next_block;
        if id >= next {
            return ;
        }
        self.free_blocks.insert(id);
    }
}

/// A block that has just been handed out is no longer free.
pub proof fn lemma_allocated_block_leaves_free_set(pre: AllocatorView, post: AllocatorView, id: u64)
    requires
        allocate_post(pre, post, id),
    ensures
        !post.free.contains(id),
{
}

/// Two allocations in a row, from a well-formed state and with no block
/// given back in between, never hand out the same block.
pub proof fn lemma_consecutive_allocations_differ(
    s0: AllocatorView,
    s1: AllocatorView,
    s2: AllocatorView,
    a: u64,
    b: u64,
)
    requires
        s0.wf(),
        allocate_post(s0, s1, a),
        allocate_post(s1, s2, b),
    ensures
        a != b,
{
    if !s0.free.is_empty() {
        assert(a < s0.next);
        if !s1.free.is_empty() {
            assert(s1.free.contains(b));
        }
    }
}

/// A block given back is reused before any fresh block: the next allocation
/// hands out a free block no larger than it, and draws no new id.
pub proof fn lemma_freed_block_reused_first(
    s0: AllocatorView,
    x: u64,
    s1: AllocatorView,
    s2: AllocatorView,
    a: u64,
)
    requires
        s0.wf(),
        x < s0.next,
        free_post(s0, x, s1),
        allocate_post(s1, s2, a),
    ensures
        a <= x,
        a == x || s0.free.contains(a),
        s2.next == s0.next,
{
    assert(s1.free.contains(x));
}

/// `in_use` are the blocks handed out and not given back: none of them is
/// free, and all lie below the high-water mark.
pub open spec fn tracks_in_use(v: AllocatorView, in_use: Set<u64>) -> bool {
    &&& v.wf()
    &&& forall|x: u64| #[trigger] in_use.contains(x) ==> !v.free.contains(x) && x < v.next
}

/// A fresh allocator has nothing in use.
pub proof fn lemma_new_tracks_nothing_in_use()
    ensures
        tracks_in_use(AllocatorView { free: Set::empty(), next: 0 }, Set::empty()),
{
}

/// No block is handed out twice while in use: an allocation (short of the
/// high-water mark wrapping around) hands out a block not in use, and the
/// allocator then tracks it as in use.
pub proof fn lemma_allocation_not_in_use(
    s0: AllocatorView,
    in_use: Set<u64>,
    s1: AllocatorView,
    id: u64,
)
    requires
        tracks_in_use(s0, in_use),
        allocate_post(s0, s1, id),
        !s0.free.is_empty() || s0.next < u64::MAX,
    ensures
        !in_use.contains(id),
        tracks_in_use(s1, in_use.insert(id)),
{
    if !s0.free.is_empty() {
        assert(s0.free.contains(id));
    }
}

/// Giving back a block keeps the allocator tracking the blocks still in use
/// (a block given back twice, or never handed out, changes nothing in use).
pub proof fn lemma_free_of_block_in_use(s0: AllocatorView, in_use: Set<u64>, id: u64, s1: AllocatorView)
    requires
        tracks_in_use(s0, in_use),
        free_post(s0, id, s1),
    ensures
        tracks_in_use(s1, in_use.remove(id)),
{
}

/// One call on an allocator: an allocation (with the block it gave) or
/// giving a block back.
pub enum AllocStep {
    Alloc { id: u64 },
    Free { id: u64 },
}

/// `post` is what `step` makes of `pre`.
pub open spec fn alloc_step(pre: AllocatorView, step: AllocStep, post: AllocatorView) -> bool {
    match step {
        AllocStep::Alloc { id } => allocate_post(pre, post, id),
        AllocStep::Free { id } => free_post(pre, id, post),
    }
}

/// `states` is a run of `steps` from `states[0]` in which no allocation
/// wraps the high-water mark around.
pub open spec fn alloc_run(states: Seq<AllocatorView>, steps: Seq<AllocStep>) -> bool {
    &&& states.len() == steps.len() + 1
    &&& forall|k: int| 0 <= k < steps.len() ==> alloc_step(states[k], #[trigger] steps[k], states[k + 1])
    &&& forall|k: int|
        0 <= k < steps.len() && #[trigger] steps[k] is Alloc ==> !states[k].free.is_empty() || states[k].next
            < u64::MAX
}

/// The blocks in use after the first `k` steps of a run: those allocated
/// and not given back since.
pub open spec fn in_use_after(steps: Seq<AllocStep>, k: int) -> Set<u64>
    decreases k,
{
    if k <= 0 {
        Set::empty()
    } else {
        let prev = in_use_after(steps, k - 1);
        match steps[k - 1] {
            AllocStep::Alloc { id } => prev.insert(id),
            AllocStep::Free { id } => prev.remove(id),
        }
    }
}

proof fn lemma_run_tracks_in_use(states: Seq<AllocatorView>, steps: Seq<AllocStep>, k: int)
    requires
        alloc_run(states, steps),
        states[0].wf(),
        0 <= k < states.len(),
    ensures
        tracks_in_use(states[k], in_use_after(steps, k)),
    decreases k,
{
    if k > 0 {
        lemma_run_tracks_in_use(states, steps, k - 1);
        assert(alloc_step(states[k - 1], steps[k - 1], states[k]));
        match steps[k - 1] {
            AllocStep::Alloc { id } => {
                lemma_allocation_not_in_use(states[k - 1], in_use_after(steps, k - 1), states[k], id);
            },
            AllocStep::Free { id } => {
                lemma_free_of_block_in_use(states[k - 1], in_use_after(steps, k - 1), id, states[k]);
            },
        }
    }
}

proof fn lemma_stays_in_use(steps: Seq<AllocStep>, i: int, a: u64, j: int)
    requires
        0 <= i < j <= steps.len(),
        steps[i] == (AllocStep::Alloc { id: a }),
        forall|m: int| i < m < j ==> #[trigger] steps[m] != (AllocStep::Free { id: a }),
    ensures
        in_use_after(steps, j).contains(a),
    decreases j - i,
{
    if j > i + 1 {
        lemma_stays_in_use(steps, i, a, j - 1);
        assert(steps[j - 1] != (AllocStep::Free { id: a }));
    }
}

/// Over any run of allocations and frees from a well-formed allocator (as
/// `new` gives) in which the high-water mark does not wrap, a block handed
/// out is not handed out again unless it was given back in between.
pub proof fn lemma_block_not_reissued_until_freed(
    states: Seq<AllocatorView>,
    steps: Seq<AllocStep>,
    i: int,
    j: int,
    a: u64,
)
    requires
        alloc_run(states, steps),
        states[0].wf(),
        0 <= i < j < steps.len(),
        steps[i] == (AllocStep::Alloc { id: a }),
        steps[j] == (AllocStep::Alloc { id: a }),
    ensures
        exists|m: int| i < m < j && #[trigger] steps[m] == (AllocStep::Free { id: a }),
{
    if !exists|m: int| i < m < j && #[trigger] steps[m] == (AllocStep::Free { id: a }) {
        lemma_stays_in_use(steps, i, a, j);
        lemma_run_tracks_in_use(states, steps, j);
        assert(alloc_step(states[j], steps[j], states[j + 1]));
        assert(steps[j] is Alloc);
        lemma_allocation_not_in_use(states[j], in_use_after(steps, j), states[j + 1], a);
    }
}

impl Default for Allocator {
    fn default() -> (a: Self)
        ensures
            a@.free == Set::<u64>::empty(),
            a@.next == 0,
    {
        Self::new()
    }
}

} // verus!
