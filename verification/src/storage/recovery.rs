use crate::common::error::FfsError;
use crate::storage::wal::WalEntry;
use vstd::prelude::*;

verus! {

/// A state machine that log entries can be applied to.
///
/// Implemented by whatever holds the metadata that the log describes, so
/// that the storage layer does not depend on it.
///
/// Each implementation keeps two models: `applied`, the entries it has
/// taken in, in order (an entry is taken in exactly when applying it
/// succeeds); and `attempted`, every entry handed to `apply`, in order,
/// with what `apply` answered.
pub trait ApplyWalEntry {
    spec fn applied(&self) -> Seq<WalEntry>;

    spec fn attempted(&self) -> Seq<(WalEntry, Result<(), FfsError>)>;

    fn apply(&mut self, entry: WalEntry) -> (r: Result<(), FfsError>)
        ensures
            final(self).attempted() == old(self).attempted().push((entry, r)),
            r is Ok ==> final(self).applied() == old(self).applied().push(entry),
            r is Err ==> final(self).applied() == old(self).applied(),
    ;
}

/// The record of handing each entry of `s` to `apply`, in order, with every
/// one accepted.
pub open spec fn all_accepted(s: Seq<WalEntry>) -> Seq<(WalEntry, Result<(), FfsError>)> {
    s.map_values(|e: WalEntry| (e, Ok::<(), FfsError>(())))
}

/// The entries of `s` that carry sequence number `k`, in their order in `s`.
pub open spec fn with_sequence(s: Seq<WalEntry>, k: u64) -> Seq<WalEntry> {
    s.filter(|e: WalEntry| e.sequence == k)
}

/// `s` is ordered by sequence number.
pub open spec fn sorted_by_sequence(s: Seq<WalEntry>) -> bool {
    forall|a: int, b: int| 0 <= a < b < s.len() ==> #[trigger] s[a].sequence <= #[trigger] s[b].sequence
}

/// `t` is a stable sort of `s` by sequence number: ordered, and for every
/// sequence number it holds the same entries as `s` in the same order.
pub open spec fn stable_sort_of(t: Seq<WalEntry>, s: Seq<WalEntry>) -> bool {
    &&& sorted_by_sequence(t)
    &&& forall|k: u64| #[trigger] with_sequence(t, k) == with_sequence(s, k)
}

proof fn lemma_insert_keeps_key_order(out: Seq<WalEntry>, pos: int, e: WalEntry, k: u64)
    requires
        0 <= pos <= out.len(),
        forall|j: int| pos <= j < out.len() ==> #[trigger] out[j].sequence > e.sequence,
    ensures
        with_sequence(out.insert(pos, e), k) == if e.sequence == k {
            with_sequence(out, k).push(e)
        } else {
            with_sequence(out, k)
        },
{
    let pred = |x: WalEntry| x.sequence == k;
    let a = out.take(pos);
    let b = out.skip(pos);
    assert(out =~= a + b);
    assert(out.insert(pos, e) =~= a + seq![e] + b);
    Seq::filter_distributes_over_add(a, b, pred);
    Seq::filter_distributes_over_add(a + seq![e], b, pred);
    Seq::filter_distributes_over_add(a, seq![e], pred);
    assert(seq![e].filter(pred) =~= if e.sequence == k { seq![e] } else { Seq::<WalEntry>::empty() }) by {
        reveal_with_fuel(Seq::filter, 2);
    }
    if e.sequence == k {
        b.lemma_all_neg_filter_empty(pred);
        assert(b.filter(pred) =~= Seq::<WalEntry>::empty());
        assert(with_sequence(out, k) =~= a.filter(pred));
        assert(with_sequence(out.insert(pos, e), k) =~= a.filter(pred).push(e));
    } else {
        assert(with_sequence(out.insert(pos, e), k) =~= a.filter(pred) + b.filter(pred));
    }
}

/// Orders log entries by sequence number, keeping entries with equal
/// sequence numbers in their original order.
pub fn sort_by_sequence(entries: Vec<WalEntry>) -> (sorted: Vec<WalEntry>)
    ensures
        stable_sort_of(sorted@, entries@),
{
    let ghost orig = entries@;
    let mut rest = entries;
    let mut out: Vec<WalEntry> = Vec::new();
    let ghost mut i: int = 0;
    while rest.len() > 0
        invariant
            0 <= i <= orig.len(),
            rest@ == orig.skip(i),
            sorted_by_sequence(out@),
            forall|k: u64| #[trigger] with_sequence(out@, k) == with_sequence(orig.take(i), k),
        decreases rest@.len(),
    {
        let e = rest.remove(0);
        let mut pos: usize = 0;
        while pos < out.len() && out[pos].sequence <= e.sequence
            invariant
                pos <= out@.len(),
                forall|j: int| 0 <= j < pos ==> #[trigger] out@[j].sequence <= e.sequence,
            decreases out@.len() - pos,
        {
            pos = pos + 1;
        }
        let ghost old_out = out@;
        proof {
            assert forall|j: int| pos <= j < old_out.len() implies #[trigger] old_out[j].sequence
                > e.sequence by {
                if j > pos {
                    assert(old_out[pos as int].sequence <= old_out[j].sequence);
                }
            }
        }
        out.insert(pos, e);
        proof {
            assert(orig[i] == e);
            assert(orig.take(i + 1) =~= orig.take(i).push(e));
            assert forall|k: u64| #[trigger] with_sequence(out@, k) == with_sequence(
                orig.take(i + 1),
                k,
            ) by {
                lemma_insert_keeps_key_order(old_out, pos as int, e, k);
                orig.take(i).lemma_filter_push(e, |x: WalEntry| x.sequence == k);
            }
            assert forall|a: int, b: int| 0 <= a < b < out@.len() implies #[trigger] out@[a].sequence
                <= #[trigger] out@[b].sequence by {
                if a < pos && b > pos {
                    assert(old_out[a].sequence <= e.sequence);
                } else if a == pos {
                    assert(old_out[b - 1].sequence > e.sequence);
                } else if b == pos {
                    assert(old_out[a].sequence <= e.sequence);
                } else if b < pos {
                    assert(old_out[a].sequence <= old_out[b].sequence);
                } else {
                    assert(old_out[a - 1].sequence <= old_out[b - 1].sequence);
                }
            }
            i = i + 1;
            assert(rest@ =~= orig.skip(i));
        }
    }
    proof {
        assert(orig.take(i) =~= orig);
    }
    out
}

proof fn lemma_with_sequence_nonempty(s: Seq<WalEntry>, k: u64)
    ensures
        with_sequence(s, k).len() > 0 <==> exists|i: int| 0 <= i < s.len() && #[trigger] s[i].sequence == k,
{
    let pred = |e: WalEntry| e.sequence == k;
    if with_sequence(s, k).len() > 0 {
        let x = with_sequence(s, k)[0];
        s.lemma_filter_contains_rev(pred, x);
        assert(with_sequence(s, k).contains(x));
        let i = choose|i: int| 0 <= i < s.len() && s[i] == x;
        assert(s[i].sequence == k);
    }
    if exists|i: int| 0 <= i < s.len() && #[trigger] s[i].sequence == k {
        let i = choose|i: int| 0 <= i < s.len() && #[trigger] s[i].sequence == k;
        s.lemma_filter_contains(pred, i);
    }
}

proof fn lemma_with_sequence_drop_last(s: Seq<WalEntry>, q: u64)
    requires
        s.len() > 0,
    ensures
        with_sequence(s, q) == if s.last().sequence == q {
            with_sequence(s.drop_last(), q).push(s.last())
        } else {
            with_sequence(s.drop_last(), q)
        },
{
    assert(s =~= s.drop_last().push(s.last()));
    s.drop_last().lemma_filter_push(s.last(), |x: WalEntry| x.sequence == q);
}

proof fn lemma_sorted_drop_last(s: Seq<WalEntry>)
    requires
        sorted_by_sequence(s),
        s.len() > 0,
    ensures
        sorted_by_sequence(s.drop_last()),
{
    let sd = s.drop_last();
    assert forall|a: int, b: int| 0 <= a < b < sd.len() implies #[trigger] sd[a].sequence
        <= #[trigger] sd[b].sequence by {
        assert(s[a].sequence <= s[b].sequence);
    }
}

/// Two stable sorts agree on their last entry.
proof fn lemma_same_last(t: Seq<WalEntry>, s: Seq<WalEntry>)
    requires
        sorted_by_sequence(s),
        stable_sort_of(t, s),
        s.len() > 0,
    ensures
        t.len() > 0,
        t.last() == s.last(),
{
    let k = s.last().sequence;
    lemma_with_sequence_nonempty(s, k);
    assert(s[s.len() - 1].sequence == k);
    assert(with_sequence(t, k) == with_sequence(s, k));
    lemma_with_sequence_nonempty(t, k);
    let j = choose|i: int| 0 <= i < t.len() && #[trigger] t[i].sequence == k;
    let kf = t.last().sequence;
    assert(j == t.len() - 1 || t[j].sequence <= t[t.len() - 1].sequence);
    lemma_with_sequence_nonempty(t, kf);
    assert(t[t.len() - 1].sequence == kf);
    assert(with_sequence(t, kf) == with_sequence(s, kf));
    lemma_with_sequence_nonempty(s, kf);
    let i2 = choose|i: int| 0 <= i < s.len() && #[trigger] s[i].sequence == kf;
    assert(i2 == s.len() - 1 || s[i2].sequence <= s[s.len() - 1].sequence);
    assert(kf == k);
    lemma_with_sequence_drop_last(s, k);
    lemma_with_sequence_drop_last(t, k);
    assert(with_sequence(s, k).last() == s.last());
    assert(with_sequence(t, k).last() == t.last());
}

/// Entries that are already in sequence order come out of a stable sort
/// unchanged: a log read in append order is replayed in that order.
pub proof fn lemma_sorted_log_replays_in_order(t: Seq<WalEntry>, s: Seq<WalEntry>)
    requires
        sorted_by_sequence(s),
        stable_sort_of(t, s),
    ensures
        t == s,
    decreases s.len(),
{
    if s.len() == 0 {
        if t.len() > 0 {
            lemma_with_sequence_nonempty(t, t[0].sequence);
            lemma_with_sequence_nonempty(s, t[0].sequence);
            assert(with_sequence(t, t[0].sequence) == with_sequence(s, t[0].sequence));
        }
        assert(t =~= s);
    } else {
        lemma_same_last(t, s);
        let sd = s.drop_last();
        let td = t.drop_last();
        lemma_sorted_drop_last(s);
        lemma_sorted_drop_last(t);
        assert forall|q: u64| #[trigger] with_sequence(td, q) == with_sequence(sd, q) by {
            lemma_with_sequence_drop_last(s, q);
            lemma_with_sequence_drop_last(t, q);
            assert(with_sequence(t, q) == with_sequence(s, q));
            if s.last().sequence == q {
                assert(with_sequence(td, q) =~= with_sequence(t, q).drop_last());
                assert(with_sequence(sd, q) =~= with_sequence(s, q).drop_last());
            }
        }
        lemma_sorted_log_replays_in_order(td, sd);
        assert(t =~= td.push(t.last()));
        assert(s =~= sd.push(s.last()));
    }
}

/// Two stable sorts of the same entries are the same sequence.
pub proof fn lemma_stable_sort_unique(t1: Seq<WalEntry>, t2: Seq<WalEntry>, s: Seq<WalEntry>)
    requires
        stable_sort_of(t1, s),
        stable_sort_of(t2, s),
    ensures
        t1 == t2,
{
    assert forall|k: u64| #[trigger] with_sequence(t2, k) == with_sequence(t1, k) by {
        assert(with_sequence(t2, k) == with_sequence(s, k));
        assert(with_sequence(t1, k) == with_sequence(s, k));
    }
    lemma_sorted_log_replays_in_order(t2, t1);
}

/// The order in which replay applies the entries `s`: their stable sort by
/// sequence number.
pub open spec fn replay_order(s: Seq<WalEntry>) -> Seq<WalEntry> {
    choose|t: Seq<WalEntry>| stable_sort_of(t, s)
}

/// Replays log entries into `state`: orders them by sequence number
/// (stably) and applies them one by one, stopping at the first entry that
/// `state` rejects and returning its error.
pub fn replay<S: ApplyWalEntry + ?Sized>(entries: Vec<WalEntry>, state: &mut S) -> (r: Result<(), FfsError>)
    ensures
        stable_sort_of(replay_order(entries@), entries@),
        entries@.len() == 0 ==> r is Ok,
        r is Ok ==> {
            &&& final(state).applied() == old(state).applied() + replay_order(entries@)
            &&& final(state).attempted() == old(state).attempted() + all_accepted(replay_order(entries@))
        },
        r matches Err(e) ==> exists|k: int|
            0 <= k < replay_order(entries@).len() && {
                let order = #[trigger] replay_order(entries@).take(k);
                &&& final(state).applied() == old(state).applied() + order
                &&& final(state).attempted() == old(state).attempted() + all_accepted(order) + seq![
                    (replay_order(entries@)[k], Err(e)),
                ]
            },
{
    let ghost start = state.applied();
    let ghost start_att = state.attempted();
    let sorted = sort_by_sequence(entries);
    let ghost order = sorted@;
    proof {
        lemma_stable_sort_unique(order, replay_order(entries@), entries@);
        if entries@.len() == 0 && sorted@.len() > 0 {
            lemma_with_sequence_nonempty(sorted@, sorted@[0].sequence);
            lemma_with_sequence_nonempty(entries@, sorted@[0].sequence);
            assert(with_sequence(sorted@, sorted@[0].sequence) == with_sequence(entries@, sorted@[0].sequence));
        }
        if entries@.len() > 0 && sorted@.len() == 0 {
            lemma_with_sequence_nonempty(entries@, entries@[0].sequence);
            lemma_with_sequence_nonempty(sorted@, entries@[0].sequence);
            assert(with_sequence(sorted@, entries@[0].sequence) == with_sequence(entries@, entries@[0].sequence));
        }
        assert(order.take(0) =~= Seq::<WalEntry>::empty());
        assert(start + order.take(0) =~= start);
        assert(start_att + all_accepted(order.take(0)) =~= start_att);
        assert(order.skip(0) =~= order);
    }
    let mut rest = sorted;
    let ghost mut i: int = 0;
    while rest.len() > 0
        invariant
            entries@.len() == 0 <==> order.len() == 0,
            order == replay_order(entries@),
            stable_sort_of(order, entries@),
            0 <= i <= order.len(),
            rest@ == order.skip(i),
            state.applied() == start + order.take(i),
            state.attempted() == start_att + all_accepted(order.take(i)),
            start == old(state).applied(),
            start_att == old(state).attempted(),
        decreases rest@.len(),
    {
        let e = rest.remove(0);
        proof {
            assert(e == order[i]);
        }
        let res = state.apply(e);
        match res {
            Ok(unit) => {
                assert(unit == ());
            },
            Err(err) => {
                assert(state.applied() == start + replay_order(entries@).take(i));
                return Err(err);
            },
        }
        proof {
            assert(order.take(i + 1) =~= order.take(i).push(order[i]));
            assert(start + order.take(i + 1) =~= (start + order.take(i)).push(order[i]));
            assert(start_att + all_accepted(order.take(i + 1)) =~= (start_att + all_accepted(
                order.take(i),
            )).push((order[i], Ok::<(), FfsError>(()))));
            i = i + 1;
            assert(rest@ =~= order.skip(i));
        }
    }
    proof {
        assert(order.take(i) =~= order);
    }
    Ok(())
}

} // verus!
