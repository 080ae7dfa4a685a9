//! Reorder stage of the parallel decode pipeline.
//!
//! Every dispatched item (event batch, start, stop) carries a
//! monotonically increasing index; workers finish out of order and the
//! collector publishes strictly in index order through a
//! [`ReorderBuffer`].

use vstd::prelude::*;
use std::collections::BTreeMap;
use vstd::std_specs::btree::{increasing_seq, spec_keys_iter};
use vstd::std_specs::cmp::OrdSpec;
use vstd::std_specs::iter::IteratorSpec;

verus! {

/// Items flowing from the dispatcher and workers to the collector, each
/// with its dispatch index.
#[derive(Debug)]
pub enum CollectorItem {
    /// Serialized event batch ready to publish.
    Batch { index: u64, bytes: Vec<u8>, n_events: usize, seq: u64 },
    /// Index consumed with nothing to publish.
    Skip { index: u64 },
    /// Start marker.
    Start { index: u64 },
    /// Stop marker: end of stream once all earlier indices are out.
    Stop { index: u64 },
}

impl CollectorItem {
    pub open spec fn spec_index(self) -> u64 {
        match self {
            CollectorItem::Batch { index, .. } => index,
            CollectorItem::Skip { index } => index,
            CollectorItem::Start { index } => index,
            CollectorItem::Stop { index } => index,
        }
    }

    /// The item's dispatch index.
    pub fn index(&self) -> (r: u64)
        ensures
            r == self.spec_index(),
    {
        match self {
            CollectorItem::Batch { index, .. } => *index,
            CollectorItem::Skip { index } => *index,
            CollectorItem::Start { index } => *index,
            CollectorItem::Stop { index } => *index,
        }
    }
}

/// The items released from `pending` starting at index `next`: the run of
/// consecutive indices present, in order (stopping below `u64::MAX`).
pub open spec fn released(pending: Map<u64, CollectorItem>, next: int) -> Seq<CollectorItem>
    decreases u64::MAX - next,
{
    if 0 <= next < u64::MAX && pending.contains_key(next as u64) {
        seq![pending[next as u64]].add(released(pending, next + 1))
    } else {
        Seq::empty()
    }
}

/// Items are released with consecutive indices starting at `next`, each
/// the pending item of that index, and the run stops at the first index
/// that is missing: publication is in dispatch order without gaps.
pub proof fn law_released_in_order(pending: Map<u64, CollectorItem>, next: int)
    requires
        forall|k: u64| #[trigger] pending.contains_key(k) ==> pending[k].spec_index() == k,
    ensures
        forall|i: int|
            0 <= i < released(pending, next).len() ==> {
                &&& #[trigger] released(pending, next)[i] == pending[(next + i) as u64]
                &&& released(pending, next)[i].spec_index() == next + i
                &&& pending.contains_key(released(pending, next)[i].spec_index())
            },
        0 <= next + released(pending, next).len() < u64::MAX ==> !pending.contains_key(
            (next + released(pending, next).len()) as u64,
        ),
    decreases u64::MAX - next,
{
    if 0 <= next < u64::MAX && pending.contains_key(next as u64) {
        law_released_in_order(pending, next + 1);
        let r = released(pending, next);
        assert forall|i: int| 0 <= i < r.len() implies {
            &&& #[trigger] r[i] == pending[(next + i) as u64]
            &&& r[i].spec_index() == next + i
            &&& pending.contains_key(r[i].spec_index())
        } by {
            if i > 0 {
                let j = i - 1;
                assert(r[i] == released(pending, next + 1)[j]);
                assert(next + 1 + j == next + i);
                assert(pending.contains_key((next + 1 + j) as u64));
            } else {
                assert((next + i) as u64 == next as u64);
                assert(r[0] == pending[next as u64]);
            }
        }
    } else {
        assert(released(pending, next).len() == 0);
    }
}

/// Pushing loses nothing: every item pending after the insertion is
/// either released now, at its place in index order, or still pending.
pub proof fn law_push_loses_nothing(m: Map<u64, CollectorItem>, next: int, k: u64)
    requires
        forall|j: u64| #[trigger] m.contains_key(j) ==> m[j].spec_index() == j,
        0 <= next,
        m.contains_key(k),
    ensures
        ({
            let out = released(m, next);
            ||| (next <= k < next + out.len() && out[k - next] == m[k])
            ||| (m.remove_keys(index_range(next, next + out.len())).contains_key(k) && m.remove_keys(
                index_range(next, next + out.len()),
            )[k] == m[k])
        }),
{
    law_released_in_order(m, next);
    let out = released(m, next);
    if next <= k < next + out.len() {
        let i = k - next;
        assert(out[i] == m[(next + i) as u64]);
        assert((next + i) as u64 == k);
    } else {
        assert(!index_range(next, next + out.len()).contains(k));
    }
}

/// Indices `[from, to)`.
pub open spec fn index_range(from: int, to: int) -> Set<u64> {
    Set::new(|k: u64| from <= k < to)
}

/// Keys in increasing order are strictly increasing integers.
proof fn lemma_increasing_keys(ks: Seq<&u64>)
    requires
        increasing_seq(ks),
    ensures
        forall|i: int, j: int| 0 <= i < j < ks.len() ==> *ks[i] < *ks[j],
{
    broadcast use vstd::laws_cmp::lemma_ref_obeys_cmp_spec;

    assert(vstd::laws_cmp::obeys_cmp::<u64>());
    assert(vstd::laws_cmp::obeys_cmp::<&u64>());
    vstd::std_specs::btree::axiom_increasing_seq_meaning::<&u64>(ks);
    assert forall|i: int, j: int| 0 <= i < j < ks.len() implies *ks[i] < *ks[j] by {
        assert(OrdSpec::cmp_spec(&ks[i], &ks[j]) is Less);
    }
}

/// What a reorder buffer holds: the next index to release and the items
/// waiting for a predecessor.
pub struct ReorderState {
    pub next: u64,
    pub pending: Map<u64, CollectorItem>,
}

/// One push into a buffer in state `st`: the items released and the state
/// after.
pub open spec fn push_step(st: ReorderState, item: CollectorItem) -> (
    Seq<CollectorItem>,
    ReorderState,
) {
    let m = st.pending.insert(item.spec_index(), item);
    let out = released(m, st.next as int);
    (
        out,
        ReorderState {
            next: (st.next + out.len()) as u64,
            pending: m.remove_keys(index_range(st.next as int, st.next + out.len())),
        },
    )
}

/// Pushing `items` in order from state `st`: everything released, in
/// order, and the state after.
pub open spec fn push_all(st: ReorderState, items: Seq<CollectorItem>) -> (
    Seq<CollectorItem>,
    ReorderState,
)
    decreases items.len(),
{
    if items.len() == 0 {
        (Seq::empty(), st)
    } else {
        let (o1, s1) = push_all(st, items.drop_last());
        let (o2, s2) = push_step(s1, items.last());
        (o1 + o2, s2)
    }
}

/// Some item among the first `j` of `items` has index `k`.
pub open spec fn index_pushed(items: Seq<CollectorItem>, j: int, k: int) -> bool {
    exists|t: int| 0 <= t < j && #[trigger] items[t].spec_index() == k
}

/// The item of `items` with index `k` (its indices being distinct).
pub open spec fn item_of_index(items: Seq<CollectorItem>, k: int) -> CollectorItem {
    items[choose|t: int| 0 <= t < items.len() && #[trigger] items[t].spec_index() == k]
}

/// Indices `0..items.len()`, each carried by exactly one item.
pub open spec fn indices_are_a_run(items: Seq<CollectorItem>) -> bool {
    &&& forall|t: int| 0 <= t < items.len() ==> #[trigger] items[t].spec_index() < items.len()
    &&& forall|t1: int, t2: int|
        0 <= t1 < t2 < items.len() ==> #[trigger] items[t1].spec_index() != #[trigger] items[t2].spec_index()
    &&& forall|k: int| 0 <= k < items.len() ==> index_pushed(items, items.len() as int, k)
}

/// No two of `items` carry the same index, and none carries the largest
/// `u64` (which the buffer never reaches).
pub open spec fn distinct_indices(items: Seq<CollectorItem>) -> bool {
    &&& forall|t: int| 0 <= t < items.len() ==> #[trigger] items[t].spec_index() < u64::MAX
    &&& forall|t1: int, t2: int|
        0 <= t1 < t2 < items.len() ==> #[trigger] items[t1].spec_index() != #[trigger] items[t2].spec_index()
}

/// What holds after pushing the first `j` items of `items` into a fresh
/// buffer.
pub open spec fn push_prefix_inv(items: Seq<CollectorItem>, j: int, out: Seq<CollectorItem>, st: ReorderState) -> bool {
    &&& forall|k: u64| #[trigger] st.pending.contains_key(k) <==> (index_pushed(items, j, k as int) && k > st.next)
    &&& forall|k: u64| #[trigger] st.pending.contains_key(k) ==> st.pending[k] == item_of_index(items, k as int)
    &&& forall|k: int| 0 <= k < st.next ==> index_pushed(items, j, k)
    &&& !index_pushed(items, j, st.next as int)
    &&& out.len() == st.next
    &&& forall|k: int| 0 <= k < st.next ==> #[trigger] out[k] == item_of_index(items, k)
}

proof fn lemma_item_of_index(items: Seq<CollectorItem>, t: int)
    requires
        distinct_indices(items),
        0 <= t < items.len(),
    ensures
        item_of_index(items, items[t].spec_index() as int) == items[t],
{
    let k = items[t].spec_index() as int;
    let c = choose|u: int| 0 <= u < items.len() && #[trigger] items[u].spec_index() == k;
    assert(0 <= t < items.len() && items[t].spec_index() == k);
    if c != t {
        if c < t {
            assert(items[c].spec_index() != items[t].spec_index());
        } else {
            assert(items[t].spec_index() != items[c].spec_index());
        }
    }
}

proof fn lemma_push_prefix_step(items: Seq<CollectorItem>, j: int)
    requires
        distinct_indices(items),
        0 <= j < items.len(),
        push_prefix_inv(
            items,
            j,
            push_all(ReorderState { next: 0, pending: Map::empty() }, items.take(j)).0,
            push_all(ReorderState { next: 0, pending: Map::empty() }, items.take(j)).1,
        ),
    ensures
        push_prefix_inv(
            items,
            j + 1,
            push_all(ReorderState { next: 0, pending: Map::empty() }, items.take(j + 1)).0,
            push_all(ReorderState { next: 0, pending: Map::empty() }, items.take(j + 1)).1,
        ),
{
    let fresh = ReorderState { next: 0, pending: Map::<u64, CollectorItem>::empty() };
    let (out, st) = push_all(fresh, items.take(j));
    assert(items.take(j + 1).drop_last() =~= items.take(j));
    assert(items.take(j + 1).last() == items[j]);
    let x = items[j];
    let i = x.spec_index();
    let next = st.next;
    let m = st.pending.insert(i, x);
    let out2 = released(m, next as int);
    let r = next + out2.len();
    lemma_item_of_index(items, j);
    assert forall|k: int| #[trigger] index_pushed(items, j + 1, k) <==> (index_pushed(items, j, k)
        || k == i) by {
        if index_pushed(items, j + 1, k) {
            let t = choose|t: int| 0 <= t < j + 1 && #[trigger] items[t].spec_index() == k;
            if t < j {
                assert(index_pushed(items, j, k));
            }
        }
        if k == i {
            assert(items[j].spec_index() == k);
        }
        if index_pushed(items, j, k) {
            let t = choose|t: int| 0 <= t < j && #[trigger] items[t].spec_index() == k;
            assert(0 <= t < j + 1 && items[t].spec_index() == k);
        }
    }
    assert(!index_pushed(items, j, i as int)) by {
        if index_pushed(items, j, i as int) {
            let t = choose|t: int| 0 <= t < j && #[trigger] items[t].spec_index() == i;
            assert(items[t].spec_index() != items[j].spec_index());
        }
    }
    assert forall|k: u64| #[trigger] m.contains_key(k) implies m[k].spec_index() == k by {
        if k != i {
            assert(st.pending.contains_key(k));
            assert(st.pending[k] == item_of_index(items, k as int));
            assert(index_pushed(items, j, k as int));
            let t = choose|t: int| 0 <= t < j && #[trigger] items[t].spec_index() == k;
            lemma_item_of_index(items, t);
        }
    }
    law_released_in_order(m, next as int);
    if i != next {
        assert(i > next) by {
            if i < next {
                assert(index_pushed(items, j, i as int));
            }
        }
        assert(!m.contains_key(next));
        assert(out2.len() == 0);
        assert(m.remove_keys(index_range(next as int, next as int)) =~= m);
    } else {
        assert forall|t: int| 0 <= t < out2.len() implies #[trigger] out2[t] == item_of_index(
            items,
            next + t,
        ) && (next + t == i || index_pushed(items, j, next + t)) && next + t < u64::MAX by {
            let k = (next + t) as u64;
            assert(m.contains_key(out2[t].spec_index()));
            assert(out2[t] == m[k]);
            if k != i {
                assert(st.pending.contains_key(k));
            }
            assert(index_pushed(items, j + 1, k as int));
            let u = choose|u: int| 0 <= u < j + 1 && #[trigger] items[u].spec_index() == k;
            assert(items[u].spec_index() < u64::MAX);
        }
        if out2.len() > 0 {
            let t = out2.len() - 1;
            assert(out2[t] == item_of_index(items, next + t));
            assert(next + t < u64::MAX);
        }
        assert(r <= u64::MAX);
        assert(!m.contains_key(r as u64)) by {
            if r == u64::MAX && m.contains_key(r as u64) {
                if r as u64 != i {
                    assert(st.pending.contains_key(r as u64));
                    assert(index_pushed(items, j, r));
                    let u = choose|u: int| 0 <= u < j && #[trigger] items[u].spec_index() == r;
                    assert(items[u].spec_index() < u64::MAX);
                }
            }
        }
        assert(!index_pushed(items, j + 1, r)) by {
            if index_pushed(items, j + 1, r) {
                if r != i {
                    assert(index_pushed(items, j, r));
                    assert(r > next);
                    assert(st.pending.contains_key(r as u64));
                }
            }
        }
        let pend2 = m.remove_keys(index_range(next as int, r));
        assert forall|k: u64| #[trigger] pend2.contains_key(k) <==> (index_pushed(items, j + 1, k as int)
            && k > r) by {
            if pend2.contains_key(k) {
                assert(!index_range(next as int, r).contains(k));
                if k == i {
                    assert(false);
                }
                assert(st.pending.contains_key(k));
            }
            if index_pushed(items, j + 1, k as int) && k > r {
                assert(k != i);
                assert(index_pushed(items, j, k as int));
                assert(st.pending.contains_key(k));
                assert(!index_range(next as int, r).contains(k));
            }
        }
        assert forall|k: int| 0 <= k < r implies #[trigger] index_pushed(items, j + 1, k) by {
            if k >= next {
                let t = k - next;
                assert(out2[t] == item_of_index(items, next + t));
            }
        }
        let o = out + out2;
        assert forall|k: int| 0 <= k < r implies #[trigger] o[k] == item_of_index(items, k) by {
            if k >= next {
                let t = k - next;
                assert(o[k] == out2[t]);
            }
        }
    }
}

proof fn lemma_push_prefix_upto(items: Seq<CollectorItem>, j: int)
    requires
        distinct_indices(items),
        0 <= j <= items.len(),
    ensures
        push_prefix_inv(
            items,
            j,
            push_all(ReorderState { next: 0, pending: Map::empty() }, items.take(j)).0,
            push_all(ReorderState { next: 0, pending: Map::empty() }, items.take(j)).1,
        ),
    decreases j,
{
    if j == 0 {
        assert(items.take(0) =~= Seq::<CollectorItem>::empty());
        assert(!index_pushed(items, 0, 0));
    } else {
        lemma_push_prefix_upto(items, j - 1);
        lemma_push_prefix_step(items, j - 1);
    }
}

/// Pushing the items of indices `0..n`, each once, in any order into a
/// fresh buffer releases all of them, in index order, and leaves the
/// buffer empty: reordering loses and duplicates nothing.
pub proof fn law_reorder_releases_every_item(items: Seq<CollectorItem>)
    requires
        indices_are_a_run(items),
        items.len() < u64::MAX,
    ensures
        ({
            let (out, st) = push_all(ReorderState { next: 0, pending: Map::empty() }, items);
            &&& out.len() == items.len()
            &&& forall|k: int| 0 <= k < items.len() ==> #[trigger] out[k] == item_of_index(items, k)
                && out[k].spec_index() == k
            &&& st.next == items.len()
            &&& st.pending == Map::<u64, CollectorItem>::empty()
        }),
{
    let fresh = ReorderState { next: 0, pending: Map::<u64, CollectorItem>::empty() };
    let n = items.len() as int;
    assert(distinct_indices(items)) by {
        assert forall|t: int| 0 <= t < n implies #[trigger] items[t].spec_index() < u64::MAX by {
            assert(items[t].spec_index() < n);
        }
    }
    lemma_push_prefix_upto(items, n);
    assert(items.take(n) =~= items);
    let (out, st) = push_all(fresh, items);
    assert(st.next == n) by {
        if st.next < n {
            assert(index_pushed(items, n, st.next as int));
        }
        if st.next > n {
            assert(index_pushed(items, n, n));
            let t = choose|t: int| 0 <= t < n && #[trigger] items[t].spec_index() == n;
            assert(items[t].spec_index() < n);
        }
    }
    assert forall|k: int| 0 <= k < n implies #[trigger] out[k] == item_of_index(items, k) && out[k].spec_index() == k by {
        assert(index_pushed(items, n, k));
        let t = choose|t: int| 0 <= t < n && #[trigger] items[t].spec_index() == k;
        lemma_item_of_index(items, t);
    }
    assert(st.pending =~= Map::<u64, CollectorItem>::empty()) by {
        assert forall|k: u64| !st.pending.contains_key(k) by {
            if st.pending.contains_key(k) {
                let t = choose|t: int| 0 <= t < n && #[trigger] items[t].spec_index() == k;
                assert(items[t].spec_index() < n);
            }
        }
    }
}

/// Pushing items with distinct indices, in any order, into a fresh buffer:
/// with `k` the least index not pushed, exactly the pushed items of index
/// below `k` have been released, each once, in index order, and the
/// pushed items of index above `k` are still pending, none lost.
pub proof fn law_reorder_prefix(items: Seq<CollectorItem>)
    requires
        distinct_indices(items),
    ensures
        ({
            let (out, st) = push_all(ReorderState { next: 0, pending: Map::empty() }, items);
            let k = st.next as int;
            let n = items.len() as int;
            &&& forall|i: int| 0 <= i < k ==> #[trigger] index_pushed(items, n, i)
            &&& !index_pushed(items, n, k)
            &&& out.len() == k
            &&& forall|i: int| 0 <= i < k ==> #[trigger] out[i] == item_of_index(items, i)
                && out[i].spec_index() == i
            &&& forall|x: u64| #[trigger] st.pending.contains_key(x) <==> (index_pushed(items, n, x as int)
                && x > k)
            &&& forall|x: u64| #[trigger] st.pending.contains_key(x) ==> st.pending[x] == item_of_index(
                items,
                x as int,
            )
        }),
{
    let n = items.len() as int;
    lemma_push_prefix_upto(items, n);
    assert(items.take(n) =~= items);
    let (out, st) = push_all(ReorderState { next: 0, pending: Map::<u64, CollectorItem>::empty() }, items);
    assert forall|i: int| 0 <= i < st.next implies #[trigger] out[i] == item_of_index(items, i)
        && out[i].spec_index() == i by {
        assert(index_pushed(items, n, i));
        let t = choose|t: int| 0 <= t < n && #[trigger] items[t].spec_index() == i;
        lemma_item_of_index(items, t);
    }
}

/// Reorders out-of-order collector items back into dispatch order.
pub struct ReorderBuffer {
    next: u64,
    pending: BTreeMap<u64, CollectorItem>,
}

impl View for ReorderBuffer {
    type V = ReorderState;

    closed spec fn view(&self) -> ReorderState {
        ReorderState { next: self.next, pending: self.pending@ }
    }
}

impl ReorderBuffer {
    #[verifier::type_invariant]
    spec fn inv(self) -> bool {
        forall|k: u64| #[trigger] self.pending@.contains_key(k) ==> self.pending@[k].spec_index() == k
    }

    /// An empty buffer expecting index 0.
    pub fn new() -> (b: Self)
        ensures
            b@.next == 0,
            b@.pending == Map::<u64, CollectorItem>::empty(),
    {
        ReorderBuffer { next: 0, pending: BTreeMap::new() }
    }

    /// Insert `item` (replacing a pending item of the same index) and
    /// return every item now ready, in index order.
    pub fn push(&mut self, item: CollectorItem) -> (ready: Vec<CollectorItem>)
        requires
            old(self)@.next + released(
                old(self)@.pending.insert(item.spec_index(), item),
                old(self)@.next as int,
            ).len() < u64::MAX,
        ensures
            ({
                let m = old(self)@.pending.insert(item.spec_index(), item);
                let out = released(m, old(self)@.next as int);
                &&& ready@ == out
                &&& final(self)@.next == old(self)@.next + out.len()
                &&& final(self)@.pending == m.remove_keys(
                    index_range(old(self)@.next as int, old(self)@.next + out.len()),
                )
            }),
            ready@ == push_step(old(self)@, item).0,
            final(self)@ == push_step(old(self)@, item).1,
    {
        proof {
            use_type_invariant(&*self);
        }
        let ghost m = self.pending@.insert(item.spec_index(), item);
        let ghost next0 = self.next as int;
        let ghost out = released(m, next0);
        let idx = item.index();
        let mut pending = BTreeMap::new();
        std::mem::swap(&mut pending, &mut self.pending);
        pending.insert(idx, item);
        assert(pending@ == m);
        let mut next = self.next;
        let mut ready: Vec<CollectorItem> = Vec::new();
        let mut done = false;
        assert(out =~= ready@ + released(m, next0));
        assert(m =~= m.remove_keys(index_range(next0, next0)));
        while !done
            invariant
                forall|k: u64| #[trigger] m.contains_key(k) ==> m[k].spec_index() == k,
                next0 <= next,
                next0 + out.len() < u64::MAX,
                next == next0 + ready@.len(),
                !done ==> out == ready@ + released(m, next as int),
                done ==> out == ready@,
                pending@ == m.remove_keys(index_range(next0, next as int)),
            decreases u64::MAX - next, if done { 0int } else { 1int },
        {
            let ghost before = pending@;
            match pending.remove(&next) {
                Some(it) => {
                    proof {
                        assert(m.contains_key(next) && m[next] == it);
                        assert(released(m, next as int) == seq![it].add(released(m, next + 1)));
                        assert(pending@ =~= m.remove_keys(index_range(next0, next + 1)));
                    }
                    ready.push(it);
                    proof {
                        assert(out =~= ready@ + released(m, next + 1));
                    }
                    next = next + 1;
                },
                None => {
                    proof {
                        assert(!m.contains_key(next));
                        assert(out =~= ready@);
                    }
                    done = true;
                },
            }
        }
        self.pending = pending;
        self.next = next;
        proof {
            assert forall|k: u64| #[trigger] self.pending@.contains_key(k) implies self.pending@[k].spec_index() == k by {
                assert(m.contains_key(k));
            }
        }
        ready
    }

    /// Number of items waiting for a missing predecessor.
    pub fn pending_len(&self) -> (n: usize)
        ensures
            n == self@.pending.len(),
    {
        self.pending.len()
    }

    /// Take every waiting item, in index order, leaving the buffer empty
    /// (end of stream; the gaps stay gaps).
    pub fn drain_remaining(&mut self) -> (rest: Vec<CollectorItem>)
        ensures
            final(self)@.next == old(self)@.next,
            final(self)@.pending == Map::<u64, CollectorItem>::empty(),
            rest@.len() == old(self)@.pending.len(),
            forall|i: int|
                0 <= i < rest@.len() ==> #[trigger] old(self)@.pending.contains_key(
                    rest@[i].spec_index(),
                ) && old(self)@.pending[rest@[i].spec_index()] == rest@[i],
            forall|i: int, j: int|
                0 <= i < j < rest@.len() ==> #[trigger] rest@[i].spec_index()
                    < #[trigger] rest@[j].spec_index(),
    {
        proof {
            use_type_invariant(&*self);
        }
        let ghost m = self.pending@;
        let mut pending = BTreeMap::new();
        std::mem::swap(&mut pending, &mut self.pending);
        let mut keys: Vec<u64> = Vec::new();
        for k in it: pending.keys()
            invariant
                keys@.len() == it.index(),
                forall|i: int| 0 <= i < keys@.len() ==> keys@[i] == *it.seq()[i],
        {
            keys.push(*k);
        }
        proof {
            let ks = spec_keys_iter(&pending).remaining();
            assert(keys@.len() == ks.len());
            assert(ks.len() == m.dom().len());
            assert(increasing_seq(ks));
            lemma_increasing_keys(ks);
            assert forall|i: int| 0 <= i < keys@.len() implies m.contains_key(keys@[i]) by {
                assert(ks.unref()[i] == *ks[i]);
                assert(ks.unref().contains(*ks[i]));
                assert(ks.unref().to_set().contains(*ks[i]));
            }
        }
        let mut rest: Vec<CollectorItem> = Vec::new();
        let mut i: usize = 0;
        while i < keys.len()
            invariant
                i <= keys@.len(),
                keys@.len() == m.dom().len(),
                forall|a: int, b: int| 0 <= a < b < keys@.len() ==> keys@[a] < keys@[b],
                forall|a: int| 0 <= a < keys@.len() ==> m.contains_key(#[trigger] keys@[a]),
                forall|k: u64| #[trigger] m.contains_key(k) ==> m[k].spec_index() == k,
                pending@ == m.remove_keys(Set::new(|k: u64| exists|a: int| 0 <= a < i && keys@[a] == k)),
                rest@.len() == i,
                forall|a: int| 0 <= a < i ==> #[trigger] rest@[a] == m[keys@[a]],
            decreases keys@.len() - i,
        {
            let k = keys[i];
            proof {
                assert(pending@.contains_key(k)) by {
                    if exists|a: int| 0 <= a < i && keys@[a] == k {
                        let a = choose|a: int| 0 <= a < i && keys@[a] == k;
                        assert(keys@[a] < keys@[i as int]);
                    }
                }
            }
            let item = pending.remove(&k);
            match item {
                Some(it) => {
                    rest.push(it);
                },
                None => {},
            }
            proof {
                assert(pending@ =~= m.remove_keys(Set::new(|k: u64| exists|a: int| 0 <= a < i + 1 && keys@[a] == k)));
            }
            i = i + 1;
        }
        rest
    }
}

/// Most decode workers a configuration may ask for.
pub const MAX_DECODE_WORKERS: usize = 64;

/// Decode workers for a configured count: the count itself, at most 64;
/// for 0 (automatic), half the logical CPUs less one, between 1 and 8
/// (leaving room for the receive, read, collect and sibling threads).
pub fn resolve_worker_count(configured: usize, logical_cpus: usize) -> (n: usize)
    ensures
        configured > 0 ==> n == if configured < MAX_DECODE_WORKERS {
            configured
        } else {
            MAX_DECODE_WORKERS
        },
        configured == 0 ==> n == if logical_cpus / 2 <= 2 {
            1
        } else if logical_cpus / 2 - 1 >= 8 {
            8
        } else {
            logical_cpus / 2 - 1
        },
        1 <= n <= MAX_DECODE_WORKERS,
{
    if configured > 0 {
        if configured < MAX_DECODE_WORKERS {
            configured
        } else {
            MAX_DECODE_WORKERS
        }
    } else {
        let half = logical_cpus / 2;
        let spare = if half > 1 {
            half - 1
        } else {
            0
        };
        if spare < 1 {
            1
        } else if spare > 8 {
            8
        } else {
            spare
        }
    }
}

/// Numbering of the dispatcher's output: every work item and every start
/// or stop marker takes the next index; work items also take the next
/// sequence number of the run and the run's epoch. A start marker begins
/// a new run: the sequence restarts and the epoch advances.
#[derive(Debug, Clone, Copy, PartialEq, Eq, Structural)]
pub struct DispatchCounter {
    pub next_index: u64,
    pub seq: u64,
    pub epoch: u64,
}

impl DispatchCounter {
    /// Nothing dispatched yet.
    pub fn new() -> (c: Self)
        ensures
            c == (DispatchCounter { next_index: 0, seq: 0, epoch: 0 }),
    {
        DispatchCounter { next_index: 0, seq: 0, epoch: 0 }
    }

    /// Number a work item: its index, sequence number and epoch.
    pub fn number_work(&mut self) -> (r: (u64, u64, u64))
        requires
            old(self).next_index < u64::MAX,
            old(self).seq < u64::MAX,
        ensures
            r == (old(self).next_index, old(self).seq, old(self).epoch),
            *final(self) == (DispatchCounter {
                next_index: (old(self).next_index + 1) as u64,
                seq: (old(self).seq + 1) as u64,
                epoch: old(self).epoch,
            }),
    {
        let r = (self.next_index, self.seq, self.epoch);
        self.next_index = self.next_index + 1;
        self.seq = self.seq + 1;
        r
    }

    /// Number a start marker, beginning a new run.
    pub fn number_start(&mut self) -> (index: u64)
        requires
            old(self).next_index < u64::MAX,
            old(self).epoch < u64::MAX,
        ensures
            index == old(self).next_index,
            *final(self) == (DispatchCounter {
                next_index: (old(self).next_index + 1) as u64,
                seq: 0,
                epoch: (old(self).epoch + 1) as u64,
            }),
    {
        let index = self.next_index;
        self.next_index = self.next_index + 1;
        self.seq = 0;
        self.epoch = self.epoch + 1;
        index
    }

    /// Number a stop marker.
    pub fn number_stop(&mut self) -> (index: u64)
        requires
            old(self).next_index < u64::MAX,
        ensures
            index == old(self).next_index,
            *final(self) == (DispatchCounter {
                next_index: (old(self).next_index + 1) as u64,
                ..*old(self)
            }),
    {
        let index = self.next_index;
        self.next_index = self.next_index + 1;
        index
    }
}

// ---------------------------------------------------------------------------
// Coalescing of pre-decoded events
// ---------------------------------------------------------------------------

/// Most events the dispatcher gathers into one batch.
pub const COALESCE_MAX: usize = 256;

/// The kind of batch being gathered: pre-decoded events, or OpenDPP
/// events read with one setting of the acquisition-enable flag.
#[derive(Debug, Clone, Copy, PartialEq, Eq, Structural)]
pub enum BatchKind {
    Decoded,
    OpenDpp { enable_acq: bool },
}

/// What polling the read loop's queue without waiting gave.
#[derive(Debug, Clone, Copy, PartialEq, Eq, Structural)]
pub enum Polled {
    /// A pre-decoded event.
    Decoded,
    /// An OpenDPP event with its acquisition-enable flag.
    OpenDpp { enable_acq: bool },
    /// Anything else (raw data, start, stop).
    Other,
    /// Nothing queued, or the read loop has gone.
    Nothing,
}

/// What the dispatcher does with what it polled.
#[derive(Debug, Clone, Copy, PartialEq, Eq, Structural)]
pub enum CoalesceStep {
    /// Add the event to the batch and poll again.
    Append,
    /// Dispatch the batch; handle the polled item next.
    FlushAndCarry,
    /// Dispatch the batch.
    Flush,
}

/// Whether a batch of `len` events may take another one.
pub fn coalesce_has_room(len: usize) -> (r: bool)
    ensures
        r == (len < COALESCE_MAX),
{
    len < COALESCE_MAX
}

/// A polled event joins the batch only when it is of the batch's kind (for
/// OpenDPP, with the same acquisition-enable flag, so a batch holds one
/// snapshot of it); any other item ends the batch and is handled next;
/// an empty queue ends the batch.
pub fn coalesce_step(kind: BatchKind, polled: Polled) -> (r: CoalesceStep)
    ensures
        r == match polled {
            Polled::Nothing => CoalesceStep::Flush,
            Polled::Decoded => if kind == BatchKind::Decoded {
                CoalesceStep::Append
            } else {
                CoalesceStep::FlushAndCarry
            },
            Polled::OpenDpp { enable_acq } => if kind == (BatchKind::OpenDpp { enable_acq }) {
                CoalesceStep::Append
            } else {
                CoalesceStep::FlushAndCarry
            },
            Polled::Other => CoalesceStep::FlushAndCarry,
        },
{
    match polled {
        Polled::Nothing => CoalesceStep::Flush,
        Polled::Decoded => match kind {
            BatchKind::Decoded => CoalesceStep::Append,
            BatchKind::OpenDpp { .. } => CoalesceStep::FlushAndCarry,
        },
        Polled::OpenDpp { enable_acq } => match kind {
            BatchKind::OpenDpp { enable_acq: e } => {
                if e == enable_acq {
                    CoalesceStep::Append
                } else {
                    CoalesceStep::FlushAndCarry
                }
            },
            BatchKind::Decoded => CoalesceStep::FlushAndCarry,
        },
        Polled::Other => CoalesceStep::FlushAndCarry,
    }
}

} // verus!
