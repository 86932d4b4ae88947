//! Restores the order of pages that are produced concurrently: each page carries its
//! sequence number, and pages are released to the writer strictly in sequence order.
use vstd::prelude::*;
use std::collections::HashMap;

verus! {

broadcast use vstd::std_specs::hash::group_hash_axioms;

/// Pages that arrived ahead of their turn, and the sequence number due next.
pub struct SequenceBuffer<T> {
    next: usize,
    pending: HashMap<usize, T>,
}

/// `page` is the page held under sequence number `start + j` in `m`.
pub open spec fn released<T>(m: Map<usize, T>, start: int, j: int, page: T) -> bool {
    &&& m.contains_key((start + j) as usize)
    &&& page == m[(start + j) as usize]
}

/// One delivery to the buffer: with `m` the held pages plus page `item` under number
/// `seq`, the released pages are those of `m` numbered from `e` on without a gap, the next
/// number is the first one missing, and those pages leave the buffer.
pub open spec fn receive_step<T>(
    e: nat,
    w: Map<usize, T>,
    seq: usize,
    item: T,
    e2: nat,
    w2: Map<usize, T>,
    ready: Seq<T>,
) -> bool {
    let m = w.insert(seq, item);
    &&& e2 == e + ready.len()
    &&& forall|j: int| 0 <= j < ready.len() ==> released(m, e as int, j, #[trigger] ready[j])
    &&& e2 <= usize::MAX
    &&& !m.contains_key(e2 as usize)
    &&& w2 == m.remove_keys(Set::new(|x: usize| e <= x < e2))
}

impl<T> SequenceBuffer<T> {
    /// The sequence number that the writer waits for.
    pub closed spec fn expected(self) -> nat {
        self.next as nat
    }

    /// The pages held back, by sequence number.
    pub closed spec fn waiting(self) -> Map<usize, T> {
        self.pending@
    }

    /// Every held-back sequence number is below `usize::MAX`, and the page expected next
    /// is never held back (it is released as soon as it arrives).
    pub closed spec fn wf(self) -> bool {
        &&& forall|k: usize| self.pending@.contains_key(k) ==> k < usize::MAX
        &&& !self.pending@.contains_key(self.next)
    }

    /// In a well-formed buffer the page expected next is not among the held-back pages.
    pub proof fn lemma_expected_not_waiting(self)
        requires
            self.wf(),
        ensures
            !self.waiting().contains_key(self.expected() as usize),
    {
    }

    /// An empty buffer that waits for sequence number 0.
    pub fn new() -> (b: Self)
        ensures
            b.wf(),
            b.expected() == 0,
            b.waiting() == Map::<usize, T>::empty(),
    {
        SequenceBuffer { next: 0, pending: HashMap::new() }
    }

    /// Takes the page with sequence number `seq` and returns, in order, the pages that
    /// are now due: the one expected next and those that follow it without a gap. A page
    /// received again under the same number replaces the earlier one.
    pub fn receive(&mut self, seq: usize, item: T) -> (ready: Vec<T>)
        requires
            old(self).wf(),
            seq < usize::MAX,
        ensures
            final(self).wf(),
            receive_step(
                old(self).expected(),
                old(self).waiting(),
                seq,
                item,
                final(self).expected(),
                final(self).waiting(),
                ready@,
            ),
    {
        let ghost m = self.pending@.insert(seq, item);
        let ghost start = self.next;
        self.pending.insert(seq, item);
        let mut ready: Vec<T> = Vec::new();
        loop
            invariant_except_break
                start <= self.next,
                self.next == start + ready.len(),
                forall|k: usize| m.contains_key(k) ==> k < usize::MAX,
                forall|j: int|
                    0 <= j < ready.len() ==> released(m, start as int, j, #[trigger] ready@[j]),
                self.pending@ == m.remove_keys(Set::new(|x: usize| start <= x < self.next)),
            ensures
                start <= self.next,
                self.next == start + ready.len(),
                forall|j: int|
                    0 <= j < ready.len() ==> released(m, start as int, j, #[trigger] ready@[j]),
                !m.contains_key(self.next),
                self.pending@ == m.remove_keys(Set::new(|x: usize| start <= x < self.next)),
                forall|k: usize| self.pending@.contains_key(k) ==> k < usize::MAX,
            decreases self.pending@.dom().len(),
        {
            let key = self.next;
            match self.pending.remove(&key) {
                Some(page) => {
                    proof {
                        assert(m.contains_key(key));
                        assert(page == m[key]);
                    }
                    let ghost before = ready@;
                    ready.push(page);
                    self.next = key + 1;
                    assert forall|j: int| 0 <= j < ready.len() implies released(m, start as int, j, #[trigger] ready@[j]) by {
                        if j < before.len() {
                            assert(ready@[j] == before[j]);
                        } else {
                            assert((start + j) as usize == key);
                        }
                    }
                    assert(self.pending@ =~= m.remove_keys(Set::new(|x: usize| start <= x < self.next)));
                },
                None => {
                    assert(!m.contains_key(key));
                    break;
                },
            }
        }
        ready
    }

    /// Whether the pages numbered below `total` have all been released.
    pub fn is_complete(&self, total: usize) -> (done: bool)
        ensures
            done == (self.expected() >= total),
    {
        self.next >= total
    }
}

/// The pages released over a run, one delivery after another.
pub open spec fn released_pages<T>(rs: Seq<Seq<T>>) -> Seq<T>
    decreases rs.len(),
{
    if rs.len() == 0 {
        Seq::empty()
    } else {
        released_pages(rs.drop_last()) + rs.last()
    }
}

/// Some of the first `t` deliveries carries number `k`.
pub open spec fn sent_before<T>(events: Seq<(usize, T)>, t: int, k: int) -> bool {
    exists|u: int| 0 <= u < t && events[u].0 == k
}

/// The page delivered under number `k`.
pub open spec fn page_numbered<T>(events: Seq<(usize, T)>, k: int) -> T {
    events[choose|u: int| 0 <= u < events.len() && events[u].0 == k].1
}

/// The invariant of a run after `t` deliveries: the pages numbered below the expected
/// number have been released, in order, and the buffer holds exactly the delivered
/// pages numbered from it on.
pub open spec fn run_state<T>(events: Seq<(usize, T)>, t: int, e: nat, w: Map<usize, T>, out: Seq<T>) -> bool {
    &&& forall|i: int| 0 <= i < e ==> #[trigger] sent_before(events, t, i)
    &&& out == Seq::new(e, |i: int| page_numbered(events, i))
    &&& forall|k: usize| #[trigger] w.contains_key(k) <==> (sent_before(events, t, k as int) && k >= e)
    &&& forall|k: usize| #[trigger] w.contains_key(k) ==> w[k] == page_numbered(events, k as int)
}

proof fn lemma_run_step<T>(
    events: Seq<(usize, T)>,
    t: int,
    e: nat,
    w: Map<usize, T>,
    out: Seq<T>,
    e2: nat,
    w2: Map<usize, T>,
    ready: Seq<T>,
)
    requires
        0 <= t < events.len(),
        events.len() < usize::MAX,
        forall|u: int| 0 <= u < events.len() ==> (#[trigger] events[u]).0 < events.len(),
        forall|u1: int, u2: int|
            0 <= u1 < events.len() && 0 <= u2 < events.len() && u1 != u2 ==> (#[trigger] events[u1]).0
                != (#[trigger] events[u2]).0,
        run_state(events, t, e, w, out),
        receive_step(e, w, events[t].0, events[t].1, e2, w2, ready),
    ensures
        run_state(events, t + 1, e2, w2, out + ready),
{
    let s = events[t].0;
    let x = events[t].1;
    let m = w.insert(s, x);
    assert(page_numbered(events, s as int) == x) by {
        let u = choose|u: int| 0 <= u < events.len() && events[u].0 == s as int;
        assert(events[u].0 == events[t].0);
    }
    // the new page is not yet released: its number was never delivered before
    if (s as int) < e {
        assert(sent_before(events, t, s as int));
        let u = choose|u: int| 0 <= u < t && events[u].0 == s as int;
        assert(events[u].0 == events[t].0);
    }
    assert forall|k: usize| #[trigger] m.contains_key(k) <==> (sent_before(events, t + 1, k as int) && k >= e) by {
        if sent_before(events, t + 1, k as int) && !sent_before(events, t, k as int) {
            let u = choose|u: int| 0 <= u < t + 1 && events[u].0 == k as int;
            assert(u == t);
        }
        if sent_before(events, t, k as int) {
            let u = choose|u: int| 0 <= u < t && events[u].0 == k as int;
            assert(sent_before(events, t + 1, k as int));
        }
        if k == s {
            assert(sent_before(events, t + 1, k as int)) by {
                assert(events[t].0 == k as int);
            }
        }
    }
    assert forall|k: usize| #[trigger] m.contains_key(k) implies m[k] == page_numbered(events, k as int) by {}
    // the released pages are the ones numbered e, e + 1, ...
    assert(out + ready =~= Seq::new(e2, |i: int| page_numbered(events, i))) by {
        assert forall|i: int| 0 <= i < e2 implies (out + ready)[i] == page_numbered(events, i) by {
            if i >= e {
                let j = i - e;
                assert(released(m, e as int, j, ready[j]));
                assert((e + j) as usize as int == i);
            }
        }
    }
    assert forall|i: int| 0 <= i < e2 implies #[trigger] sent_before(events, t + 1, i) by {
        if i >= e {
            let j = i - e;
            assert(released(m, e as int, j, ready[j]));
            assert(m.contains_key(i as usize));
        } else {
            assert(sent_before(events, t, i));
            let u = choose|u: int| 0 <= u < t && events[u].0 == i;
            assert(events[u].0 == i);
        }
    }
    assert forall|k: usize| #[trigger] w2.contains_key(k) <==> (sent_before(events, t + 1, k as int) && k >= e2) by {
        if w2.contains_key(k) {
            assert(m.contains_key(k));
        }
        if sent_before(events, t + 1, k as int) && k >= e2 {
            assert(m.contains_key(k));
            assert(!(e <= k < e2));
        }
    }
}

proof fn lemma_run_prefix<T>(
    events: Seq<(usize, T)>,
    exps: Seq<nat>,
    waits: Seq<Map<usize, T>>,
    readies: Seq<Seq<T>>,
    t: int,
)
    requires
        0 <= t <= events.len(),
        events.len() < usize::MAX,
        exps.len() == events.len() + 1,
        waits.len() == events.len() + 1,
        readies.len() == events.len(),
        exps[0] == 0,
        waits[0] == Map::<usize, T>::empty(),
        forall|t2: int|
            0 <= t2 < events.len() ==> receive_step(
                exps[t2],
                waits[t2],
                (#[trigger] events[t2]).0,
                events[t2].1,
                exps[t2 + 1],
                waits[t2 + 1],
                readies[t2],
            ),
        forall|u: int| 0 <= u < events.len() ==> (#[trigger] events[u]).0 < events.len(),
        forall|u1: int, u2: int|
            0 <= u1 < events.len() && 0 <= u2 < events.len() && u1 != u2 ==> (#[trigger] events[u1]).0
                != (#[trigger] events[u2]).0,
    ensures
        run_state(events, t, exps[t], waits[t], released_pages(readies.take(t))),
    decreases t,
{
    if t == 0 {
        assert(released_pages(readies.take(0)) =~= Seq::new(0, |i: int| page_numbered(events, i)));
        assert(released_pages(readies.take(0)) == Seq::<T>::empty());
    } else {
        lemma_run_prefix(events, exps, waits, readies, t - 1);
        assert(receive_step(exps[t - 1], waits[t - 1], events[t - 1].0, events[t - 1].1, exps[t], waits[t], readies[t - 1]));
        lemma_run_step(events, t - 1, exps[t - 1], waits[t - 1], released_pages(readies.take(t - 1)), exps[t], waits[t], readies[t - 1]);
        assert(readies.take(t).drop_last() =~= readies.take(t - 1));
    }
}

/// Whatever order the pages arrive in, when every number below `n` is delivered exactly
/// once, the buffer releases every page exactly once and in number order, and then waits
/// for number `n`: the digest gets each of its parts once, in its place.
pub proof fn lemma_sequencer_restores_order<T>(
    events: Seq<(usize, T)>,
    exps: Seq<nat>,
    waits: Seq<Map<usize, T>>,
    readies: Seq<Seq<T>>,
)
    requires
        events.len() < usize::MAX,
        exps.len() == events.len() + 1,
        waits.len() == events.len() + 1,
        readies.len() == events.len(),
        exps[0] == 0,
        waits[0] == Map::<usize, T>::empty(),
        forall|t: int|
            0 <= t < events.len() ==> receive_step(
                exps[t],
                waits[t],
                (#[trigger] events[t]).0,
                events[t].1,
                exps[t + 1],
                waits[t + 1],
                readies[t],
            ),
        forall|u: int| 0 <= u < events.len() ==> (#[trigger] events[u]).0 < events.len(),
        forall|u1: int, u2: int|
            0 <= u1 < events.len() && 0 <= u2 < events.len() && u1 != u2 ==> (#[trigger] events[u1]).0
                != (#[trigger] events[u2]).0,
        forall|i: int| 0 <= i < events.len() ==> #[trigger] sent_before(events, events.len() as int, i),
    ensures
        exps[events.len() as int] == events.len(),
        released_pages(readies) == Seq::new(events.len() as nat, |i: int| page_numbered(events, i)),
{
    let n = events.len() as int;
    lemma_run_prefix(events, exps, waits, readies, n);
    assert(readies.take(n) =~= readies);
    let e = exps[n];
    // every number below the expected one was delivered, so it is at most n
    if e > n {
        assert(sent_before(events, n, n));
        let u = choose|u: int| 0 <= u < n && events[u].0 == n;
    }
    // and it is no less than n: number e would be held, yet it is missing
    if e < n {
        assert(sent_before(events, n, e as int));
        assert(waits[n].contains_key(e as usize));
        if n > 0 {
            let t0 = n - 1;
            assert(receive_step(exps[t0], waits[t0], events[t0].0, events[t0].1, exps[t0 + 1], waits[t0 + 1], readies[t0]));
            let m = waits[t0].insert(events[t0].0, events[t0].1);
            assert(waits[n] == m.remove_keys(Set::new(|x: usize| exps[t0] <= x < e)));
            assert(m.contains_key(e as usize));
        }
    }
}

} // verus!
