//! The cells that wait to leave over one link, by circuit.
//!
//! A scheduler chooses between circuits. Within a circuit cells keep their order:
//! they are a stream, and the far end opens them in the order in which they were
//! sealed.

use std::collections::HashMap;
use std::collections::VecDeque;
use vstd::prelude::*;

verus! {

broadcast use vstd::std_specs::hash::group_hash_axioms;

/// Waiting messages of the type `M`, by circuit.
pub struct CellQueues<M> {
    q: HashMap<u32, VecDeque<M>>,
}

/// What waits on the circuit `cid`.
pub open spec fn waiting<M>(q: Map<u32, Seq<M>>, cid: u32) -> Seq<M> {
    if q.contains_key(cid) {
        q[cid]
    } else {
        Seq::empty()
    }
}

/// `q` with the queue `s` for the circuit `cid`; an empty queue is no queue.
pub open spec fn with_queue<M>(q: Map<u32, Seq<M>>, cid: u32, s: Seq<M>) -> Map<u32, Seq<M>> {
    if s.len() == 0 {
        q.remove(cid)
    } else {
        q.insert(cid, s)
    }
}

/// `q` after `m` was queued for the circuit `cid`.
pub open spec fn pushed<M>(q: Map<u32, Seq<M>>, cid: u32, m: M) -> Map<u32, Seq<M>> {
    with_queue(q, cid, waiting(q, cid).push(m))
}

/// `q` after the first message of the circuit `cid` left.
pub open spec fn popped<M>(q: Map<u32, Seq<M>>, cid: u32) -> Map<u32, Seq<M>> {
    with_queue(q, cid, waiting(q, cid).skip(1))
}

/// What leaves when the circuit `choice` is served, and what still waits then.
pub open spec fn served<M>(q: Map<u32, Seq<M>>, choice: Option<u32>) -> (
    Option<(u32, M)>,
    Map<u32, Seq<M>>,
) {
    match choice {
        Some(c) if q.contains_key(c) => (Some((c, q[c][0])), popped(q, c)),
        _ => (None, q),
    }
}

impl<M> View for CellQueues<M> {
    type V = Map<u32, Seq<M>>;

    closed spec fn view(&self) -> Map<u32, Seq<M>> {
        self.q@.map_values(|v: VecDeque<M>| v@)
    }
}

impl<M> CellQueues<M> {
    /// No queue is empty.
    pub open spec fn wf(self) -> bool {
        forall|c: u32| #[trigger] self@.contains_key(c) ==> self@[c].len() > 0
    }

    /// Nothing waits.
    pub fn new() -> (r: Self)
        ensures
            r@ == Map::<u32, Seq<M>>::empty(),
            r.wf(),
    {
        let r: CellQueues<M> = CellQueues { q: HashMap::new() };
        assert(r@ =~= Map::<u32, Seq<M>>::empty());
        r
    }

    /// Queues a message for a circuit.
    pub fn push(&mut self, cid: u32, msg: M)
        requires
            old(self).wf(),
        ensures
            final(self)@ == pushed(old(self)@, cid, msg),
            final(self).wf(),
    {
        let ghost before = self@;
        let mut v: VecDeque<M> = match self.q.remove(&cid) {
            Some(v) => v,
            None => VecDeque::new(),
        };
        assert(v@ =~= waiting(before, cid));
        v.push_back(msg);
        self.q.insert(cid, v);
        assert(self@ =~= pushed(before, cid, msg));
    }

    /// The circuits on which something waits.
    pub fn ready(&self) -> (r: Vec<u32>)
        requires
            self.wf(),
        ensures
            r@.no_duplicates(),
            r@.to_set() == self@.dom(),
    {
        let ghost keys = vstd::std_specs::iter::IteratorSpec::remaining(
            &vstd::std_specs::hash::spec_keys_iter(&self.q),
        ).unref();
        let mut out: Vec<u32> = Vec::new();
        for k in it: self.q.keys()
            invariant
                it.seq().unref() == keys,
                out@ == keys.take(it.index() as int),
        {
            out.push(*k);
        }
        assert(out@ =~= keys);
        assert(self@.dom() =~= self.q@.dom());
        out
    }

    /// Takes the first message of the circuit that the scheduler chose among those
    /// that [`CellQueues::ready`] listed.
    pub fn pop_next(&mut self, choice: Option<u32>) -> (r: Option<(u32, M)>)
        requires
            old(self).wf(),
        ensures
            final(self).wf(),
            (r, final(self)@) == served(old(self)@, choice),
    {
        let c: u32 = match choice {
            Some(c) => c,
            None => return None,
        };
        let ghost before = self@;
        match self.q.remove(&c) {
            Some(mut v) => {
                let ghost v0 = v@;
                assert(before.contains_key(c) && before[c] == v0);
                let m: Option<M> = v.pop_front();
                if v.len() > 0 {
                    let ghost rest = v@;
                    self.q.insert(c, v);
                    assert(rest =~= v0.skip(1));
                    assert(self@ =~= popped(before, c));
                } else {
                    assert(v0.skip(1) =~= Seq::empty());
                    assert(self@ =~= popped(before, c));
                }
                match m {
                    Some(m) => Some((c, m)),
                    None => None,
                }
            },
            None => {
                assert(!before.contains_key(c));
                assert(self@ =~= before);
                None
            },
        }
    }

    /// Drops what waits for a circuit.
    pub fn forget(&mut self, cid: u32)
        requires
            old(self).wf(),
        ensures
            final(self).wf(),
            final(self)@ == old(self)@.remove(cid),
    {
        let ghost before = self@;
        self.q.remove(&cid);
        assert(self@ =~= before.remove(cid));
    }
}

impl<M> Default for CellQueues<M> {
    fn default() -> (r: Self)
        ensures
            r@ == Map::<u32, Seq<M>>::empty(),
            r.wf(),
    {
        CellQueues::new()
    }
}

/// Something that is done with the queues.
pub enum QueueStep<M> {
    /// A message is queued for a circuit.
    Push(u32, M),
    /// The circuit that the scheduler chose is served.
    Pop(Option<u32>),
}

/// What waits after the steps `s`, where nothing waited before.
pub open spec fn after<M>(s: Seq<QueueStep<M>>) -> Map<u32, Seq<M>>
    decreases s.len(),
{
    if s.len() == 0 {
        Map::empty()
    } else {
        let q = after(s.drop_last());
        match s.last() {
            QueueStep::Push(c, m) => pushed(q, c, m),
            QueueStep::Pop(choice) => served(q, choice).1,
        }
    }
}

/// The messages that came for the circuit `cid` during the steps `s`, in order.
pub open spec fn came<M>(s: Seq<QueueStep<M>>, cid: u32) -> Seq<M>
    decreases s.len(),
{
    if s.len() == 0 {
        Seq::empty()
    } else {
        let before = came(s.drop_last(), cid);
        match s.last() {
            QueueStep::Push(c, m) if c == cid => before.push(m),
            _ => before,
        }
    }
}

/// The messages that left on the circuit `cid` during the steps `s`, in order.
pub open spec fn left<M>(s: Seq<QueueStep<M>>, cid: u32) -> Seq<M>
    decreases s.len(),
{
    if s.len() == 0 {
        Seq::empty()
    } else {
        let before = left(s.drop_last(), cid);
        match s.last() {
            QueueStep::Pop(choice) => match served(after(s.drop_last()), choice).0 {
                Some((c, m)) if c == cid => before.push(m),
                _ => before,
            },
            _ => before,
        }
    }
}

/// The scheduler chooses a circuit on which something waits, unless nothing waits at all.
pub open spec fn may_choose<M>(q: Map<u32, Seq<M>>, choice: Option<u32>) -> bool {
    match choice {
        Some(c) => q.contains_key(c),
        None => q.dom() == Set::<u32>::empty(),
    }
}

proof fn lemma_none_empty<M>(s: Seq<QueueStep<M>>, c: u32)
    requires
        after(s).contains_key(c),
    ensures
        after(s)[c].len() > 0,
    decreases s.len(),
{
    if s.len() > 0 {
        let t = s.drop_last();
        if after(t).contains_key(c) {
            lemma_none_empty(t, c);
        }
    }
}

/// Cells of one circuit leave in the order in which they came, each once and on that
/// circuit: whatever was queued and served meanwhile, those that left and those that
/// still wait are those that came. Nothing leaves exactly when all that came has left.
pub proof fn law_cells_of_a_circuit_keep_their_order<M>(
    s: Seq<QueueStep<M>>,
    cid: u32,
    choice: Option<u32>,
)
    requires
        may_choose(after(s), choice),
    ensures
        left(s, cid) + waiting(after(s), cid) == came(s, cid),
        served(after(s), choice).0 is None <==> forall|c: u32| #[trigger] left(s, c) == came(s, c),
{
    lemma_order(s, cid);
    if choice is None {
        assert forall|c: u32| #[trigger] left(s, c) == came(s, c) by {
            lemma_order(s, c);
            assert(!after(s).dom().contains(c));
            assert(left(s, c) + waiting(after(s), c) =~= left(s, c));
        }
    } else {
        let c = choice->0;
        lemma_order(s, c);
        lemma_none_empty(s, c);
        assert(left(s, c).len() < came(s, c).len());
    }
}

proof fn lemma_order<M>(s: Seq<QueueStep<M>>, cid: u32)
    ensures
        left(s, cid) + waiting(after(s), cid) == came(s, cid),
    decreases s.len(),
{
    if s.len() == 0 {
        assert(left(s, cid) + waiting(after(s), cid) =~= came(s, cid));
    } else {
        let t = s.drop_last();
        let q = after(t);
        lemma_order(t, cid);
        if q.contains_key(cid) {
            lemma_none_empty(t, cid);
        }
        assert(waiting(popped(q, cid), cid) =~= waiting(q, cid).skip(1));
        assert(left(s, cid) + waiting(after(s), cid) =~= came(s, cid));
    }
}

/// What is pushed for a circuit comes out of it once everything pushed before it has, and
/// in no other circuit.
pub proof fn law_what_was_pushed_comes_out(
    before: CellQueues<u32>,
    pushed: CellQueues<u32>,
    after: CellQueues<u32>,
    cid: u32,
    msg: u32,
    other: u32,
    r: Option<(u32, u32)>,
)
    requires
        before.wf(),
        other != cid,
        exists|q: &mut CellQueues<u32>|
            *q == before && *final(q) == pushed && #[trigger] call_ensures(CellQueues::<u32>::push, (q, cid, msg), ()),
        exists|q: &mut CellQueues<u32>|
            *q == pushed && *final(q) == after && #[trigger] call_ensures(
                CellQueues::<u32>::pop_next,
                (q, Some(cid)),
                r,
            ),
    ensures
        !before@.contains_key(cid) ==> r == Some((cid, msg)) && after@ == before@,
        before@.contains_key(cid) ==> r == Some((cid, before@[cid][0])) && after@.contains_key(cid) && after@[cid]
            == before@[cid].skip(1).push(msg),
        after@.contains_key(other) == before@.contains_key(other),
        before@.contains_key(other) ==> after@[other] == before@[other],
{
    if before@.contains_key(cid) {
        assert(before@[cid].push(msg).skip(1) =~= before@[cid].skip(1).push(msg));
        assert(before@[cid].push(msg)[0] == before@[cid][0]);
    } else {
        assert(Seq::<u32>::empty().push(msg).skip(1) =~= Seq::empty());
        assert(after@ =~= before@);
    }
}

/// Nothing comes out of a circuit that nothing waits for, and forgetting a circuit forgets
/// what waits for it and nothing else.
pub proof fn law_forgotten_circuits_are_empty(
    before: CellQueues<u32>,
    after: CellQueues<u32>,
    later: CellQueues<u32>,
    cid: u32,
    other: u32,
    r: Option<(u32, u32)>,
)
    requires
        other != cid,
        exists|q: &mut CellQueues<u32>|
            *q == before && *final(q) == after && #[trigger] call_ensures(CellQueues::<u32>::forget, (q, cid), ()),
        exists|q: &mut CellQueues<u32>|
            *q == after && *final(q) == later && #[trigger] call_ensures(
                CellQueues::<u32>::pop_next,
                (q, Some(cid)),
                r,
            ),
    ensures
        r is None,
        later@ == after@,
        after@.contains_key(other) == before@.contains_key(other),
        before@.contains_key(other) ==> after@[other] == before@[other],
{
}

/// Where nothing is chosen, nothing comes out; the circuits that something waits for are
/// listed, each once.
pub proof fn law_what_is_ready(q: CellQueues<u32>, after: CellQueues<u32>, r: Option<(u32, u32)>, ready: Vec<u32>, cid: u32)
    requires
        exists|x: &mut CellQueues<u32>|
            *x == q && *final(x) == after && #[trigger] call_ensures(CellQueues::<u32>::pop_next, (x, None), r),
        call_ensures(CellQueues::<u32>::ready, (&q,), ready),
    ensures
        r is None && after@ == q@,
        ready@.contains(cid) <==> q@.contains_key(cid),
        ready@.no_duplicates(),
{
    if ready@.contains(cid) {
        assert(ready@.to_set().contains(cid));
    }
    if q@.contains_key(cid) {
        assert(ready@.to_set().contains(cid));
    }
}

} // verus!
