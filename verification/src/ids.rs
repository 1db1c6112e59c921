//! A map from node identifiers to values, kept as a list without repeated
//! identifiers.

use crate::bytes::bytes_eq;
use vstd::prelude::*;

verus! {

/// No two entries have the same identifier.
pub open spec fn distinct_ids<V>(s: Seq<([u8; 32], V)>) -> bool {
    forall|i: int, j: int| 0 <= i < j < s.len() ==> #[trigger] s[i].0@ != #[trigger] s[j].0@
}

/// The map that a list of identified values stands for.
pub open spec fn keyed<V>(s: Seq<([u8; 32], V)>) -> Map<Seq<u8>, V>
    decreases s.len(),
{
    if s.len() == 0 {
        Map::empty()
    } else {
        keyed(s.drop_last()).insert(s.last().0@, s.last().1)
    }
}

/// The entries of a list without repeated identifiers are those of its map.
pub proof fn lemma_keyed<V>(s: Seq<([u8; 32], V)>)
    requires
        distinct_ids(s),
    ensures
        keyed(s).dom().finite(),
        keyed(s).dom().len() == s.len(),
        forall|i: int|
            0 <= i < s.len() ==> keyed(s).contains_key(#[trigger] s[i].0@) && keyed(s)[s[i].0@]
                == s[i].1,
        forall|k: Seq<u8>| #[trigger]
            keyed(s).contains_key(k) ==> exists|i: int| 0 <= i < s.len() && #[trigger] s[i].0@ == k,
    decreases s.len(),
{
    if s.len() > 0 {
        let t = s.drop_last();
        assert(distinct_ids(t)) by {
            assert forall|i: int, j: int| 0 <= i < j < t.len() implies #[trigger] t[i].0@
                != #[trigger] t[j].0@ by {
                assert(t[i] == s[i] && t[j] == s[j]);
            }
        }
        lemma_keyed(t);
        let k = s.last().0@;
        assert(!keyed(t).contains_key(k)) by {
            if keyed(t).contains_key(k) {
                let i = choose|i: int| 0 <= i < t.len() && #[trigger] t[i].0@ == k;
                assert(s[i].0@ != s[s.len() - 1].0@);
            }
        }
        assert(keyed(s).dom() =~= keyed(t).dom().insert(k));
        assert forall|i: int| 0 <= i < s.len() implies keyed(s).contains_key(#[trigger] s[i].0@)
            && keyed(s)[s[i].0@] == s[i].1 by {
            if i < s.len() - 1 {
                assert(t[i] == s[i]);
                assert(s[i].0@ != s[s.len() - 1].0@);
            }
        }
        assert forall|c: Seq<u8>| #[trigger] keyed(s).contains_key(c) implies exists|i: int|
            0 <= i < s.len() && #[trigger] s[i].0@ == c by {
            if c == k {
                assert(s[s.len() - 1].0@ == c);
            } else {
                assert(keyed(t).contains_key(c));
                let i = choose|i: int| 0 <= i < t.len() && #[trigger] t[i].0@ == c;
                assert(s[i].0@ == c);
            }
        }
    } else {
        assert(keyed(s).dom() =~= Set::empty());
    }
}

/// Two lists without repeated identifiers and with the same entries give one map.
pub proof fn lemma_same_map<V>(s: Seq<([u8; 32], V)>, m: Map<Seq<u8>, V>)
    requires
        distinct_ids(s),
        forall|i: int|
            0 <= i < s.len() ==> m.contains_key(#[trigger] s[i].0@) && m[s[i].0@] == s[i].1,
        forall|k: Seq<u8>| #[trigger]
            m.contains_key(k) ==> exists|i: int| 0 <= i < s.len() && #[trigger] s[i].0@ == k,
    ensures
        keyed(s) == m,
{
    lemma_keyed(s);
    assert forall|k: Seq<u8>| keyed(s).contains_key(k) == m.contains_key(k) by {
        if keyed(s).contains_key(k) {
            let i = choose|i: int| 0 <= i < s.len() && #[trigger] s[i].0@ == k;
            assert(m.contains_key(s[i].0@));
        }
        if m.contains_key(k) {
            let i = choose|i: int| 0 <= i < s.len() && #[trigger] s[i].0@ == k;
            assert(keyed(s).contains_key(s[i].0@));
        }
    }
    assert forall|k: Seq<u8>| keyed(s).contains_key(k) implies keyed(s)[k] == m[k] by {
        let i = choose|i: int| 0 <= i < s.len() && #[trigger] s[i].0@ == k;
        assert(keyed(s)[s[i].0@] == s[i].1);
    }
    assert(keyed(s) =~= m);
}

/// A map from node identifiers to values.
#[derive(Debug)]
pub struct IdMap<V> {
    entries: Vec<([u8; 32], V)>,
}

impl<V> View for IdMap<V> {
    type V = Map<Seq<u8>, V>;

    closed spec fn view(&self) -> Map<Seq<u8>, V> {
        keyed(self.entries@)
    }
}

impl<V> IdMap<V> {
    /// The entries, in the order in which they were added.
    pub closed spec fn list(self) -> Seq<([u8; 32], V)> {
        self.entries@
    }

    /// No identifier occurs twice.
    pub closed spec fn wf(self) -> bool {
        distinct_ids(self.entries@)
    }

    /// What `wf` means of the list and of the map.
    pub proof fn lemma_wf(self)
        requires
            self.wf(),
        ensures
            self@ == keyed(self.list()),
            distinct_ids(self.list()),
            self@.dom().finite(),
            self@.dom().len() == self.list().len(),
    {
        lemma_keyed(self.entries@);
    }

    /// The empty map.
    pub fn new() -> (r: Self)
        ensures
            r.wf(),
            r@ == Map::<Seq<u8>, V>::empty(),
            r.list().len() == 0,
    {
        IdMap { entries: Vec::new() }
    }

    /// The number of entries.
    pub fn len(&self) -> (r: usize)
        ensures
            r == self.list().len(),
            self.wf() ==> r == self@.dom().len(),
    {
        proof {
            if self.wf() {
                self.lemma_wf();
            }
        }
        self.entries.len()
    }

    /// The identifier of the entry at `i`.
    pub fn id(&self, i: usize) -> (r: &[u8; 32])
        requires
            i < self.list().len(),
        ensures
            *r == self.list()[i as int].0,
    {
        &self.entries[i].0
    }

    /// The value of the entry at `i`.
    pub fn value(&self, i: usize) -> (r: &V)
        requires
            i < self.list().len(),
        ensures
            *r == self.list()[i as int].1,
    {
        &self.entries[i].1
    }

    /// Where `id` is in the list.
    pub fn find(&self, id: &[u8; 32]) -> (r: Option<usize>)
        requires
            self.wf(),
        ensures
            r is Some == self@.contains_key(id@),
            r matches Some(i) ==> i < self.list().len() && self.list()[i as int].0@ == id@
                && self.list()[i as int].1 == self@[id@],
    {
        proof {
            lemma_keyed(self.entries@);
        }
        let mut i: usize = 0;
        while i < self.entries.len()
            invariant
                self.wf(),
                i <= self.entries@.len(),
                forall|j: int| 0 <= j < i ==> #[trigger] self.entries@[j].0@ != id@,
            decreases self.entries@.len() - i,
        {
            if bytes_eq(&self.entries[i].0, id) {
                proof {
                    lemma_keyed(self.entries@);
                }
                return Some(i);
            }
            i += 1;
        }
        proof {
            lemma_keyed(self.entries@);
            if self@.contains_key(id@) {
                let j = choose|j: int|
                    0 <= j < self.entries@.len() && #[trigger] self.entries@[j].0@ == id@;
                assert(false);
            }
        }
        None
    }

    /// The value of `id`.
    pub fn get(&self, id: &[u8; 32]) -> (r: Option<&V>)
        requires
            self.wf(),
        ensures
            r is Some == self@.contains_key(id@),
            r matches Some(v) ==> *v == self@[id@],
    {
        match self.find(id) {
            Some(i) => Some(&self.entries[i].1),
            None => None,
        }
    }

    /// Gives `id` the value `v`, in place of the one it may have had.
    pub fn put(&mut self, id: &[u8; 32], v: V)
        requires
            old(self).wf(),
        ensures
            final(self).wf(),
            final(self)@ == old(self)@.insert(id@, v),
    {
        let ghost before = self.entries@;
        match self.find(id) {
            Some(i) => {
                let key: [u8; 32] = self.entries[i].0;
                self.entries.set(i, (key, v));
                proof {
                    let after = self.entries@;
                    lemma_keyed(before);
                    let m = keyed(before).insert(id@, v);
                    assert forall|a: int, b: int| 0 <= a < b < after.len() implies #[trigger]
                    after[a].0@ != #[trigger] after[b].0@ by {
                        assert(before[a].0@ != before[b].0@);
                    }
                    assert forall|a: int| 0 <= a < after.len() implies m.contains_key(
                        #[trigger] after[a].0@,
                    ) && m[after[a].0@] == after[a].1 by {
                        assert(keyed(before)[before[a].0@] == before[a].1);
                        if a < i as int {
                            assert(before[a].0@ != before[i as int].0@);
                        }
                        if a > i as int {
                            assert(before[i as int].0@ != before[a].0@);
                        }
                    }
                    assert forall|k: Seq<u8>| #[trigger] m.contains_key(k) implies exists|a: int|
                        0 <= a < after.len() && #[trigger] after[a].0@ == k by {
                        if k == id@ {
                            assert(after[i as int].0@ == k);
                        } else {
                            let a = choose|a: int|
                                0 <= a < before.len() && #[trigger] before[a].0@ == k;
                            assert(after[a].0@ == k);
                        }
                    }
                    lemma_same_map(after, m);
                }
            },
            None => {
                self.push_new(id, v);
            },
        }
    }

    /// Adds `id`, which has no value yet.
    pub fn push_new(&mut self, id: &[u8; 32], v: V)
        requires
            old(self).wf(),
            !old(self)@.contains_key(id@),
        ensures
            final(self).wf(),
            final(self)@ == old(self)@.insert(id@, v),
            final(self).list().len() == old(self).list().len() + 1,
    {
        let ghost before = self.entries@;
        self.entries.push((*id, v));
        proof {
            lemma_keyed(before);
            let after = self.entries@;
            assert(after.drop_last() =~= before);
            assert forall|a: int, b: int| 0 <= a < b < after.len() implies #[trigger] after[a].0@
                != #[trigger] after[b].0@ by {
                assert(after[a] == before[a]);
                if b < before.len() {
                    assert(after[b] == before[b]);
                } else {
                    assert(keyed(before).contains_key(before[a].0@));
                }
            }
        }
    }

    /// Takes `id` out, and gives the value that it had.
    pub fn remove(&mut self, id: &[u8; 32]) -> (r: Option<V>)
        requires
            old(self).wf(),
        ensures
            final(self).wf(),
            r is Some == old(self)@.contains_key(id@),
            r matches Some(v) ==> v == old(self)@[id@],
            final(self)@ == old(self)@.remove(id@),
    {
        let ghost before = self.entries@;
        match self.find(id) {
            Some(i) => {
                let (_, v): ([u8; 32], V) = self.entries.remove(i);
                proof {
                    let after = self.entries@;
                    lemma_keyed(before);
                    let m = keyed(before).remove(id@);
                    let at = |a: int| if a < i { a } else { a + 1 };
                    assert forall|a: int| 0 <= a < after.len() implies #[trigger] after[a] == before[at(
                        a,
                    )] by {}
                    assert forall|a: int, b: int| 0 <= a < b < after.len() implies #[trigger] after[a].0@
                        != #[trigger] after[b].0@ by {
                        assert(before[at(a)].0@ != before[at(b)].0@);
                    }
                    assert forall|a: int| 0 <= a < after.len() implies m.contains_key(
                        #[trigger] after[a].0@,
                    ) && m[after[a].0@] == after[a].1 by {
                        let c = at(a);
                        assert(keyed(before)[before[c].0@] == before[c].1);
                        if c < i {
                            assert(before[c].0@ != before[i as int].0@);
                        } else {
                            assert(before[i as int].0@ != before[c].0@);
                        }
                    }
                    assert forall|k: Seq<u8>| #[trigger] m.contains_key(k) implies exists|a: int|
                        0 <= a < after.len() && #[trigger] after[a].0@ == k by {
                        let c = choose|c: int| 0 <= c < before.len() && #[trigger] before[c].0@ == k;
                        let a = if c < i { c } else { c - 1 };
                        assert(after[a].0@ == k);
                    }
                    lemma_same_map(after, m);
                }
                Some(v)
            },
            None => {
                assert(self@.remove(id@) =~= self@);
                None
            },
        }
    }

    /// Whether `id` has a value.
    pub fn contains(&self, id: &[u8; 32]) -> (r: bool)
        requires
            self.wf(),
        ensures
            r == self@.contains_key(id@),
    {
        match self.find(id) {
            Some(_) => true,
            None => false,
        }
    }
}

/// What was put under an identifier is found under it, until it is removed, and nothing else
/// is touched.
pub proof fn law_what_was_put_is_found(
    before: IdMap<u64>,
    put: IdMap<u64>,
    gone: IdMap<u64>,
    id: &[u8; 32],
    v: u64,
    other: &[u8; 32],
    found: Option<&u64>,
    held: bool,
    was: Option<&u64>,
    is: Option<&u64>,
    out: Option<u64>,
)
    requires
        other@ != id@,
        exists|m: &mut IdMap<u64>|
            *m == before && *final(m) == put && #[trigger] call_ensures(IdMap::<u64>::put, (m, id, v), ()),
        call_ensures(IdMap::<u64>::get, (&put, id), found),
        call_ensures(IdMap::<u64>::get, (&before, other), was),
        call_ensures(IdMap::<u64>::get, (&put, other), is),
        exists|m: &mut IdMap<u64>|
            *m == put && *final(m) == gone && #[trigger] call_ensures(IdMap::<u64>::remove, (m, id), out),
        call_ensures(IdMap::<u64>::contains, (&gone, id), held),
    ensures
        found is Some && *found->0 == v,
        was is Some <==> is is Some,
        was is Some ==> *was->0 == *is->0,
        out == Some(v),
        !held,
{
}

} // verus!
