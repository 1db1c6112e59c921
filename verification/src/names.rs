//! A map from names to values, kept as a list without repeated names.

use crate::text::str_eq;
use vstd::prelude::*;

verus! {

/// No two entries have the same name.
pub open spec fn distinct_names<V>(s: Seq<(String, V)>) -> bool {
    forall|i: int, j: int| 0 <= i < j < s.len() ==> #[trigger] s[i].0@ != #[trigger] s[j].0@
}

/// The map that a list of named values stands for.
pub open spec fn named<V>(s: Seq<(String, V)>) -> Map<Seq<char>, V>
    decreases s.len(),
{
    if s.len() == 0 {
        Map::empty()
    } else {
        named(s.drop_last()).insert(s.last().0@, s.last().1)
    }
}

/// The entries of a list without repeated names are those of its map.
pub proof fn lemma_named<V>(s: Seq<(String, V)>)
    requires
        distinct_names(s),
    ensures
        named(s).dom().finite(),
        named(s).dom().len() == s.len(),
        forall|i: int|
            0 <= i < s.len() ==> named(s).contains_key(#[trigger] s[i].0@) && named(s)[s[i].0@]
                == s[i].1,
        forall|k: Seq<char>| #[trigger]
            named(s).contains_key(k) ==> exists|i: int| 0 <= i < s.len() && #[trigger] s[i].0@ == k,
    decreases s.len(),
{
    if s.len() > 0 {
        let t = s.drop_last();
        assert(distinct_names(t)) by {
            assert forall|i: int, j: int| 0 <= i < j < t.len() implies #[trigger] t[i].0@
                != #[trigger] t[j].0@ by {
                assert(t[i] == s[i] && t[j] == s[j]);
            }
        }
        lemma_named(t);
        let k = s.last().0@;
        assert(!named(t).contains_key(k)) by {
            if named(t).contains_key(k) {
                let i = choose|i: int| 0 <= i < t.len() && #[trigger] t[i].0@ == k;
                assert(s[i].0@ != s[s.len() - 1].0@);
            }
        }
        assert(named(s).dom() =~= named(t).dom().insert(k));
        assert forall|i: int| 0 <= i < s.len() implies named(s).contains_key(#[trigger] s[i].0@)
            && named(s)[s[i].0@] == s[i].1 by {
            if i < s.len() - 1 {
                assert(t[i] == s[i]);
                assert(s[i].0@ != s[s.len() - 1].0@);
            }
        }
        assert forall|c: Seq<char>| #[trigger] named(s).contains_key(c) implies exists|i: int|
            0 <= i < s.len() && #[trigger] s[i].0@ == c by {
            if c == k {
                assert(s[s.len() - 1].0@ == c);
            } else {
                assert(named(t).contains_key(c));
                let i = choose|i: int| 0 <= i < t.len() && #[trigger] t[i].0@ == c;
                assert(s[i].0@ == c);
            }
        }
    } else {
        assert(named(s).dom() =~= Set::empty());
    }
}

/// Two lists without repeated names and with the same entries give one map.
pub proof fn lemma_same_map<V>(s: Seq<(String, V)>, m: Map<Seq<char>, V>)
    requires
        distinct_names(s),
        forall|i: int|
            0 <= i < s.len() ==> m.contains_key(#[trigger] s[i].0@) && m[s[i].0@] == s[i].1,
        forall|k: Seq<char>| #[trigger]
            m.contains_key(k) ==> exists|i: int| 0 <= i < s.len() && #[trigger] s[i].0@ == k,
    ensures
        named(s) == m,
{
    lemma_named(s);
    assert forall|k: Seq<char>| named(s).contains_key(k) == m.contains_key(k) by {
        if named(s).contains_key(k) {
            let i = choose|i: int| 0 <= i < s.len() && #[trigger] s[i].0@ == k;
            assert(m.contains_key(s[i].0@));
        }
        if m.contains_key(k) {
            let i = choose|i: int| 0 <= i < s.len() && #[trigger] s[i].0@ == k;
            assert(named(s).contains_key(s[i].0@));
        }
    }
    assert forall|k: Seq<char>| named(s).contains_key(k) implies named(s)[k] == m[k] by {
        let i = choose|i: int| 0 <= i < s.len() && #[trigger] s[i].0@ == k;
        assert(named(s)[s[i].0@] == s[i].1);
    }
    assert(named(s) =~= m);
}

/// A map from names to values.
#[derive(Debug)]
pub struct NameMap<V> {
    entries: Vec<(String, V)>,
}

impl<V> View for NameMap<V> {
    type V = Map<Seq<char>, V>;

    closed spec fn view(&self) -> Map<Seq<char>, V> {
        named(self.entries@)
    }
}

impl<V> NameMap<V> {
    /// The entries, in the order in which they were added.
    pub closed spec fn list(self) -> Seq<(String, V)> {
        self.entries@
    }

    /// No name occurs twice.
    pub closed spec fn wf(self) -> bool {
        distinct_names(self.entries@)
    }

    /// What `wf` means of the list and of the map.
    pub proof fn lemma_wf(self)
        requires
            self.wf(),
        ensures
            self@ == named(self.list()),
            distinct_names(self.list()),
            self@.dom().finite(),
            self@.dom().len() == self.list().len(),
    {
        lemma_named(self.entries@);
    }

    /// The empty map.
    pub fn new() -> (r: Self)
        ensures
            r.wf(),
            r@ == Map::<Seq<char>, V>::empty(),
            r.list().len() == 0,
    {
        NameMap { entries: Vec::new() }
    }

    /// The number of entries.
    pub fn len(&self) -> (r: usize)
        ensures
            r == self.list().len(),
            self.wf() ==> r == self@.dom().len(),
    {
        proof {
            if self.wf() {
                self.lemma_wf();
            }
        }
        self.entries.len()
    }

    /// The name of the entry at `i`.
    pub fn name(&self, i: usize) -> (r: &String)
        requires
            i < self.list().len(),
        ensures
            *r == self.list()[i as int].0,
    {
        &self.entries[i].0
    }

    /// The value of the entry at `i`.
    pub fn value(&self, i: usize) -> (r: &V)
        requires
            i < self.list().len(),
        ensures
            *r == self.list()[i as int].1,
    {
        &self.entries[i].1
    }

    /// Where `name` is in the list.
    pub fn find(&self, name: &str) -> (r: Option<usize>)
        requires
            self.wf(),
        ensures
            r is Some == self@.contains_key(name@),
            r matches Some(i) ==> i < self.list().len() && self.list()[i as int].0@ == name@
                && self.list()[i as int].1 == self@[name@],
    {
        proof {
            lemma_named(self.entries@);
        }
        let mut i: usize = 0;
        while i < self.entries.len()
            invariant
                self.wf(),
                i <= self.entries@.len(),
                forall|j: int| 0 <= j < i ==> #[trigger] self.entries@[j].0@ != name@,
            decreases self.entries@.len() - i,
        {
            if str_eq(self.entries[i].0.as_str(), name) {
                proof {
                    lemma_named(self.entries@);
                }
                return Some(i);
            }
            i += 1;
        }
        proof {
            lemma_named(self.entries@);
            if self@.contains_key(name@) {
                let j = choose|j: int|
                    0 <= j < self.entries@.len() && #[trigger] self.entries@[j].0@ == name@;
                assert(false);
            }
        }
        None
    }

    /// The value of `name`.
    pub fn get(&self, name: &str) -> (r: Option<&V>)
        requires
            self.wf(),
        ensures
            r is Some == self@.contains_key(name@),
            r matches Some(v) ==> *v == self@[name@],
    {
        match self.find(name) {
            Some(i) => Some(&self.entries[i].1),
            None => None,
        }
    }

    /// Gives `name` the value `v`, in place of the one it may have had.
    pub fn put(&mut self, name: &str, v: V)
        requires
            old(self).wf(),
        ensures
            final(self).wf(),
            final(self)@ == old(self)@.insert(name@, v),
    {
        let ghost before = self.entries@;
        match self.find(name) {
            Some(i) => {
                let key: String = self.entries[i].0.clone();
                self.entries.set(i, (key, v));
                proof {
                    let after = self.entries@;
                    lemma_named(before);
                    let m = named(before).insert(name@, v);
                    assert forall|a: int, b: int| 0 <= a < b < after.len() implies #[trigger]
                    after[a].0@ != #[trigger] after[b].0@ by {
                        assert(before[a].0@ != before[b].0@);
                    }
                    assert forall|a: int| 0 <= a < after.len() implies m.contains_key(
                        #[trigger] after[a].0@,
                    ) && m[after[a].0@] == after[a].1 by {
                        assert(named(before)[before[a].0@] == before[a].1);
                        if a < i as int {
                            assert(before[a].0@ != before[i as int].0@);
                        }
                        if a > i as int {
                            assert(before[i as int].0@ != before[a].0@);
                        }
                    }
                    assert forall|k: Seq<char>| #[trigger] m.contains_key(k) implies exists|a: int|
                        0 <= a < after.len() && #[trigger] after[a].0@ == k by {
                        if k == name@ {
                            assert(after[i as int].0@ == k);
                        } else {
                            let a = choose|a: int|
                                0 <= a < before.len() && #[trigger] before[a].0@ == k;
                            assert(after[a].0@ == k);
                        }
                    }
                    lemma_same_map(after, m);
                }
            },
            None => {
                self.push_new(name, v);
            },
        }
    }

    /// Adds `name`, which has no value yet.
    pub fn push_new(&mut self, name: &str, v: V)
        requires
            old(self).wf(),
            !old(self)@.contains_key(name@),
        ensures
            final(self).wf(),
            final(self)@ == old(self)@.insert(name@, v),
            final(self).list().len() == old(self).list().len() + 1,
    {
        let ghost before = self.entries@;
        self.entries.push((name.to_owned(), v));
        proof {
            lemma_named(before);
            let after = self.entries@;
            assert(after.drop_last() =~= before);
            assert forall|a: int, b: int| 0 <= a < b < after.len() implies #[trigger] after[a].0@
                != #[trigger] after[b].0@ by {
                assert(after[a] == before[a]);
                if b < before.len() {
                    assert(after[b] == before[b]);
                } else {
                    assert(named(before).contains_key(before[a].0@));
                }
            }
        }
    }
}

/// What was put under a name is found under it, and nothing else is touched.
pub proof fn law_what_was_put_is_found(
    before: NameMap<u64>,
    put: NameMap<u64>,
    name: &str,
    v: u64,
    other: &str,
    found: Option<&u64>,
    was: Option<&u64>,
    is: Option<&u64>,
)
    requires
        other@ != name@,
        exists|m: &mut NameMap<u64>|
            *m == before && *final(m) == put && #[trigger] call_ensures(NameMap::<u64>::put, (m, name, v), ()),
        call_ensures(NameMap::<u64>::get, (&put, name), found),
        call_ensures(NameMap::<u64>::get, (&before, other), was),
        call_ensures(NameMap::<u64>::get, (&put, other), is),
    ensures
        found is Some && *found->0 == v,
        was is Some <==> is is Some,
        was is Some ==> *was->0 == *is->0,
{
}

} // verus!
