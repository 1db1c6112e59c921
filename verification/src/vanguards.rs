//! The small, slowly changing set of relays that hidden-service circuits use as
//! their second hop.

use crate::clock;
use crate::clock::is_now;
use crate::text::str_eq;
use vstd::prelude::*;

verus! {

/// How many second-hop relays are in use at most.
pub const MAX_LAYER2: usize = 4;

/// Seconds after which an entry is rotated out.
pub const LAYER2_LIFETIME: u64 = 864_000;

/// Seconds for which even an unreachable entry stays, so that nobody can force
/// the set to change by making its relays unreachable.
pub const LAYER2_MIN_LIFETIME: u64 = 86_400;

/// Seconds of unreachability after which an entry may go.
pub const UNREACHABLE_GRACE: u64 = 3_600;

/// One relay of the set.
#[derive(Debug, Clone, PartialEq)]
pub struct VanguardEntry {
    pub node_id_hex: String,
    pub host: String,
    pub port: u16,
    pub static_pub_hex: String,
    /// When it was added, in Unix seconds.
    pub added_at: u64,
    /// When a circuit was last built through it; 0 for never.
    pub last_used: u64,
    /// Since when it cannot be reached; 0 when it can.
    pub unreachable_since: u64,
}

/// Seconds from `then` to `now`, zero when `now` is not later.
pub open spec fn since(now: u64, then: u64) -> int {
    if now >= then {
        now - then
    } else {
        0
    }
}

impl VanguardEntry {
    /// The entry has reached its lifetime.
    pub open spec fn rotates(self, now: u64) -> bool {
        since(now, self.added_at) >= LAYER2_LIFETIME
    }

    /// The entry is unreachable for long enough, and has been in the set for
    /// long enough, to go.
    pub open spec fn may_go(self, now: u64) -> bool {
        self.unreachable_since != 0 && since(now, self.added_at) >= LAYER2_MIN_LIFETIME && since(
            now,
            self.unreachable_since,
        ) >= UNREACHABLE_GRACE
    }

    /// The entry stays in the set.
    pub open spec fn stays(self, now: u64) -> bool {
        !self.rotates(now) && !self.may_go(now)
    }

    /// The entry can be used for a circuit.
    pub open spec fn usable(self, now: u64) -> bool {
        !self.rotates(now) && self.unreachable_since == 0
    }

    /// Whether the entry has reached its lifetime.
    pub fn should_rotate(&self, now: u64) -> (r: bool)
        ensures
            r == self.rotates(now),
    {
        now.saturating_sub(self.added_at) >= LAYER2_LIFETIME
    }

    /// Whether the entry is unreachable and no longer protected from removal.
    pub fn should_remove_unreachable(&self, now: u64) -> (r: bool)
        ensures
            r == self.may_go(now),
    {
        if self.unreachable_since == 0 {
            return false;
        }
        let age: u64 = now.saturating_sub(self.added_at);
        let unreachable_for: u64 = now.saturating_sub(self.unreachable_since);
        age >= LAYER2_MIN_LIFETIME && unreachable_for >= UNREACHABLE_GRACE
    }

    /// A copy of the entry.
    pub fn duplicate(&self) -> (r: Self)
        ensures
            r == *self,
    {
        VanguardEntry {
            node_id_hex: self.node_id_hex.clone(),
            host: self.host.clone(),
            port: self.port,
            static_pub_hex: self.static_pub_hex.clone(),
            added_at: self.added_at,
            last_used: self.last_used,
            unreachable_since: self.unreachable_since,
        }
    }
}

/// The entries that stay at the time `now`, in order.
pub open spec fn staying(s: Seq<VanguardEntry>, now: u64) -> Seq<VanguardEntry> {
    s.filter(|e: VanguardEntry| e.stays(now))
}

/// The entries that can be used at the time `now`, in order.
pub open spec fn usable_entries(s: Seq<VanguardEntry>, now: u64) -> Seq<VanguardEntry> {
    s.filter(|e: VanguardEntry| e.usable(now))
}

/// An entry of `s` is the relay `id`.
pub open spec fn has_id(s: Seq<VanguardEntry>, id: Seq<char>) -> bool {
    exists|i: int| 0 <= i < s.len() && (#[trigger] s[i]).node_id_hex@ == id
}

/// No relay is in the set twice.
pub open spec fn distinct_ids(s: Seq<VanguardEntry>) -> bool {
    forall|i: int, j: int|
        0 <= i < j < s.len() ==> (#[trigger] s[i]).node_id_hex@ != (#[trigger] s[j]).node_id_hex@
}

/// A candidate as it enters the set.
pub open spec fn is_fresh_entry(
    e: VanguardEntry,
    id: Seq<char>,
    host: Seq<char>,
    port: u16,
    static_pub: Seq<char>,
    now: u64,
) -> bool {
    &&& e.node_id_hex@ == id
    &&& e.host@ == host
    &&& e.port == port
    &&& e.static_pub_hex@ == static_pub
    &&& e.added_at == now
    &&& e.last_used == 0
    &&& e.unreachable_since == 0
}

/// `after` and `r` are the outcome of offering a candidate at the time `now`.
pub open spec fn offered(
    before: Seq<VanguardEntry>,
    id: Seq<char>,
    host: Seq<char>,
    port: u16,
    static_pub: Seq<char>,
    now: u64,
    after: Seq<VanguardEntry>,
    r: bool,
) -> bool {
    if has_id(before, id) {
        !r && after == before
    } else if staying(before, now).len() >= MAX_LAYER2 {
        !r && after == staying(before, now)
    } else {
        r && after.len() == staying(before, now).len() + 1 && after.drop_last() == staying(
            before,
            now,
        ) && is_fresh_entry(after.last(), id, host, port, static_pub, now)
    }
}

/// `r` is a usable entry that was used last, the hindmost of several; nothing
/// when no entry is usable.
pub open spec fn picked(s: Seq<VanguardEntry>, now: u64, r: Option<VanguardEntry>) -> bool {
    match r {
        None => forall|i: int| 0 <= i < s.len() ==> !(#[trigger] s[i]).usable(now),
        Some(e) => exists|i: int|
            0 <= i < s.len() && #[trigger] s[i] == e && e.usable(now) && (forall|j: int|
                0 <= j < s.len() && (#[trigger] s[j]).usable(now) ==> s[j].last_used <= e.last_used
                    && (j > i ==> s[j].last_used < e.last_used)),
    }
}

/// `after` is `before` with the first entry for which `hit` holds replaced by
/// what `change` makes of it; `before` itself when there is none.
pub open spec fn first_changed(
    before: Seq<VanguardEntry>,
    after: Seq<VanguardEntry>,
    hit: spec_fn(VanguardEntry) -> bool,
    change: spec_fn(VanguardEntry) -> VanguardEntry,
) -> bool {
    ||| after == before && forall|i: int| 0 <= i < before.len() ==> !hit(#[trigger] before[i])
    ||| exists|i: int|
        0 <= i < before.len() && hit(#[trigger] before[i]) && (forall|j: int|
            0 <= j < i ==> !hit(#[trigger] before[j])) && after == before.update(
            i,
            change(before[i]),
        )
}

/// The entry after a circuit was built through it at the time `now`.
pub open spec fn used(e: VanguardEntry, now: u64) -> VanguardEntry {
    VanguardEntry { last_used: now, unreachable_since: 0, ..e }
}

/// The entry after it was found unreachable at the time `now`.
pub open spec fn unreachable(e: VanguardEntry, now: u64) -> VanguardEntry {
    VanguardEntry { unreachable_since: now, ..e }
}

/// `after` is the outcome of recording that `id` was used at the time `now`.
pub open spec fn used_recorded(
    before: Seq<VanguardEntry>,
    after: Seq<VanguardEntry>,
    id: Seq<char>,
    now: u64,
) -> bool {
    first_changed(
        before,
        after,
        |e: VanguardEntry| e.node_id_hex@ == id,
        |e: VanguardEntry| used(e, now),
    )
}

/// `after` is the outcome of recording that `id` was found unreachable at the
/// time `now`: an entry that is unreachable already keeps its time.
pub open spec fn unreachable_recorded(
    before: Seq<VanguardEntry>,
    after: Seq<VanguardEntry>,
    id: Seq<char>,
    now: u64,
) -> bool {
    first_changed(
        before,
        after,
        |e: VanguardEntry| e.node_id_hex@ == id && e.unreachable_since == 0,
        |e: VanguardEntry| unreachable(e, now),
    )
}

proof fn lemma_filter_push<A>(s: Seq<A>, i: int, keep: spec_fn(A) -> bool)
    requires
        0 <= i < s.len(),
    ensures
        s.take(i + 1).filter(keep) == if keep(s[i]) {
            s.take(i).filter(keep).push(s[i])
        } else {
            s.take(i).filter(keep)
        },
{
    reveal(Seq::filter);
    assert(s.take(i + 1).drop_last() =~= s.take(i));
}

proof fn lemma_filter_indices<A>(s: Seq<A>, keep: spec_fn(A) -> bool) -> (ix: Seq<int>)
    ensures
        ix.len() == s.filter(keep).len(),
        s.filter(keep).len() <= s.len(),
        forall|a: int|
            0 <= a < ix.len() ==> 0 <= #[trigger] ix[a] < s.len() && s[ix[a]] == s.filter(keep)[a]
                && keep(s[ix[a]]),
        forall|a: int, b: int| 0 <= a < b < ix.len() ==> #[trigger] ix[a] < #[trigger] ix[b],
    decreases s.len(),
{
    reveal(Seq::filter);
    if s.len() == 0 {
        Seq::empty()
    } else {
        let ix = lemma_filter_indices(s.drop_last(), keep);
        if keep(s.last()) {
            ix.push(s.len() - 1)
        } else {
            ix
        }
    }
}

/// Offering a candidate, recording a use, recording unreachability and
/// maintenance keep every relay in the set at most once.
pub proof fn law_no_relay_is_listed_twice(
    before: Seq<VanguardEntry>,
    after: Seq<VanguardEntry>,
    id: Seq<char>,
    host: Seq<char>,
    port: u16,
    static_pub: Seq<char>,
    now: u64,
    r: bool,
)
    requires
        distinct_ids(before),
        offered(before, id, host, port, static_pub, now, after, r) || used_recorded(
            before,
            after,
            id,
            now,
        ) || unreachable_recorded(before, after, id, now) || after == staying(before, now),
    ensures
        distinct_ids(after),
{
    let keep = |e: VanguardEntry| e.stays(now);
    let ix = lemma_filter_indices(before, keep);
    let rest = staying(before, now);
    assert(distinct_ids(rest)) by {
        assert forall|i: int, j: int| 0 <= i < j < rest.len() implies (#[trigger]
        rest[i]).node_id_hex@ != (#[trigger] rest[j]).node_id_hex@ by {
            assert(ix[i] < ix[j]);
            assert(before[ix[i]].node_id_hex@ != before[ix[j]].node_id_hex@);
        }
    }
    if offered(before, id, host, port, static_pub, now, after, r) && r {
        assert forall|i: int, j: int| 0 <= i < j < after.len() implies (#[trigger]
        after[i]).node_id_hex@ != (#[trigger] after[j]).node_id_hex@ by {
            assert(after[i] == after.drop_last()[i]);
            if j < rest.len() {
                assert(after[j] == after.drop_last()[j]);
            } else {
                assert(before[ix[i]].node_id_hex@ != id);
            }
        }
    } else if after != rest && after != before {
        assert forall|i: int, j: int| 0 <= i < j < after.len() implies (#[trigger]
        after[i]).node_id_hex@ != (#[trigger] after[j]).node_id_hex@ by {
            assert(before[i].node_id_hex@ != before[j].node_id_hex@);
        }
    }
}

/// The set never grows beyond its limit.
pub proof fn law_the_set_stays_small(
    before: Seq<VanguardEntry>,
    after: Seq<VanguardEntry>,
    id: Seq<char>,
    host: Seq<char>,
    port: u16,
    static_pub: Seq<char>,
    now: u64,
    r: bool,
)
    requires
        before.len() <= MAX_LAYER2,
        offered(before, id, host, port, static_pub, now, after, r) || used_recorded(
            before,
            after,
            id,
            now,
        ) || unreachable_recorded(before, after, id, now) || after == staying(before, now),
    ensures
        after.len() <= MAX_LAYER2,
{
    let ix = lemma_filter_indices(before, |e: VanguardEntry| e.stays(now));
}

/// An entry that is younger than the minimum lifetime is never removed,
/// whatever is recorded of it.
pub proof fn law_young_entries_stay(e: VanguardEntry, now: u64)
    requires
        since(now, e.added_at) < LAYER2_MIN_LIFETIME,
    ensures
        e.stays(now),
{
}

/// The set of second-hop relays.
pub struct Vanguards {
    pub entries: Vec<VanguardEntry>,
}

impl Vanguards {
    /// An empty set.
    pub fn new_test() -> (r: Self)
        ensures
            r.entries@.len() == 0,
    {
        Vanguards { entries: Vec::new() }
    }

    /// The set with these entries, as they were stored.
    pub fn from_entries(entries: Vec<VanguardEntry>) -> (r: Self)
        ensures
            r.entries == entries,
    {
        Vanguards { entries }
    }

    /// A copy of the entries.
    pub fn list(&self) -> (r: Vec<VanguardEntry>)
        ensures
            r@ == self.entries@,
    {
        let mut out: Vec<VanguardEntry> = Vec::new();
        let mut i: usize = 0;
        while i < self.entries.len()
            invariant
                i <= self.entries@.len(),
                out@ == self.entries@.take(i as int),
            decreases self.entries@.len() - i,
        {
            out.push(self.entries[i].duplicate());
            i += 1;
            assert(out@ =~= self.entries@.take(i as int));
        }
        assert(out@ =~= self.entries@);
        out
    }

    /// How many entries can be used.
    pub fn active_count(&self) -> (r: usize)
        ensures
            exists|now: u64| is_now(now) && r == (#[trigger] usable_entries(self.entries@, now)).len(),
    {
        let now: u64 = clock::now();
        self.active_count_at(now)
    }

    /// How many entries can be used at the time `now`.
    pub fn active_count_at(&self, now: u64) -> (r: usize)
        ensures
            r == usable_entries(self.entries@, now).len(),
    {
        let ghost keep = |e: VanguardEntry| e.usable(now);
        let mut r: usize = 0;
        let mut i: usize = 0;
        proof {
            reveal(Seq::filter);
            assert(self.entries@.take(0) =~= Seq::empty());
        }
        while i < self.entries.len()
            invariant
                i <= self.entries@.len(),
                r <= i,
                keep == (|e: VanguardEntry| e.usable(now)),
                r == self.entries@.take(i as int).filter(keep).len(),
            decreases self.entries@.len() - i,
        {
            proof {
                lemma_filter_push(self.entries@, i as int, keep);
            }
            if !self.entries[i].should_rotate(now) && self.entries[i].unreachable_since == 0 {
                r += 1;
            }
            i += 1;
        }
        assert(self.entries@.take(i as int) =~= self.entries@);
        r
    }

    /// Offers a candidate. True when it was added: the relay was not in the set
    /// and there was room, after entries whose time has come were dropped.
    pub fn add_candidate(
        &mut self,
        node_id_hex: &str,
        host: &str,
        port: u16,
        static_pub_hex: &str,
    ) -> (r: bool)
        ensures
            exists|now: u64| is_now(now) && #[trigger]
                offered(
                    old(self).entries@,
                    node_id_hex@,
                    host@,
                    port,
                    static_pub_hex@,
                    now,
                    final(self).entries@,
                    r,
                ),
    {
        let now: u64 = clock::now();
        self.add_candidate_at(node_id_hex, host, port, static_pub_hex, now)
    }

    /// Offers a candidate at the time `now`.
    pub fn add_candidate_at(
        &mut self,
        node_id_hex: &str,
        host: &str,
        port: u16,
        static_pub_hex: &str,
        now: u64,
    ) -> (r: bool)
        ensures
            offered(
                old(self).entries@,
                node_id_hex@,
                host@,
                port,
                static_pub_hex@,
                now,
                final(self).entries@,
                r,
            ),
    {
        let mut i: usize = 0;
        while i < self.entries.len()
            invariant
                i <= self.entries@.len(),
                forall|j: int|
                    0 <= j < i ==> (#[trigger] self.entries@[j]).node_id_hex@ != node_id_hex@,
            decreases self.entries@.len() - i,
        {
            if str_eq(self.entries[i].node_id_hex.as_str(), node_id_hex) {
                assert(self.entries@[i as int].node_id_hex@ == node_id_hex@);
                return false;
            }
            i += 1;
        }
        let ghost before = self.entries@;
        self.retain_staying(now);
        if self.entries.len() >= MAX_LAYER2 {
            return false;
        }
        self.entries.push(
            VanguardEntry {
                node_id_hex: node_id_hex.to_owned(),
                host: host.to_owned(),
                port,
                static_pub_hex: static_pub_hex.to_owned(),
                added_at: now,
                last_used: 0,
                unreachable_since: 0,
            },
        );
        assert(self.entries@.drop_last() =~= staying(before, now));
        true
    }

    /// Keeps the entries that stay at the time `now`.
    fn retain_staying(&mut self, now: u64)
        ensures
            final(self).entries@ == staying(old(self).entries@, now),
    {
        let ghost keep = |e: VanguardEntry| e.stays(now);
        let mut kept: Vec<VanguardEntry> = Vec::new();
        let mut i: usize = 0;
        proof {
            reveal(Seq::filter);
            assert(self.entries@.take(0) =~= Seq::empty());
        }
        while i < self.entries.len()
            invariant
                i <= self.entries@.len(),
                keep == (|e: VanguardEntry| e.stays(now)),
                kept@ == self.entries@.take(i as int).filter(keep),
            decreases self.entries@.len() - i,
        {
            proof {
                lemma_filter_push(self.entries@, i as int, keep);
            }
            if !self.entries[i].should_rotate(now) && !self.entries[i].should_remove_unreachable(
                now,
            ) {
                kept.push(self.entries[i].duplicate());
            }
            i += 1;
        }
        assert(self.entries@.take(i as int) =~= self.entries@);
        self.entries = kept;
    }

    /// The entry to use for the second hop: the one used last, since it is known
    /// to work.
    pub fn pick_layer2(&self) -> (r: Option<VanguardEntry>)
        ensures
            exists|now: u64| is_now(now) && #[trigger] picked(self.entries@, now, r),
    {
        let now: u64 = clock::now();
        self.pick_layer2_at(now)
    }

    /// The entry to use for the second hop at the time `now`.
    pub fn pick_layer2_at(&self, now: u64) -> (r: Option<VanguardEntry>)
        ensures
            picked(self.entries@, now, r),
    {
        let ghost s = self.entries@;
        let mut best: Option<usize> = None;
        let mut i: usize = 0;
        while i < self.entries.len()
            invariant
                s == self.entries@,
                i <= s.len(),
                match best {
                    None => forall|j: int| 0 <= j < i ==> !(#[trigger] s[j]).usable(now),
                    Some(b) => b < i && s[b as int].usable(now) && forall|j: int|
                        0 <= j < i && (#[trigger] s[j]).usable(now) ==> s[j].last_used
                            <= s[b as int].last_used && (j > b ==> s[j].last_used
                            < s[b as int].last_used),
                },
            decreases s.len() - i,
        {
            if !self.entries[i].should_rotate(now) && self.entries[i].unreachable_since == 0 {
                match best {
                    None => {
                        best = Some(i);
                    },
                    Some(b) => {
                        if self.entries[i].last_used >= self.entries[b].last_used {
                            best = Some(i);
                        }
                    },
                }
            }
            i += 1;
        }
        match best {
            None => None,
            Some(b) => {
                assert(s[b as int].usable(now));
                Some(self.entries[b].duplicate())
            },
        }
    }

    /// Records that a circuit was built through a relay.
    pub fn mark_used(&mut self, node_id_hex: &str)
        ensures
            exists|now: u64| is_now(now) && #[trigger]
                used_recorded(old(self).entries@, final(self).entries@, node_id_hex@, now),
    {
        let now: u64 = clock::now();
        self.mark_used_at(node_id_hex, now)
    }

    /// Records that a circuit was built through a relay at the time `now`.
    pub fn mark_used_at(&mut self, node_id_hex: &str, now: u64)
        ensures
            used_recorded(old(self).entries@, final(self).entries@, node_id_hex@, now),
    {
        let ghost before = self.entries@;
        let mut i: usize = 0;
        while i < self.entries.len()
            invariant
                self.entries@ == before,
                before == old(self).entries@,
                i <= before.len(),
                forall|j: int| 0 <= j < i ==> (#[trigger] before[j]).node_id_hex@ != node_id_hex@,
            decreases before.len() - i,
        {
            if str_eq(self.entries[i].node_id_hex.as_str(), node_id_hex) {
                let mut e: VanguardEntry = self.entries[i].duplicate();
                e.last_used = now;
                e.unreachable_since = 0;
                self.entries.set(i, e);
                assert(self.entries@ =~= before.update(i as int, used(before[i as int], now)));
                assert(before[i as int].node_id_hex@ == node_id_hex@);
                return;
            }
            i += 1;
        }
    }

    /// Records that a relay cannot be reached.
    pub fn mark_unreachable(&mut self, node_id_hex: &str)
        ensures
            exists|now: u64| is_now(now) && #[trigger]
                unreachable_recorded(
                    old(self).entries@,
                    final(self).entries@,
                    node_id_hex@,
                    now,
                ),
    {
        let now: u64 = clock::now();
        self.mark_unreachable_at(node_id_hex, now)
    }

    /// Records that a relay cannot be reached at the time `now`.
    pub fn mark_unreachable_at(&mut self, node_id_hex: &str, now: u64)
        ensures
            unreachable_recorded(old(self).entries@, final(self).entries@, node_id_hex@, now),
    {
        let ghost before = self.entries@;
        let mut i: usize = 0;
        while i < self.entries.len()
            invariant
                self.entries@ == before,
                before == old(self).entries@,
                i <= before.len(),
                forall|j: int|
                    0 <= j < i ==> !((#[trigger] before[j]).node_id_hex@ == node_id_hex@
                        && before[j].unreachable_since == 0),
            decreases before.len() - i,
        {
            if str_eq(self.entries[i].node_id_hex.as_str(), node_id_hex)
                && self.entries[i].unreachable_since == 0 {
                let mut e: VanguardEntry = self.entries[i].duplicate();
                e.unreachable_since = now;
                self.entries.set(i, e);
                assert(self.entries@ =~= before.update(i as int, unreachable(before[i as int], now)));
                assert(before[i as int].node_id_hex@ == node_id_hex@);
                return;
            }
            i += 1;
        }
    }

    /// Drops entries whose time has come. Returns how many those were.
    pub fn maintain(&mut self) -> (r: usize)
        ensures
            exists|now: u64| is_now(now) && final(self).entries@ == #[trigger] staying(old(self).entries@, now),
            r + final(self).entries@.len() == old(self).entries@.len(),
    {
        let now: u64 = clock::now();
        self.maintain_at(now)
    }

    /// Drops entries whose time has come at the time `now`.
    pub fn maintain_at(&mut self, now: u64) -> (r: usize)
        ensures
            final(self).entries@ == staying(old(self).entries@, now),
            r + final(self).entries@.len() == old(self).entries@.len(),
    {
        let before: usize = self.entries.len();
        proof {
            let ix = lemma_filter_indices(self.entries@, |e: VanguardEntry| e.stays(now));
        }
        self.retain_staying(now);
        before - self.entries.len()
    }
}

/// An entry is rotated out once it has been in the set for ten days, and goes earlier
/// only after a day in the set and an hour of being out of reach. A clock that was set
/// back removes nothing.
pub proof fn law_when_an_entry_goes(e: VanguardEntry, now: u64, rotate: bool, remove: bool)
    requires
        call_ensures(VanguardEntry::should_rotate, (&e, now), rotate),
        call_ensures(VanguardEntry::should_remove_unreachable, (&e, now), remove),
    ensures
        rotate <==> now >= e.added_at + 10 * 24 * 60 * 60,
        remove <==> e.unreachable_since != 0 && now >= e.added_at + 24 * 60 * 60 && now
            >= e.unreachable_since + 60 * 60,
        now < e.added_at ==> !rotate && !remove,
{
}

/// A candidate that was taken is in the set from then on, last, as it was offered,
/// unused and within reach; offering it again at once changes nothing.
pub proof fn law_a_candidate_is_taken_once(
    before: Vanguards,
    between: Vanguards,
    after: Vanguards,
    id: &str,
    host: &str,
    port: u16,
    static_pub: &str,
    now: u64,
    later: u64,
    again: bool,
)
    requires
        exists|v: &mut Vanguards|
            *v == before && *final(v) == between && #[trigger] call_ensures(
                Vanguards::add_candidate_at,
                (v, id, host, port, static_pub, now),
                true,
            ),
        exists|v: &mut Vanguards|
            *v == between && *final(v) == after && #[trigger] call_ensures(
                Vanguards::add_candidate_at,
                (v, id, host, port, static_pub, later),
                again,
            ),
    ensures
        between.entries@.len() > 0,
        between.entries@.last().node_id_hex@ == id@,
        between.entries@.last().host@ == host@,
        between.entries@.last().port == port,
        between.entries@.last().static_pub_hex@ == static_pub@,
        between.entries@.last().added_at == now,
        between.entries@.last().last_used == 0,
        between.entries@.last().unreachable_since == 0,
        !again,
        after.entries@ == between.entries@,
{
    assert(between.entries@[between.entries@.len() - 1].node_id_hex@ == id@);
}

/// A candidate is refused only where it is in the set already, or where four others
/// are and none of them goes; an empty set takes any.
pub proof fn law_when_a_candidate_is_refused(
    before: Vanguards,
    after: Vanguards,
    id: &str,
    host: &str,
    port: u16,
    static_pub: &str,
    now: u64,
    r: bool,
)
    requires
        exists|v: &mut Vanguards|
            *v == before && *final(v) == after && #[trigger] call_ensures(
                Vanguards::add_candidate_at,
                (v, id, host, port, static_pub, now),
                r,
            ),
    ensures
        (exists|i: int| 0 <= i < before.entries@.len() && (#[trigger] before.entries@[i]).node_id_hex@ == id@)
            ==> !r && after.entries@ == before.entries@,
        before.entries@.len() < 4 && (forall|i: int|
            0 <= i < before.entries@.len() ==> (#[trigger] before.entries@[i]).node_id_hex@ != id@) ==> r,
        !r ==> has_id(before.entries@, id@) || before.entries@.len() >= 4,
        before.entries@.len() <= 4 ==> after.entries@.len() <= 4,
{
    let ix = lemma_filter_indices(before.entries@, |e: VanguardEntry| e.stays(now));
}

/// The second hop is a relay of the set that can be reached and has not had its ten
/// days, and no such relay was used later. There is one exactly where some can be
/// used.
pub proof fn law_the_second_hop_is_the_last_used(v: Vanguards, now: u64, r: Option<VanguardEntry>, n: usize)
    requires
        call_ensures(Vanguards::pick_layer2_at, (&v, now), r),
        call_ensures(Vanguards::active_count_at, (&v, now), n),
    ensures
        r is Some <==> n > 0,
        r is Some ==> v.entries@.contains(r->0),
        r is Some ==> r->0.unreachable_since == 0 && now < r->0.added_at + 864_000,
        r is Some ==> forall|i: int|
            0 <= i < v.entries@.len() && (#[trigger] v.entries@[i]).unreachable_since == 0 && now
                < v.entries@[i].added_at + 864_000 ==> v.entries@[i].last_used <= r->0.last_used,
        r is None ==> forall|i: int|
            0 <= i < v.entries@.len() ==> (#[trigger] v.entries@[i]).unreachable_since != 0 || now
                >= v.entries@[i].added_at + 864_000,
{
    let s = v.entries@;
    let keep = |e: VanguardEntry| e.usable(now);
    let ix = lemma_filter_indices(s, keep);
    broadcast use vstd::seq_lib::group_filter_ensures;

    if n > 0 {
        assert(s[ix[0]].usable(now));
    }
    if let Some(e) = r {
        let i = choose|i: int| 0 <= i < s.len() && #[trigger] s[i] == e && e.usable(now);
        assert(keep(s[i]));
        assert(s.filter(keep).contains(s[i]));
    }
}

/// The relay that a circuit was built through just now is the one to use next, unless
/// another was used later or its time is over; whatever made it unreachable before is
/// forgotten.
pub proof fn law_what_worked_is_used_again(
    before: Vanguards,
    after: Vanguards,
    id: &str,
    now: u64,
    r: Option<VanguardEntry>,
)
    requires
        distinct_ids(before.entries@),
        forall|i: int| 0 <= i < before.entries@.len() ==> (#[trigger] before.entries@[i]).last_used < now,
        exists|i: int|
            0 <= i < before.entries@.len() && (#[trigger] before.entries@[i]).node_id_hex@ == id@ && now
                < before.entries@[i].added_at + 864_000,
        exists|v: &mut Vanguards|
            *v == before && *final(v) == after && #[trigger] call_ensures(
                Vanguards::mark_used_at,
                (v, id, now),
                (),
            ),
        call_ensures(Vanguards::pick_layer2_at, (&after, now), r),
    ensures
        r is Some && r->0.node_id_hex@ == id@ && r->0.last_used == now && r->0.unreachable_since == 0,
{
    let i = choose|i: int|
        0 <= i < before.entries@.len() && (#[trigger] before.entries@[i]).node_id_hex@ == id@ && now
            < before.entries@[i].added_at + 864_000;
    assert(before.entries@[i].node_id_hex@ == id@);
    assert(after.entries@[i] == used(before.entries@[i], now));
    assert(after.entries@[i].usable(now));
    if let Some(e) = r {
        let k = choose|k: int| 0 <= k < after.entries@.len() && #[trigger] after.entries@[k] == e
            && e.usable(now);
        assert(after.entries@[i].last_used <= e.last_used);
        if k != i {
            assert(after.entries@[k] == before.entries@[k]);
        }
    }
}

/// A relay that was found unreachable is not used until a circuit was built through
/// it, and the time since which it is out of reach does not start anew.
pub proof fn law_what_is_out_of_reach_is_not_used(
    before: Vanguards,
    between: Vanguards,
    after: Vanguards,
    id: &str,
    now: u64,
    later: u64,
    r: Option<VanguardEntry>,
)
    requires
        distinct_ids(before.entries@),
        now > 0,
        exists|v: &mut Vanguards|
            *v == before && *final(v) == between && #[trigger] call_ensures(
                Vanguards::mark_unreachable_at,
                (v, id, now),
                (),
            ),
        exists|v: &mut Vanguards|
            *v == between && *final(v) == after && #[trigger] call_ensures(
                Vanguards::mark_unreachable_at,
                (v, id, later),
                (),
            ),
        call_ensures(Vanguards::pick_layer2_at, (&between, later), r),
    ensures
        r is Some ==> r->0.node_id_hex@ != id@,
        after.entries@ == between.entries@,
        between.entries@.len() == before.entries@.len(),
        forall|i: int|
            0 <= i < before.entries@.len() ==> {
                let e = #[trigger] before.entries@[i];
                between.entries@[i] == if e.node_id_hex@ == id@ && e.unreachable_since == 0 {
                    VanguardEntry { unreachable_since: now, ..e }
                } else {
                    e
                }
            },
{
    let s = before.entries@;
    let t = between.entries@;
    assert forall|i: int| 0 <= i < s.len() implies {
        let e = #[trigger] s[i];
        t[i] == if e.node_id_hex@ == id@ && e.unreachable_since == 0 {
            VanguardEntry { unreachable_since: now, ..e }
        } else {
            e
        }
    } by {
    }
    assert forall|i: int| 0 <= i < t.len() implies !((#[trigger] t[i]).node_id_hex@ == id@
        && t[i].unreachable_since == 0) by {
        assert(s[i].node_id_hex@ == t[i].node_id_hex@);
    }
}

/// Maintenance drops nothing but the entries whose time has come, keeps the rest in
/// order, and says how many it dropped; done twice at one time it drops nothing more.
pub proof fn law_maintenance_drops_what_is_due(
    before: Vanguards,
    between: Vanguards,
    after: Vanguards,
    now: u64,
    gone: usize,
    more: usize,
)
    requires
        exists|v: &mut Vanguards|
            *v == before && *final(v) == between && #[trigger] call_ensures(
                Vanguards::maintain_at,
                (v, now),
                gone,
            ),
        exists|v: &mut Vanguards|
            *v == between && *final(v) == after && #[trigger] call_ensures(
                Vanguards::maintain_at,
                (v, now),
                more,
            ),
    ensures
        gone + between.entries@.len() == before.entries@.len(),
        forall|e: VanguardEntry| #[trigger]
            between.entries@.contains(e) <==> before.entries@.contains(e) && now < e.added_at + 864_000 && !(
            e.unreachable_since != 0 && now >= e.added_at + 86_400 && now >= e.unreachable_since + 3_600),
        more == 0,
        after.entries@ == between.entries@,
{
    let s = before.entries@;
    let keep = |e: VanguardEntry| e.stays(now);
    broadcast use vstd::seq_lib::group_filter_ensures;

    let t = between.entries@;
    assert forall|e: VanguardEntry| #[trigger] t.contains(e) <==> s.contains(e) && e.stays(now) by {
        if t.contains(e) {
            let i = choose|i: int| 0 <= i < t.len() && t[i] == e;
            let ix = lemma_filter_indices(s, keep);
            assert(s[ix[i]] == e);
        }
        if s.contains(e) && e.stays(now) {
            let i = choose|i: int| 0 <= i < s.len() && s[i] == e;
            assert(keep(s[i]));
            assert(s.filter(keep).contains(s[i]));
        }
    }
    lemma_filter_all(t, keep);
}

proof fn lemma_filter_all<A>(s: Seq<A>, keep: spec_fn(A) -> bool)
    requires
        forall|i: int| 0 <= i < s.len() ==> keep(#[trigger] s[i]),
    ensures
        s.filter(keep) == s,
    decreases s.len(),
{
    reveal(Seq::filter);
    if s.len() > 0 {
        lemma_filter_all(s.drop_last(), keep);
        assert(s.drop_last().push(s.last()) =~= s);
    } else {
        assert(s.filter(keep) =~= s);
    }
}

/// By the wall clock too a candidate that was taken is in the set, as old as the clock said,
/// and the second hop is one that can be used then.
pub proof fn law_the_clock_tells_the_age(
    before: Vanguards,
    after: Vanguards,
    id: &str,
    host: &str,
    port: u16,
    static_pub: &str,
    pick: Option<VanguardEntry>,
    used: Vanguards,
    lost: Vanguards,
    k: int,
)
    requires
        exists|v: &mut Vanguards|
            *v == before && *final(v) == after && #[trigger] call_ensures(
                Vanguards::add_candidate,
                (v, id, host, port, static_pub),
                true,
            ),
        call_ensures(Vanguards::pick_layer2, (&after,), pick),
        0 <= k < after.entries@.len(),
        after.entries@[k].node_id_hex@ == id@,
        distinct_ids(after.entries@),
        after.entries@[k].unreachable_since == 0,
        exists|v: &mut Vanguards|
            *v == after && *final(v) == used && #[trigger] call_ensures(Vanguards::mark_used, (v, id), ()),
        exists|v: &mut Vanguards|
            *v == after && *final(v) == lost && #[trigger] call_ensures(Vanguards::mark_unreachable, (v, id), ()),
    ensures
        is_now(after.entries@.last().added_at),
        pick is Some ==> exists|t: u64| #[trigger] is_now(t) && pick->0.unreachable_since == 0 && t < pick->0.added_at
            + 864_000,
        is_now(used.entries@[k].last_used),
        is_now(lost.entries@[k].unreachable_since),
{
    let t = choose|t: u64| is_now(t) && #[trigger] picked(after.entries@, t, pick);
    assert(picked(after.entries@, t, pick));
    assert(is_now(t));
    assert(after.entries@[k].node_id_hex@ == id@);
    let u = choose|u: u64| is_now(u) && #[trigger] used_recorded(after.entries@, used.entries@, id@, u);
    assert(used_recorded(after.entries@, used.entries@, id@, u));
    let l = choose|l: u64| is_now(l) && #[trigger] unreachable_recorded(after.entries@, lost.entries@, id@, l);
    assert(unreachable_recorded(after.entries@, lost.entries@, id@, l));
    lemma_only_one(after.entries@, id@, k);
}

proof fn lemma_only_one(s: Seq<VanguardEntry>, id: Seq<char>, k: int)
    requires
        distinct_ids(s),
        0 <= k < s.len(),
        s[k].node_id_hex@ == id,
    ensures
        forall|i: int| 0 <= i < s.len() && (#[trigger] s[i]).node_id_hex@ == id ==> i == k,
{
    assert forall|i: int| 0 <= i < s.len() && (#[trigger] s[i]).node_id_hex@ == id implies i == k by {
        if i < k {
            assert(s[i].node_id_hex@ != s[k].node_id_hex@);
        } else if i > k {
            assert(s[k].node_id_hex@ != s[i].node_id_hex@);
        }
    }
}

/// By the wall clock maintenance drops what is due then, and as many can be used as are not.
pub proof fn law_the_clock_tells_what_is_due(before: Vanguards, after: Vanguards, gone: usize, n: usize)
    requires
        exists|v: &mut Vanguards|
            *v == before && *final(v) == after && #[trigger] call_ensures(Vanguards::maintain, (v,), gone),
        call_ensures(Vanguards::active_count, (&before,), n),
    ensures
        exists|t: u64| #[trigger] is_now(t) && forall|i: int|
            0 <= i < after.entries@.len() ==> t < (#[trigger] after.entries@[i]).added_at + 864_000,
        gone + after.entries@.len() == before.entries@.len(),
        n <= before.entries@.len(),
{
    let t = choose|t: u64| is_now(t) && after.entries@ == #[trigger] staying(before.entries@, t);
    let ix = lemma_filter_indices(before.entries@, |e: VanguardEntry| e.stays(t));
    assert(is_now(t));
    assert forall|i: int| 0 <= i < after.entries@.len() implies t < (#[trigger] after.entries@[i]).added_at + 864_000 by {
        assert(before.entries@[ix[i]] == after.entries@[i]);
    }
    let u = choose|u: u64| is_now(u) && n == (#[trigger] usable_entries(before.entries@, u)).len();
    let iy = lemma_filter_indices(before.entries@, |e: VanguardEntry| e.usable(u));
}

} // verus!
