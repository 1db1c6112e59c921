//! Which messages were already processed, so that none is processed twice.
//!
//! An entry counts until it expires. The number of entries is bounded: a full
//! cache drops what has expired, and if that is not enough the tenth of its
//! capacity that expires soonest.

use crate::clock;
use crate::clock::is_now;
use crate::names;
use crate::names::NameMap;
use vstd::prelude::*;

verus! {

/// The number of entries at which the cache makes room.
pub const REPLAY_MAX_ENTRIES: usize = 100_000;

/// How many entries a full cache drops when none has expired.
pub const REPLAY_DROP: usize = 10_000;

/// The number of log lines above which the log is worth rewriting.
pub const REPLAY_COMPACT_LINES: usize = 50_000;

/// The entries that have not expired at the time `now`.
pub open spec fn unexpired(m: Map<Seq<char>, u64>, now: u64) -> Map<Seq<char>, u64> {
    Map::new(|k: Seq<char>| m.contains_key(k) && m[k] > now, |k: Seq<char>| m[k])
}

/// `m` after the entries of the log `s` that have not expired were taken over, one by
/// one.
pub open spec fn loaded(m: Map<Seq<char>, u64>, s: Seq<(String, u64)>, now: u64) -> Map<Seq<char>, u64>
    decreases s.len(),
{
    if s.len() == 0 {
        m
    } else {
        let before = loaded(m, s.drop_last(), now);
        if s.last().1 > now {
            before.insert(s.last().0@, s.last().1)
        } else {
            before
        }
    }
}

/// A cache survives a restart: a log that was rewritten from the cache `m` at the time
/// `then` brings back every entry that has not expired since, and no other.
pub proof fn law_the_cache_survives_a_restart(
    m: Map<Seq<char>, u64>,
    s: Seq<(String, u64)>,
    then: u64,
    now: u64,
)
    requires
        names::distinct_names(s),
        names::named(s) == unexpired(m, then),
        then <= now,
    ensures
        loaded(Map::empty(), s, now) == unexpired(m, now),
{
    lemma_loaded(s, now);
    assert(unexpired(unexpired(m, then), now) =~= unexpired(m, now));
}

/// A log without repetitions brings back what has not expired.
proof fn lemma_loaded(s: Seq<(String, u64)>, now: u64)
    requires
        names::distinct_names(s),
    ensures
        loaded(Map::empty(), s, now) == unexpired(names::named(s), now),
    decreases s.len(),
{
    if s.len() > 0 {
        let t = s.drop_last();
        assert(names::distinct_names(t)) by {
            assert forall|i: int, j: int| 0 <= i < j < t.len() implies #[trigger] t[i].0@
                != #[trigger] t[j].0@ by {
                assert(t[i] == s[i] && t[j] == s[j]);
            }
        }
        lemma_loaded(t, now);
        names::lemma_named(s);
        names::lemma_named(t);
        assert(!names::named(t).contains_key(s.last().0@)) by {
            if names::named(t).contains_key(s.last().0@) {
                let i = choose|i: int| 0 <= i < t.len() && #[trigger] t[i].0@ == s.last().0@;
                assert(s[i].0@ != s[s.len() - 1].0@);
            }
        }
        assert(loaded(Map::empty(), s, now) =~= unexpired(names::named(s), now));
    } else {
        assert(loaded(Map::empty(), s, now) =~= unexpired(names::named(s), now));
    }
}

/// Whether a log of so many lines is to be rewritten.
pub fn needs_rewriting(lines: usize) -> (r: bool)
    ensures
        r == (lines > REPLAY_COMPACT_LINES),
{
    lines > REPLAY_COMPACT_LINES
}

/// `id` was marked and has not expired.
pub open spec fn live(m: Map<Seq<char>, u64>, id: Seq<char>, now: u64) -> bool {
    m.contains_key(id) && m[id] > now
}

/// `after` is `before` without `n` entries, of which none expires later than an
/// entry that stays.
pub open spec fn soonest_dropped(
    before: Map<Seq<char>, u64>,
    after: Map<Seq<char>, u64>,
    n: nat,
) -> bool {
    &&& after.submap_of(before)
    &&& after.dom().finite()
    &&& after.dom().len() + n == before.dom().len()
    &&& forall|gone: Seq<char>, kept: Seq<char>|
        before.contains_key(gone) && !after.contains_key(gone) && after.contains_key(kept) ==> (
        #[trigger] before[gone]) <= (#[trigger] after[kept])
}

/// `after` is `before` with room for one more entry.
pub open spec fn made_room(
    before: Map<Seq<char>, u64>,
    now: u64,
    after: Map<Seq<char>, u64>,
) -> bool {
    let rest = unexpired(before, now);
    if before.dom().len() < REPLAY_MAX_ENTRIES {
        after == before
    } else if rest.dom().len() < REPLAY_MAX_ENTRIES {
        after == rest
    } else {
        soonest_dropped(rest, after, REPLAY_DROP as nat)
    }
}

/// When an entry marked at `now` with the time to live `ttl` expires.
pub open spec fn expiry(now: u64, ttl: u64) -> u64 {
    if now + ttl > u64::MAX {
        u64::MAX
    } else {
        (now + ttl) as u64
    }
}

/// `r` and `after` are the outcome of marking `id` at the time `now`: a replay changes
/// nothing, and what is new is entered once there is room.
pub open spec fn marked(
    before: Map<Seq<char>, u64>,
    id: Seq<char>,
    ttl: u64,
    now: u64,
    after: Map<Seq<char>, u64>,
    r: bool,
) -> bool {
    &&& r == !live(before, id, now)
    &&& if r {
        exists|room: Map<Seq<char>, u64>| #[trigger]
            made_room(before, now, room) && after == room.insert(id, expiry(now, ttl))
    } else {
        after == before
    }
}

/// What was marked is a replay until it expires: it is seen, and marking it
/// again is refused and changes nothing.
pub proof fn law_marked_is_a_replay_until_it_expires(
    before: Map<Seq<char>, u64>,
    id: Seq<char>,
    ttl: u64,
    now: u64,
    after: Map<Seq<char>, u64>,
    later: u64,
    ttl2: u64,
    again: Map<Seq<char>, u64>,
    r: bool,
)
    requires
        marked(before, id, ttl, now, after, true),
        later < expiry(now, ttl),
        marked(after, id, ttl2, later, again, r),
    ensures
        live(after, id, later),
        !r,
        again == after,
{
}

/// Marking keeps the number of entries within the bound.
pub proof fn law_the_bound_is_kept(
    before: Map<Seq<char>, u64>,
    id: Seq<char>,
    ttl: u64,
    now: u64,
    after: Map<Seq<char>, u64>,
    r: bool,
)
    requires
        before.dom().finite(),
        before.dom().len() <= REPLAY_MAX_ENTRIES,
        marked(before, id, ttl, now, after, r),
    ensures
        after.dom().len() <= REPLAY_MAX_ENTRIES,
{
    if r {
        let room = choose|room: Map<Seq<char>, u64>| #[trigger]
            made_room(before, now, room) && after == room.insert(id, expiry(now, ttl));
        let rest = unexpired(before, now);
        assert(rest.dom().subset_of(before.dom()));
        vstd::set_lib::lemma_len_subset(rest.dom(), before.dom());
        assert(after.dom() =~= room.dom().insert(id));
    }
}

/// The number of the entries that expire at `t` or before.
pub open spec fn count_until(s: Seq<(String, u64)>, t: int) -> nat
    decreases s.len(),
{
    if s.len() == 0 {
        0
    } else {
        count_until(s.drop_last(), t) + if s.last().1 <= t {
            1nat
        } else {
            0nat
        }
    }
}

proof fn lemma_count_extremes(s: Seq<(String, u64)>)
    ensures
        count_until(s, -1) == 0,
        count_until(s, u64::MAX as int) == s.len(),
    decreases s.len(),
{
    if s.len() > 0 {
        lemma_count_extremes(s.drop_last());
    }
}

/// A cache of processed messages.
pub struct ReplayCache {
    default_ttl: u64,
    entries: NameMap<u64>,
}

impl View for ReplayCache {
    type V = Map<Seq<char>, u64>;

    closed spec fn view(&self) -> Map<Seq<char>, u64> {
        self.entries@
    }
}

impl ReplayCache {
    /// Each identifier has one entry.
    pub closed spec fn wf(self) -> bool {
        self.entries.wf()
    }

    /// The time to live of entries that are marked without one, in seconds.
    pub closed spec fn ttl(self) -> u64 {
        self.default_ttl
    }

    /// An empty cache.
    pub fn new_test(ttl: u64) -> (r: Self)
        ensures
            r.wf(),
            r.ttl() == ttl,
            r@ == Map::<Seq<char>, u64>::empty(),
    {
        ReplayCache { default_ttl: ttl, entries: NameMap::new() }
    }

    /// Takes over an entry from the log, unless it has expired.
    pub fn restore(&mut self, id: &str, exp: u64, now: u64) -> (r: bool)
        requires
            old(self).wf(),
        ensures
            final(self).wf(),
            final(self).ttl() == old(self).ttl(),
            r == (exp > now),
            final(self)@ == if r {
                old(self)@.insert(id@, exp)
            } else {
                old(self)@
            },
    {
        if exp <= now {
            return false;
        }
        self.entries.put(id, exp);
        true
    }

    /// Takes over the entries of the log that have not expired.
    pub fn load(&mut self, log: &[(String, u64)], now: u64)
        requires
            old(self).wf(),
        ensures
            final(self).wf(),
            final(self).ttl() == old(self).ttl(),
            final(self)@ == loaded(old(self)@, log@, now),
    {
        let mut i: usize = 0;
        let ghost m = self@;
        while i < log.len()
            invariant
                i <= log@.len(),
                self.wf(),
                self.ttl() == old(self).ttl(),
                self@ == loaded(m, log@.take(i as int), now),
            decreases log@.len() - i,
        {
            assert(log@.take(i + 1).drop_last() =~= log@.take(i as int));
            self.restore(log[i].0.as_str(), log[i].1, now);
            i += 1;
        }
        assert(log@.take(i as int) =~= log@);
    }

    /// Whether `id` was marked and has not expired.
    pub fn seen(&self, id: &str) -> (r: bool)
        requires
            self.wf(),
        ensures
            exists|now: u64| is_now(now) && r == #[trigger] live(self@, id@, now),
    {
        let now: u64 = clock::now();
        self.seen_at(id, now)
    }

    /// Whether `id` was marked and has not expired at the time `now`.
    pub fn seen_at(&self, id: &str, now: u64) -> (r: bool)
        requires
            self.wf(),
        ensures
            r == live(self@, id@, now),
    {
        match self.entries.get(id) {
            Some(exp) => *exp > now,
            None => false,
        }
    }

    /// Marks `id` with the default time to live. False for a replay.
    pub fn mark(&mut self, id: &str) -> (r: bool)
        requires
            old(self).wf(),
        ensures
            final(self).wf(),
            final(self).ttl() == old(self).ttl(),
            exists|now: u64| is_now(now) && #[trigger]
                marked(old(self)@, id@, old(self).ttl(), now, final(self)@, r),
    {
        let ttl: u64 = self.default_ttl;
        self.mark_with_ttl(id, ttl)
    }

    /// Marks `id` for `ttl` seconds. True when the message is new and may be
    /// processed, false when it is a replay.
    pub fn mark_with_ttl(&mut self, id: &str, ttl: u64) -> (r: bool)
        requires
            old(self).wf(),
        ensures
            final(self).wf(),
            final(self).ttl() == old(self).ttl(),
            exists|now: u64| is_now(now) && #[trigger] marked(old(self)@, id@, ttl, now, final(self)@, r),
    {
        let now: u64 = clock::now();
        self.mark_at(id, ttl, now)
    }

    /// Marks `id` at the time `now`.
    pub fn mark_at(&mut self, id: &str, ttl: u64, now: u64) -> (r: bool)
        requires
            old(self).wf(),
        ensures
            final(self).wf(),
            final(self).ttl() == old(self).ttl(),
            marked(old(self)@, id@, ttl, now, final(self)@, r),
    {
        if self.seen_at(id, now) {
            return false;
        }
        let exp: u64 = now.saturating_add(ttl);
        if self.entries.len() >= REPLAY_MAX_ENTRIES {
            self.drop_expired(now);
            if self.entries.len() >= REPLAY_MAX_ENTRIES {
                self.drop_soonest(REPLAY_DROP);
            }
        }
        let ghost room = self@;
        assert(made_room(old(self)@, now, room));
        self.entries.put(id, exp);
        true
    }

    /// Keeps what has not expired.
    fn drop_expired(&mut self, now: u64)
        requires
            old(self).wf(),
        ensures
            final(self).wf(),
            final(self).ttl() == old(self).ttl(),
            final(self)@ == unexpired(old(self)@, now),
    {
        let mut kept: NameMap<u64> = NameMap::new();
        let ghost list = self.entries.list();
        proof {
            self.entries.lemma_wf();
            names::lemma_named(list);
            assert(kept@ =~= unexpired(names::named(list.take(0)), now));
        }
        let mut i: usize = 0;
        while i < self.entries.len()
            invariant
                self.entries.list() == list,
                names::distinct_names(list),
                i <= list.len(),
                kept.wf(),
                kept@ == unexpired(names::named(list.take(i as int)), now),
            decreases list.len() - i,
        {
            let exp: u64 = *self.entries.value(i);
            proof {
                lemma_step(list, i as int);
            }
            let ghost before = names::named(list.take(i as int));
            if exp > now {
                kept.put(self.entries.name(i).as_str(), exp);
            }
            i += 1;
            assert(kept@ =~= unexpired(names::named(list.take(i as int)), now));
        }
        assert(list.take(i as int) =~= list);
        self.entries = kept;
    }

    /// Drops `n` entries, the soonest to expire first.
    fn drop_soonest(&mut self, n: usize)
        requires
            old(self).wf(),
            0 < n <= old(self)@.dom().len(),
        ensures
            final(self).wf(),
            final(self).ttl() == old(self).ttl(),
            soonest_dropped(old(self)@, final(self)@, n as nat),
    {
        let ghost list = self.entries.list();
        proof {
            self.entries.lemma_wf();
            names::lemma_named(list);
            lemma_count_extremes(list);
        }
        let mut lo: u64 = 0;
        let mut hi: u64 = u64::MAX;
        while lo < hi
            invariant
                self.entries.list() == list,
                self.entries.wf(),
                lo <= hi,
                count_until(list, lo - 1) < n,
                count_until(list, hi as int) >= n,
            decreases hi - lo,
        {
            let mid: u64 = lo + (hi - lo) / 2;
            if self.count(mid) >= n {
                hi = mid;
            } else {
                lo = mid + 1;
            }
        }
        let t: u64 = lo;
        let sooner: usize = if t == 0 {
            0
        } else {
            self.count(t - 1)
        };
        let budget: usize = n - sooner;
        let mut used: usize = 0;
        let mut kept: NameMap<u64> = NameMap::new();
        let mut i: usize = 0;
        assert(list.take(0) =~= Seq::empty());
        while i < self.entries.len()
            invariant
                self.entries.list() == list,
                names::distinct_names(list),
                i <= list.len(),
                kept.wf(),
                kept.list().len() + count_until(list.take(i as int), t - 1) + used == i,
                used <= budget,
                used == budget || count_until(list.take(i as int), t as int) == count_until(
                    list.take(i as int),
                    t - 1,
                ) + used,
                forall|k: Seq<char>| #[trigger]
                    kept@.contains_key(k) ==> names::named(list.take(i as int)).contains_key(k)
                        && kept@[k] == names::named(list.take(i as int))[k] && kept@[k] >= t,
                forall|k: Seq<char>|
                    names::named(list.take(i as int)).contains_key(k) && !kept@.contains_key(k)
                        ==> #[trigger] names::named(list.take(i as int))[k] <= t,
            decreases list.len() - i,
        {
            let exp: u64 = *self.entries.value(i);
            let ghost before = names::named(list.take(i as int));
            let ghost kept_before = kept@;
            proof {
                lemma_step(list, i as int);
                lemma_count_step(list, i as int, t as int);
                lemma_count_step(list, i as int, t - 1);
            }
            let ghost key = list[i as int].0@;
            if exp < t {
            } else if exp == t && used < budget {
                used += 1;
            } else {
                assert(!kept@.contains_key(key));
                kept.push_new(self.entries.name(i).as_str(), exp);
            }
            i += 1;
            let ghost now_named = names::named(list.take(i as int));
            assert(now_named == before.insert(key, exp));
            assert forall|k: Seq<char>| #[trigger] kept@.contains_key(k) implies now_named.contains_key(
            k) && kept@[k] == now_named[k] && kept@[k] >= t by {
                if k != key {
                    assert(kept_before.contains_key(k));
                }
            }
            assert forall|k: Seq<char>|
                now_named.contains_key(k) && !kept@.contains_key(k) implies #[trigger] now_named[k]
                <= t by {
                if k != key {
                    assert(before[k] <= t);
                }
            }
        }
        assert(list.take(i as int) =~= list);
        proof {
            kept.lemma_wf();
            assert(kept@.submap_of(names::named(list)));
        }
        self.entries = kept;
    }

    /// How many entries expire at `t` or before.
    fn count(&self, t: u64) -> (r: usize)
        requires
            self.wf(),
        ensures
            r == count_until(self.entries.list(), t as int),
    {
        let ghost list = self.entries.list();
        let mut r: usize = 0;
        let mut i: usize = 0;
        assert(list.take(0) =~= Seq::empty());
        while i < self.entries.len()
            invariant
                self.entries.list() == list,
                i <= list.len(),
                r <= i,
                r == count_until(list.take(i as int), t as int),
            decreases list.len() - i,
        {
            proof {
                lemma_count_step(list, i as int, t as int);
            }
            if *self.entries.value(i) <= t {
                r += 1;
            }
            i += 1;
        }
        assert(list.take(i as int) =~= list);
        r
    }

    /// Drops what has expired. Returns how much that was.
    pub fn evict_expired(&mut self) -> (r: usize)
        requires
            old(self).wf(),
        ensures
            final(self).wf(),
            final(self).ttl() == old(self).ttl(),
            exists|now: u64| is_now(now) && final(self)@ == #[trigger] unexpired(old(self)@, now),
            r + final(self)@.dom().len() == old(self)@.dom().len(),
    {
        let now: u64 = clock::now();
        self.evict_expired_at(now)
    }

    /// Drops what has expired at the time `now`. Returns how much that was.
    pub fn evict_expired_at(&mut self, now: u64) -> (r: usize)
        requires
            old(self).wf(),
        ensures
            final(self).wf(),
            final(self).ttl() == old(self).ttl(),
            final(self)@ == unexpired(old(self)@, now),
            r + final(self)@.dom().len() == old(self)@.dom().len(),
    {
        let before: usize = self.entries.len();
        proof {
            self.entries.lemma_wf();
        }
        let ghost m = self@;
        self.drop_expired(now);
        proof {
            assert(self@.dom().subset_of(m.dom()));
            vstd::set_lib::lemma_len_subset(self@.dom(), m.dom());
        }
        before - self.entries.len()
    }

    /// How many entries have not expired.
    pub fn len(&self) -> (r: usize)
        requires
            self.wf(),
        ensures
            exists|now: u64| is_now(now) && r == (#[trigger] unexpired(self@, now)).dom().len(),
    {
        let now: u64 = clock::now();
        self.len_at(now)
    }

    /// How many entries have not expired at the time `now`.
    pub fn len_at(&self, now: u64) -> (r: usize)
        requires
            self.wf(),
        ensures
            r == unexpired(self@, now).dom().len(),
    {
        let ghost list = self.entries.list();
        let mut r: usize = 0;
        let mut i: usize = 0;
        proof {
            self.entries.lemma_wf();
            assert(unexpired(names::named(list.take(0)), now).dom() =~= Set::empty());
        }
        while i < self.entries.len()
            invariant
                self.entries.list() == list,
                names::distinct_names(list),
                i <= list.len(),
                r <= i,
                unexpired(names::named(list.take(i as int)), now).dom().finite(),
                r == unexpired(names::named(list.take(i as int)), now).dom().len(),
            decreases list.len() - i,
        {
            proof {
                lemma_step(list, i as int);
                let a = unexpired(names::named(list.take(i as int)), now).dom();
                let b = unexpired(names::named(list.take(i + 1)), now).dom();
                if list[i as int].1 > now {
                    assert(b =~= a.insert(list[i as int].0@));
                } else {
                    assert(b =~= a);
                }
            }
            if *self.entries.value(i) > now {
                r += 1;
            }
            i += 1;
        }
        assert(list.take(i as int) =~= list);
        r
    }

    /// Whether every entry has expired.
    pub fn is_empty(&self) -> (r: bool)
        requires
            self.wf(),
        ensures
            exists|now: u64| is_now(now) && r == ((#[trigger] unexpired(self@, now)).dom().len() == 0),
    {
        self.len() == 0
    }

    /// The entries that have not expired at the time `now`, which are what the log is
    /// rewritten with.
    pub fn compact(&self, now: u64) -> (r: Vec<(String, u64)>)
        requires
            self.wf(),
        ensures
            names::distinct_names(r@),
            names::named(r@) == unexpired(self@, now),
    {
        let ghost list = self.entries.list();
        proof {
            self.entries.lemma_wf();
        }
        let mut out: Vec<(String, u64)> = Vec::new();
        let mut i: usize = 0;
        assert(names::named(out@) =~= unexpired(names::named(list.take(0)), now));
        while i < self.entries.len()
            invariant
                self.entries.list() == list,
                names::distinct_names(list),
                i <= list.len(),
                names::distinct_names(out@),
                names::named(out@) == unexpired(names::named(list.take(i as int)), now),
            decreases list.len() - i,
        {
            let exp: u64 = *self.entries.value(i);
            proof {
                lemma_step(list, i as int);
            }
            if exp > now {
                let ghost before = out@;
                proof {
                    names::lemma_named(before);
                }
                out.push((self.entries.name(i).clone(), exp));
                assert(out@.drop_last() =~= before);
                assert forall|a: int, b: int| 0 <= a < b < out@.len() implies #[trigger] out@[a].0@
                    != #[trigger] out@[b].0@ by {
                    if b < before.len() {
                        assert(before[a].0@ != before[b].0@);
                    } else {
                        assert(before[a].0@ == out@[a].0@);
                        assert(names::named(before).contains_key(before[a].0@));
                    }
                }
            }
            i += 1;
            assert(names::named(out@) =~= unexpired(names::named(list.take(i as int)), now));
        }
        assert(list.take(i as int) =~= list);
        out
    }

    /// Every entry, expired or not.
    pub fn snapshot(&self) -> (r: Vec<(String, u64)>)
        requires
            self.wf(),
        ensures
            names::distinct_names(r@),
            names::named(r@) == self@,
    {
        let ghost list = self.entries.list();
        proof {
            self.entries.lemma_wf();
        }
        let mut out: Vec<(String, u64)> = Vec::new();
        let mut i: usize = 0;
        while i < self.entries.len()
            invariant
                self.entries.list() == list,
                i <= list.len(),
                out@ == list.take(i as int),
            decreases list.len() - i,
        {
            out.push((self.entries.name(i).clone(), *self.entries.value(i)));
            i += 1;
            assert(out@ =~= list.take(i as int));
        }
        assert(list.take(i as int) =~= list);
        out
    }
}

proof fn lemma_step(list: Seq<(String, u64)>, i: int)
    requires
        0 <= i < list.len(),
        names::distinct_names(list),
    ensures
        names::named(list.take(i + 1)) == names::named(list.take(i)).insert(
            list[i].0@,
            list[i].1,
        ),
        !names::named(list.take(i)).contains_key(list[i].0@),
{
    let t = list.take(i);
    assert(list.take(i + 1).drop_last() =~= t);
    assert forall|a: int, b: int| 0 <= a < b < t.len() implies #[trigger] t[a].0@
        != #[trigger] t[b].0@ by {
        assert(list[a].0@ != list[b].0@);
    }
    names::lemma_named(t);
    if names::named(t).contains_key(list[i].0@) {
        let a = choose|a: int| 0 <= a < t.len() && #[trigger] t[a].0@ == list[i].0@;
        assert(list[a].0@ != list[i].0@);
    }
}

proof fn lemma_count_step(list: Seq<(String, u64)>, i: int, t: int)
    requires
        0 <= i < list.len(),
    ensures
        count_until(list.take(i + 1), t) == count_until(list.take(i), t) + if list[i].1 <= t {
            1nat
        } else {
            0nat
        },
{
    assert(list.take(i + 1).drop_last() =~= list.take(i));
}

/// A message is new once: marked at the time `t1` for `ttl` seconds, it is refused by
/// every marking less than `ttl` seconds later and taken again by one from then on.
/// The refused marking changes nothing.
pub proof fn law_a_message_is_new_once(
    before: ReplayCache,
    between: ReplayCache,
    after: ReplayCache,
    id: &str,
    ttl: u64,
    ttl2: u64,
    t1: u64,
    t2: u64,
    second: bool,
)
    requires
        t1 + ttl <= u64::MAX,
        exists|c: &mut ReplayCache|
            *c == before && *final(c) == between && #[trigger] call_ensures(
                ReplayCache::mark_at,
                (c, id, ttl, t1),
                true,
            ),
        exists|c: &mut ReplayCache|
            *c == between && *final(c) == after && #[trigger] call_ensures(
                ReplayCache::mark_at,
                (c, id, ttl2, t2),
                second,
            ),
    ensures
        t2 < t1 + ttl ==> !second && after@ == between@,
        t2 >= t1 + ttl ==> second,
{
}

/// What was marked is seen until its time is over and never after; what was never
/// marked is not seen.
pub proof fn law_a_mark_is_seen_for_its_time(
    before: ReplayCache,
    after: ReplayCache,
    id: &str,
    ttl: u64,
    t1: u64,
    t2: u64,
    fresh: ReplayCache,
    default_ttl: u64,
    seen: bool,
    seen_in_fresh: bool,
)
    requires
        t1 + ttl <= u64::MAX,
        exists|c: &mut ReplayCache|
            *c == before && *final(c) == after && #[trigger] call_ensures(
                ReplayCache::mark_at,
                (c, id, ttl, t1),
                true,
            ),
        call_ensures(ReplayCache::seen_at, (&after, id, t2), seen),
        call_ensures(ReplayCache::new_test, (default_ttl,), fresh),
        call_ensures(ReplayCache::seen_at, (&fresh, id, t2), seen_in_fresh),
    ensures
        seen <==> t2 < t1 + ttl,
        !seen_in_fresh,
{
}

/// By the wall clock too a message is new once: two markings go by one reading of the
/// clock each, in seconds, and the second is refused exactly where its reading is less
/// than the time to live past the first.
pub proof fn law_the_clock_tells_a_replay(
    before: ReplayCache,
    between: ReplayCache,
    after: ReplayCache,
    id: &str,
    second: bool,
)
    requires
        exists|c: &mut ReplayCache|
            *c == before && *final(c) == between && #[trigger] call_ensures(ReplayCache::mark, (c, id), true),
        exists|c: &mut ReplayCache|
            *c == between && *final(c) == after && #[trigger] call_ensures(ReplayCache::mark, (c, id), second),
    ensures
        exists|t1: u64, t2: u64|
            {
                &&& #[trigger] is_now(t1)
                &&& #[trigger] is_now(t2)
                &&& t1 + before.ttl() <= u64::MAX ==> (second <==> t2 >= t1 + before.ttl())
            },
        !second ==> after@ == between@,
{
    let t1 = choose|t: u64| is_now(t) && #[trigger] marked(before@, id@, before.ttl(), t, between@, true);
    let t2 = choose|t: u64| is_now(t) && #[trigger] marked(between@, id@, between.ttl(), t, after@, second);
    assert(is_now(t1) && is_now(t2));
}

/// The same of a marking for `ttl` seconds and a look at the cache after it.
pub proof fn law_the_clock_tells_what_is_seen(
    before: ReplayCache,
    after: ReplayCache,
    id: &str,
    ttl: u64,
    seen: bool,
)
    requires
        exists|c: &mut ReplayCache|
            *c == before && *final(c) == after && #[trigger] call_ensures(
                ReplayCache::mark_with_ttl,
                (c, id, ttl),
                true,
            ),
        call_ensures(ReplayCache::seen, (&after, id), seen),
    ensures
        exists|t1: u64, t2: u64|
            {
                &&& #[trigger] is_now(t1)
                &&& #[trigger] is_now(t2)
                &&& t1 + ttl <= u64::MAX ==> (seen <==> t2 < t1 + ttl)
            },
{
    let t1 = choose|t: u64| is_now(t) && #[trigger] marked(before@, id@, ttl, t, after@, true);
    let t2 = choose|t: u64| is_now(t) && seen == #[trigger] live(after@, id@, t);
    assert(is_now(t1) && is_now(t2));
}

/// Marking one message forgets no other that is still a replay, as long as the cache
/// is not full.
pub proof fn law_a_mark_forgets_no_other(
    before: ReplayCache,
    after: ReplayCache,
    id: &str,
    other: &str,
    ttl: u64,
    t1: u64,
    t2: u64,
    first: bool,
    was: bool,
    is: bool,
)
    requires
        before@.dom().len() < REPLAY_MAX_ENTRIES,
        other@ != id@,
        exists|c: &mut ReplayCache|
            *c == before && *final(c) == after && #[trigger] call_ensures(
                ReplayCache::mark_at,
                (c, id, ttl, t1),
                first,
            ),
        call_ensures(ReplayCache::seen_at, (&before, other, t2), was),
        call_ensures(ReplayCache::seen_at, (&after, other, t2), is),
    ensures
        is == was,
{
}

/// Dropping what has expired changes no answer: what was seen then or later still is,
/// and as many entries count as before.
pub proof fn law_eviction_is_not_noticed(
    before: ReplayCache,
    after: ReplayCache,
    gone: usize,
    id: &str,
    t: u64,
    later: u64,
    was: bool,
    is: bool,
    counted: usize,
    counts: usize,
)
    requires
        t <= later,
        exists|c: &mut ReplayCache|
            *c == before && *final(c) == after && #[trigger] call_ensures(
                ReplayCache::evict_expired_at,
                (c, t),
                gone,
            ),
        call_ensures(ReplayCache::seen_at, (&before, id, later), was),
        call_ensures(ReplayCache::seen_at, (&after, id, later), is),
        call_ensures(ReplayCache::len_at, (&before, later), counted),
        call_ensures(ReplayCache::len_at, (&after, later), counts),
    ensures
        is == was,
        counts == counted,
        after@.dom().len() + gone == before@.dom().len(),
        forall|k: Seq<char>| #[trigger] after@.contains_key(k) ==> after@[k] > t,
{
    assert(unexpired(after@, later) =~= unexpired(before@, later));
}

/// A cache that was filled from its own log at the same time answers as it did.
pub proof fn law_the_log_keeps_the_answers(
    c: ReplayCache,
    fresh: ReplayCache,
    filled: ReplayCache,
    log: Vec<(String, u64)>,
    default_ttl: u64,
    id: &str,
    then: u64,
    now: u64,
    was: bool,
    is: bool,
)
    requires
        then <= now,
        call_ensures(ReplayCache::compact, (&c, then), log),
        call_ensures(ReplayCache::new_test, (default_ttl,), fresh),
        exists|x: &mut ReplayCache, s: &[(String, u64)]|
            *x == fresh && *final(x) == filled && s@ == log@ && #[trigger] call_ensures(
                ReplayCache::load,
                (x, s, now),
                (),
            ),
        call_ensures(ReplayCache::seen_at, (&c, id, now), was),
        call_ensures(ReplayCache::seen_at, (&filled, id, now), is),
    ensures
        is == was,
{
    law_the_cache_survives_a_restart(c@, log@, then, now);
}

/// The cache holds at most a hundred thousand entries, and makes room for ten thousand more
/// only where so many are still valid; of the valid ones those go that expire soonest. A log
/// is rewritten once it has more than fifty thousand lines.
pub proof fn law_a_full_cache_makes_room(
    before: ReplayCache,
    after: ReplayCache,
    id: &str,
    ttl: u64,
    now: u64,
    lines: usize,
    rewrite: bool,
)
    requires
        before@.dom().finite(),
        before@.dom().len() <= 100_000,
        exists|c: &mut ReplayCache|
            *c == before && *final(c) == after && #[trigger] call_ensures(
                ReplayCache::mark_at,
                (c, id, ttl, now),
                true,
            ),
        call_ensures(needs_rewriting, (lines,), rewrite),
    ensures
        after@.dom().len() <= 100_000,
        after@.contains_key(id@),
        before@.dom().len() < 100_000 ==> forall|k: Seq<char>| #[trigger]
            before@.contains_key(k) && k != id@ ==> after@.contains_key(k) && after@[k] == before@[k],
        before@.dom().len() == 100_000 && unexpired(before@, now).dom().len() < 100_000 ==> forall|k: Seq<char>|
            #[trigger] before@.contains_key(k) && before@[k] > now && k != id@ ==> after@.contains_key(k) && after@[k]
                == before@[k],
        unexpired(before@, now).dom().len() == 100_000 ==> after@.dom().len() >= 90_000,
        forall|gone: Seq<char>, kept: Seq<char>|
            before@.contains_key(gone) && !after@.contains_key(gone) && before@.contains_key(kept) && after@.contains_key(
                kept,
            ) && kept != id@ && before@[gone] > now ==> #[trigger] before@[gone] <= #[trigger] after@[kept],
        rewrite <==> lines > 50_000,
{
    law_the_bound_is_kept(before@, id@, ttl, now, after@, true);
    let room = choose|room: Map<Seq<char>, u64>| #[trigger]
        made_room(before@, now, room) && after@ == room.insert(id@, expiry(now, ttl));
    assert(made_room(before@, now, room));
    let rest = unexpired(before@, now);
    assert(rest.dom().subset_of(before@.dom()));
    vstd::set_lib::lemma_len_subset(rest.dom(), before@.dom());
    assert(after@.dom() =~= room.dom().insert(id@));
    if rest.dom().len() == 100_000 {
        assert(room.dom().len() == 90_000);
        assert(room.dom().finite());
    }
    assert forall|gone: Seq<char>, kept: Seq<char>|
        before@.contains_key(gone) && !after@.contains_key(gone) && before@.contains_key(kept) && after@.contains_key(
            kept,
        ) && kept != id@ && before@[gone] > now implies #[trigger] before@[gone] <= #[trigger] after@[kept] by {
        assert(!room.contains_key(gone));
        assert(room.contains_key(kept));
        assert(rest.contains_key(gone));
        assert(rest[gone] == before@[gone]);
        assert(room[kept] == after@[kept]);
    }
}

/// By the wall clock what has expired is dropped, and what has not is counted.
pub proof fn law_the_clock_tells_what_has_expired(
    before: ReplayCache,
    after: ReplayCache,
    gone: usize,
    n: usize,
    empty: bool,
)
    requires
        exists|c: &mut ReplayCache|
            *c == before && *final(c) == after && #[trigger] call_ensures(ReplayCache::evict_expired, (c,), gone),
        call_ensures(ReplayCache::len, (&before,), n),
        call_ensures(ReplayCache::is_empty, (&before,), empty),
    ensures
        exists|t: u64| #[trigger] is_now(t) && forall|k: Seq<char>| #[trigger]
            after@.contains_key(k) <==> before@.contains_key(k) && before@[k] > t,
        exists|t: u64| #[trigger] is_now(t) && n == unexpired(before@, t).dom().len(),
        exists|t: u64| #[trigger] is_now(t) && (empty <==> unexpired(before@, t).dom().len() == 0),
{
    let t = choose|t: u64| is_now(t) && after@ == #[trigger] unexpired(before@, t);
    assert(is_now(t));
    let u = choose|u: u64| is_now(u) && n == (#[trigger] unexpired(before@, u)).dom().len();
    assert(is_now(u));
    let w = choose|w: u64| is_now(w) && empty == ((#[trigger] unexpired(before@, w)).dom().len() == 0);
    assert(is_now(w));
}

/// An entry of the log is taken over exactly where it has not expired.
pub proof fn law_entries_are_restored(before: ReplayCache, after: ReplayCache, id: &str, exp: u64, now: u64, r: bool, seen: bool)
    requires
        exists|c: &mut ReplayCache|
            *c == before && *final(c) == after && #[trigger] call_ensures(ReplayCache::restore, (c, id, exp, now), r),
        call_ensures(ReplayCache::seen_at, (&after, id, now), seen),
    ensures
        r <==> exp > now,
        r ==> seen,
        !r ==> after@ == before@,
{
}

} // verus!
