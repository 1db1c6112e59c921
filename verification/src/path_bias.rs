//! Counts of circuit outcomes per guard, to notice a guard that fails circuits
//! it could complete.

use crate::bytes;
use crate::bytes::bytes_before;
use crate::names;
use crate::names::NameMap;
use vstd::prelude::*;
use vstd::string::*;
use vstd::utf8::*;

verus! {

/// A guard with fewer attempts is not judged.
pub const MIN_ATTEMPTS: u32 = 20;

/// A guard is judged by a success rate of this many tenths.
pub const WARN_SUCCESS_TENTHS: u64 = 3;

/// The circuit outcomes of one guard.
#[derive(Debug, Clone, Copy, PartialEq, Eq)]
pub struct GuardStats {
    pub attempts: u32,
    pub successes: u32,
}

impl Default for GuardStats {
    fn default() -> (r: Self)
        ensures
            r.attempts == 0,
            r.successes == 0,
    {
        GuardStats { attempts: 0, successes: 0 }
    }
}

impl GuardStats {
    /// Enough attempts, and fewer than three tenths of them successful.
    pub open spec fn suspect(self) -> bool {
        self.attempts >= MIN_ATTEMPTS && 10 * self.successes < WARN_SUCCESS_TENTHS * self.attempts
    }

    /// The denominator of the success rate: the attempts, or 1 where there are
    /// none.
    pub open spec fn rate_den(self) -> int {
        if self.attempts == 0 {
            1
        } else {
            self.attempts as int
        }
    }

    /// The numerator of the success rate. Without attempts the rate is 1: no
    /// evidence is no accusation.
    pub open spec fn rate_num(self) -> int {
        if self.attempts == 0 {
            1
        } else {
            self.successes as int
        }
    }

    /// The success rate is at most that of `other`.
    pub open spec fn no_better(self, other: GuardStats) -> bool {
        self.rate_num() * other.rate_den() <= other.rate_num() * self.rate_den()
    }

    /// Attempts that did not succeed.
    pub fn failures(&self) -> (r: u32)
        ensures
            r == if self.attempts >= self.successes {
                self.attempts - self.successes
            } else {
                0
            },
    {
        self.attempts.saturating_sub(self.successes)
    }

    /// Whether the user should be told of this guard: enough evidence, and a
    /// success rate below three tenths.
    pub fn is_suspicious(&self) -> (r: bool)
        ensures
            r == self.suspect(),
    {
        self.attempts >= MIN_ATTEMPTS && 10 * (self.successes as u64) < WARN_SUCCESS_TENTHS * (
        self.attempts as u64)
    }

    /// Whether the success rate is at most that of `other`.
    fn rate_at_most(&self, other: &GuardStats) -> (r: bool)
        ensures
            r == self.no_better(*other),
    {
        let (n, d): (u64, u64) = if self.attempts == 0 {
            (1, 1)
        } else {
            (self.successes as u64, self.attempts as u64)
        };
        let (m, e): (u64, u64) = if other.attempts == 0 {
            (1, 1)
        } else {
            (other.successes as u64, other.attempts as u64)
        };
        assert(n * e <= 0xffff_ffff * 0xffff_ffff) by (nonlinear_arith)
            requires
                n <= 0xffff_ffff,
                e <= 0xffff_ffff,
        ;
        assert(m * d <= 0xffff_ffff * 0xffff_ffff) by (nonlinear_arith)
            requires
                m <= 0xffff_ffff,
                d <= 0xffff_ffff,
        ;
        n * e <= m * d
    }
}

/// No evidence is no accusation: a guard is not suspected before it was tried often
/// enough, nor while three tenths of its circuits were completed.
pub proof fn law_few_failures_accuse_nobody(s: GuardStats)
    requires
        s.attempts < MIN_ATTEMPTS || 10 * s.successes >= 3 * s.attempts,
    ensures
        !s.suspect(),
{
}

proof fn lemma_no_better_trans(a: GuardStats, b: GuardStats, c: GuardStats)
    requires
        a.no_better(b),
        b.no_better(c),
    ensures
        a.no_better(c),
{
    let (an, ad) = (a.rate_num(), a.rate_den());
    let (bn, bd) = (b.rate_num(), b.rate_den());
    let (cn, cd) = (c.rate_num(), c.rate_den());
    assert(an * cd <= cn * ad) by (nonlinear_arith)
        requires
            an * bd <= bn * ad,
            bn * cd <= cn * bd,
            ad > 0,
            bd > 0,
            cd > 0,
    {
        assert((an * bd) * cd <= (bn * ad) * cd);
        assert((bn * cd) * ad <= (cn * bd) * ad);
        assert((an * cd) * bd <= (cn * ad) * bd);
    }
}

/// The listed guards are those of `m` for which `keep` holds, each once.
pub open spec fn lists(
    l: Seq<(String, GuardStats)>,
    m: Map<Seq<char>, GuardStats>,
    keep: spec_fn(GuardStats) -> bool,
) -> bool {
    &&& names::distinct_names(l)
    &&& forall|i: int|
        0 <= i < l.len() ==> m.contains_key(#[trigger] l[i].0@) && m[l[i].0@] == l[i].1 && keep(
            l[i].1,
        )
    &&& forall|k: Seq<char>|
        m.contains_key(k) && keep(#[trigger] m[k]) ==> exists|i: int|
            0 <= i < l.len() && #[trigger] l[i].0@ == k
}

/// The names of `l` ascend in byte order.
pub open spec fn names_ascend(l: Seq<(String, GuardStats)>) -> bool {
    forall|i: int, j: int|
        0 <= i < j < l.len() ==> bytes::bytes_lt(
            encode_utf8(#[trigger] l[i].0@),
            encode_utf8(#[trigger] l[j].0@),
        )
}

/// The success rates of `l` do not descend.
pub open spec fn worst_first(l: Seq<(String, GuardStats)>) -> bool {
    forall|i: int, j: int| 0 <= i < j < l.len() ==> (#[trigger] l[i]).1.no_better((#[trigger] l[j]).1)
}

/// Circuit outcomes per guard.
#[derive(Debug)]
pub struct PathBias {
    guards: NameMap<GuardStats>,
}

impl View for PathBias {
    type V = Map<Seq<char>, GuardStats>;

    closed spec fn view(&self) -> Map<Seq<char>, GuardStats> {
        self.guards@
    }
}

impl PathBias {
    /// The counts are kept once per guard.
    pub closed spec fn wf(self) -> bool {
        self.guards.wf()
    }

    /// The counts of a guard; zero for one that was never counted.
    pub open spec fn counts(self, guard: Seq<char>) -> GuardStats {
        if self@.contains_key(guard) {
            self@[guard]
        } else {
            GuardStats { attempts: 0, successes: 0 }
        }
    }

    /// No counts.
    pub fn new() -> (r: Self)
        ensures
            r.wf(),
            r@ == Map::<Seq<char>, GuardStats>::empty(),
    {
        PathBias { guards: NameMap::new() }
    }

    /// Counts a circuit attempted through this guard.
    pub fn note_attempt(&mut self, guard_hex: &str)
        requires
            old(self).wf(),
            old(self).counts(guard_hex@).attempts < u32::MAX,
        ensures
            final(self).wf(),
            final(self)@ == old(self)@.insert(
                guard_hex@,
                (GuardStats {
                    attempts: (old(self).counts(guard_hex@).attempts + 1) as u32,
                    successes: old(self).counts(guard_hex@).successes,
                }),
            ),
    {
        let s: GuardStats = self.stats(guard_hex);
        self.guards.put(
            guard_hex,
            GuardStats { attempts: s.attempts + 1, successes: s.successes },
        );
    }

    /// Counts a circuit completed through this guard.
    pub fn note_success(&mut self, guard_hex: &str)
        requires
            old(self).wf(),
            old(self).counts(guard_hex@).successes < u32::MAX,
        ensures
            final(self).wf(),
            final(self)@ == old(self)@.insert(
                guard_hex@,
                (GuardStats {
                    attempts: old(self).counts(guard_hex@).attempts,
                    successes: (old(self).counts(guard_hex@).successes + 1) as u32,
                }),
            ),
    {
        let s: GuardStats = self.stats(guard_hex);
        self.guards.put(
            guard_hex,
            GuardStats { attempts: s.attempts, successes: s.successes + 1 },
        );
    }

    /// The counts of a guard.
    pub fn stats(&self, guard_hex: &str) -> (r: GuardStats)
        requires
            self.wf(),
        ensures
            r == self.counts(guard_hex@),
    {
        match self.guards.get(guard_hex) {
            Some(s) => *s,
            None => GuardStats { attempts: 0, successes: 0 },
        }
    }

    /// The guards that fail too many circuits for luck, by name. The caller
    /// decides what to do about them.
    pub fn suspicious(&self) -> (r: Vec<(String, GuardStats)>)
        requires
            self.wf(),
        ensures
            lists(r@, self@, |s: GuardStats| s.suspect()),
            names_ascend(r@),
    {
        let mut v: Vec<(String, GuardStats)> = Vec::new();
        let mut i: usize = 0;
        let ghost list = self.guards.list();
        let ghost keep = |s: GuardStats| s.suspect();
        proof {
            self.guards.lemma_wf();
            lemma_gathered_none(v@, list, keep);
        }
        while i < self.guards.len()
            invariant
                list == self.guards.list(),
                i <= list.len(),
                keep == (|s: GuardStats| s.suspect()),
                names::distinct_names(list),
                names_ascend(v@),
                gathered(v@, list, i as int, keep),
            decreases list.len() - i,
        {
            let s: GuardStats = *self.guards.value(i);
            if s.is_suspicious() {
                let name: String = self.guards.name(i).clone();
                let ghost before = v@;
                proof {
                    lemma_gathered_fresh(v@, list, i as int, keep);
                }
                let p: usize = insert_by_name(&mut v, name, s);
                proof {
                    lemma_gathered_insert(before, p as int, v@, list, i as int, keep);
                }
            } else {
                proof {
                    lemma_gathered_skip(v@, list, i as int, keep);
                }
            }
            i += 1;
        }
        proof {
            lemma_gathered_lists(v@, list, keep);
        }
        v
    }

    /// Every guard that was counted, worst first.
    pub fn all(&self) -> (r: Vec<(String, GuardStats)>)
        requires
            self.wf(),
        ensures
            lists(r@, self@, |s: GuardStats| true),
            worst_first(r@),
    {
        let mut v: Vec<(String, GuardStats)> = Vec::new();
        let mut i: usize = 0;
        let ghost list = self.guards.list();
        let ghost keep = |s: GuardStats| true;
        proof {
            self.guards.lemma_wf();
            lemma_gathered_none(v@, list, keep);
        }
        while i < self.guards.len()
            invariant
                list == self.guards.list(),
                i <= list.len(),
                keep == (|s: GuardStats| true),
                names::distinct_names(list),
                worst_first(v@),
                gathered(v@, list, i as int, keep),
            decreases list.len() - i,
        {
            let s: GuardStats = *self.guards.value(i);
            let name: String = self.guards.name(i).clone();
            let ghost before = v@;
            let p: usize = insert_by_rate(&mut v, name, s);
            proof {
                lemma_gathered_insert(before, p as int, v@, list, i as int, keep);
            }
            i += 1;
        }
        proof {
            lemma_gathered_lists(v@, list, keep);
        }
        v
    }
}

/// Inserts a guard where its name belongs.
fn insert_by_name(v: &mut Vec<(String, GuardStats)>, name: String, s: GuardStats) -> (p: usize)
    requires
        names_ascend(old(v)@),
        forall|a: int| 0 <= a < old(v)@.len() ==> #[trigger] old(v)@[a].0@ != name@,
    ensures
        p <= old(v)@.len(),
        final(v)@ == old(v)@.insert(p as int, (name, s)),
        names_ascend(final(v)@),
{
    let ghost before = v@;
    let mut p: usize = 0;
    while p < v.len() && bytes_before(v[p].0.as_str().as_bytes(), name.as_str().as_bytes())
        invariant
            v@ == before,
            p <= v@.len(),
            forall|a: int|
                0 <= a < p ==> bytes::bytes_lt(
                    encode_utf8(#[trigger] before[a].0@),
                    encode_utf8(name@),
                ),
        decreases v@.len() - p,
    {
        p += 1;
    }
    proof {
        assert forall|a: int| p <= a < before.len() implies bytes::bytes_lt(
            encode_utf8(name@),
            encode_utf8(#[trigger] before[a].0@),
        ) by {
            let q = before[p as int].0@;
            encode_utf8_decode_utf8(name@);
            encode_utf8_decode_utf8(q);
            bytes::lemma_bytes_lt_total(encode_utf8(name@), encode_utf8(q));
            if p < a {
                bytes::lemma_bytes_lt_trans(
                    encode_utf8(name@),
                    encode_utf8(q),
                    encode_utf8(before[a].0@),
                );
            }
        }
    }
    v.insert(p, (name, s));
    proof {
        assert forall|a: int, b: int| 0 <= a < b < v@.len() implies bytes::bytes_lt(
            encode_utf8(#[trigger] v@[a].0@),
            encode_utf8(#[trigger] v@[b].0@),
        ) by {
            let x = if a < p { a } else { a - 1 };
            let y = if b < p { b } else { b - 1 };
            assert(a != p ==> v@[a] == before[x]);
            assert(b != p ==> v@[b] == before[y]);
        }
    }
    p
}

/// Inserts a guard behind those that are no better.
fn insert_by_rate(v: &mut Vec<(String, GuardStats)>, name: String, s: GuardStats) -> (p: usize)
    requires
        worst_first(old(v)@),
    ensures
        p <= old(v)@.len(),
        final(v)@ == old(v)@.insert(p as int, (name, s)),
        worst_first(final(v)@),
{
    let ghost before = v@;
    let mut p: usize = 0;
    while p < v.len() && v[p].1.rate_at_most(&s)
        invariant
            v@ == before,
            p <= v@.len(),
            forall|a: int| 0 <= a < p ==> (#[trigger] before[a]).1.no_better(s),
        decreases v@.len() - p,
    {
        p += 1;
    }
    proof {
        assert forall|a: int| p <= a < before.len() implies s.no_better((#[trigger] before[a]).1) by {
            assert(s.no_better(before[p as int].1));
            if p < a {
                lemma_no_better_trans(s, before[p as int].1, before[a].1);
            }
        }
    }
    v.insert(p, (name, s));
    proof {
        assert forall|a: int, b: int| 0 <= a < b < v@.len() implies (#[trigger] v@[a]).1.no_better(
            (#[trigger] v@[b]).1,
        ) by {
            let x = if a < p { a } else { a - 1 };
            let y = if b < p { b } else { b - 1 };
            assert(a != p ==> v@[a] == before[x]);
            assert(b != p ==> v@[b] == before[y]);
        }
    }
    p
}

/// `v` holds those of the first `i` entries of `list` for which `keep` holds,
/// each once.
#[verifier::opaque]
spec fn gathered(
    v: Seq<(String, GuardStats)>,
    list: Seq<(String, GuardStats)>,
    i: int,
    keep: spec_fn(GuardStats) -> bool,
) -> bool {
    &&& names::distinct_names(v)
    &&& forall|a: int|
        0 <= a < v.len() ==> keep((#[trigger] v[a]).1) && exists|b: int|
            0 <= b < i && #[trigger] list[b] == v[a]
    &&& forall|b: int|
        0 <= b < i && keep((#[trigger] list[b]).1) ==> exists|a: int|
            0 <= a < v.len() && #[trigger] v[a] == list[b]
}

proof fn lemma_gathered_none(
    v: Seq<(String, GuardStats)>,
    list: Seq<(String, GuardStats)>,
    keep: spec_fn(GuardStats) -> bool,
)
    requires
        v.len() == 0,
    ensures
        gathered(v, list, 0, keep),
{
    reveal(gathered);
}

proof fn lemma_gathered_skip(
    v: Seq<(String, GuardStats)>,
    list: Seq<(String, GuardStats)>,
    i: int,
    keep: spec_fn(GuardStats) -> bool,
)
    requires
        0 <= i < list.len(),
        gathered(v, list, i, keep),
        !keep(list[i].1),
    ensures
        gathered(v, list, i + 1, keep),
{
    reveal(gathered);
    assert forall|a: int| 0 <= a < v.len() implies keep((#[trigger] v[a]).1) && exists|b: int|
        0 <= b < i + 1 && #[trigger] list[b] == v[a] by {
        let b = choose|b: int| 0 <= b < i && #[trigger] list[b] == v[a];
        assert(list[b] == v[a]);
    }
}

proof fn lemma_gathered_fresh(
    v: Seq<(String, GuardStats)>,
    list: Seq<(String, GuardStats)>,
    i: int,
    keep: spec_fn(GuardStats) -> bool,
)
    requires
        0 <= i < list.len(),
        names::distinct_names(list),
        gathered(v, list, i, keep),
    ensures
        forall|a: int| 0 <= a < v.len() ==> #[trigger] v[a].0@ != list[i].0@,
{
    reveal(gathered);
    assert forall|a: int| 0 <= a < v.len() implies #[trigger] v[a].0@ != list[i].0@ by {
        let b = choose|b: int| 0 <= b < i && #[trigger] list[b] == v[a];
        assert(list[b].0@ != list[i].0@);
    }
}

proof fn lemma_gathered_insert(
    before: Seq<(String, GuardStats)>,
    p: int,
    after: Seq<(String, GuardStats)>,
    list: Seq<(String, GuardStats)>,
    i: int,
    keep: spec_fn(GuardStats) -> bool,
)
    requires
        0 <= p <= before.len(),
        0 <= i < list.len(),
        names::distinct_names(list),
        after == before.insert(p, list[i]),
        gathered(before, list, i, keep),
        keep(list[i].1),
    ensures
        gathered(after, list, i + 1, keep),
{
    lemma_gathered_fresh(before, list, i, keep);
    reveal(gathered);
    assert forall|a: int, b: int| 0 <= a < b < after.len() implies #[trigger] after[a].0@
        != #[trigger] after[b].0@ by {
        let x = if a < p { a } else { a - 1 };
        let y = if b < p { b } else { b - 1 };
        assert(a != p ==> after[a] == before[x]);
        assert(b != p ==> after[b] == before[y]);
    }
    assert forall|a: int| 0 <= a < after.len() implies keep((#[trigger] after[a]).1) && exists|
        b: int,
    |
        0 <= b < i + 1 && #[trigger] list[b] == after[a] by {
        if a == p {
            assert(list[i] == after[a]);
        } else {
            let x = if a < p { a } else { a - 1 };
            assert(after[a] == before[x]);
            let b = choose|b: int| 0 <= b < i && #[trigger] list[b] == before[x];
            assert(list[b] == after[a]);
        }
    }
    assert forall|b: int| 0 <= b < i + 1 && keep((#[trigger] list[b]).1) implies exists|a: int|
        0 <= a < after.len() && #[trigger] after[a] == list[b] by {
        if b == i {
            assert(after[p] == list[b]);
        } else {
            let a = choose|a: int| 0 <= a < before.len() && #[trigger] before[a] == list[b];
            let x = if a < p { a } else { a + 1 };
            assert(after[x] == list[b]);
        }
    }
}

proof fn lemma_gathered_lists(
    v: Seq<(String, GuardStats)>,
    list: Seq<(String, GuardStats)>,
    keep: spec_fn(GuardStats) -> bool,
)
    requires
        names::distinct_names(list),
        gathered(v, list, list.len() as int, keep),
    ensures
        lists(v, names::named(list), keep),
{
    reveal(gathered);
    let m = names::named(list);
    names::lemma_named(list);
    assert forall|i: int| 0 <= i < v.len() implies m.contains_key(#[trigger] v[i].0@) && m[v[i].0@]
        == v[i].1 && keep(v[i].1) by {
        let b = choose|b: int| 0 <= b < list.len() && #[trigger] list[b] == v[i];
        assert(m[list[b].0@] == list[b].1);
    }
    assert forall|k: Seq<char>| m.contains_key(k) && keep(#[trigger] m[k]) implies exists|i: int|
        0 <= i < v.len() && #[trigger] v[i].0@ == k by {
        let b = choose|b: int| 0 <= b < list.len() && #[trigger] list[b].0@ == k;
        assert(m[list[b].0@] == list[b].1);
        let a = choose|a: int| 0 <= a < v.len() && #[trigger] v[a] == list[b];
        assert(v[a].0@ == k);
    }
}

/// A guard is suspected exactly where at least twenty circuits were tried through it and
/// fewer than three in ten came about.
pub proof fn law_when_a_guard_is_suspected(s: GuardStats, r: bool, failures: u32)
    requires
        call_ensures(GuardStats::is_suspicious, (&s,), r),
        call_ensures(GuardStats::failures, (&s,), failures),
    ensures
        r <==> s.attempts >= 20 && 10 * s.successes < 3 * s.attempts,
        s.successes <= s.attempts ==> failures + s.successes == s.attempts,
        s.successes > s.attempts ==> failures == 0,
{
}

/// Every attempt and every success counts once, for the guard it was made with and for no
/// other.
pub proof fn law_each_attempt_counts_once(
    before: PathBias,
    after: PathBias,
    won: PathBias,
    guard: &str,
    name: &str,
    was: GuardStats,
    is: GuardStats,
    then: GuardStats,
)
    requires
        exists|b: &mut PathBias|
            *b == before && *final(b) == after && #[trigger] call_ensures(PathBias::note_attempt, (b, guard), ()),
        exists|b: &mut PathBias|
            *b == after && *final(b) == won && #[trigger] call_ensures(PathBias::note_success, (b, guard), ()),
        call_ensures(PathBias::stats, (&before, name), was),
        call_ensures(PathBias::stats, (&after, name), is),
        call_ensures(PathBias::stats, (&won, name), then),
        was.attempts < u32::MAX,
        was.successes < u32::MAX,
    ensures
        name@ == guard@ ==> is.attempts == was.attempts + 1 && is.successes == was.successes,
        name@ == guard@ ==> then.attempts == is.attempts && then.successes == is.successes + 1,
        name@ != guard@ ==> is == was && then == was,
{
}

/// Nothing is known of a guard that was never tried, and nobody is suspected at first.
pub proof fn law_nobody_is_suspected_at_first(
    b: PathBias,
    guard: &str,
    s: GuardStats,
    listed: Vec<(String, GuardStats)>,
)
    requires
        call_ensures(PathBias::new, (), b),
        call_ensures(PathBias::stats, (&b, guard), s),
        call_ensures(PathBias::suspicious, (&b,), listed),
    ensures
        s.attempts == 0 && s.successes == 0,
        listed@.len() == 0,
{
    if listed@.len() > 0 {
        assert(b@.contains_key(listed@[0].0@));
    }
}

/// A guard is on the list of suspects exactly where its own counts make it one, with
/// these counts.
pub proof fn law_suspects_are_listed_with_their_counts(
    b: PathBias,
    guard: &str,
    s: GuardStats,
    suspect: bool,
    listed: Vec<(String, GuardStats)>,
)
    requires
        call_ensures(PathBias::stats, (&b, guard), s),
        call_ensures(GuardStats::is_suspicious, (&s,), suspect),
        call_ensures(PathBias::suspicious, (&b,), listed),
    ensures
        suspect <==> exists|i: int| 0 <= i < listed@.len() && #[trigger] listed@[i].0@ == guard@,
        forall|i: int| 0 <= i < listed@.len() && #[trigger] listed@[i].0@ == guard@ ==> listed@[i].1 == s,
{
    let keep = |x: GuardStats| x.suspect();
    if suspect {
        assert(b@.contains_key(guard@) && keep(b@[guard@]));
    }
}

/// The guards are listed by how much they can be relied on, the worst first: of two that
/// were tried, the one before has no larger a share of successes. Suspects are listed by
/// name.
pub proof fn law_the_worst_guards_come_first(b: PathBias, all: Vec<(String, GuardStats)>, s: Vec<(String, GuardStats)>, i: int, j: int)
    requires
        call_ensures(PathBias::all, (&b,), all),
        call_ensures(PathBias::suspicious, (&b,), s),
    ensures
        0 <= i < j < all@.len() && all@[i].1.attempts > 0 && all@[j].1.attempts > 0 ==> all@[i].1.successes
            * all@[j].1.attempts <= all@[j].1.successes * all@[i].1.attempts,
        0 <= i < j < s@.len() ==> bytes::bytes_lt(encode_utf8(s@[i].0@), encode_utf8(s@[j].0@)),
{
    if 0 <= i < j < all@.len() {
        assert(all@[i].1.no_better(all@[j].1));
    }
}

} // verus!
