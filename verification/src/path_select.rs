//! Choosing a circuit of guard, middle and exit from the consensus.
//!
//! Each hop is drawn with a probability proportional to its bandwidth, from the
//! relays that have the flags of the position and share neither identity nor
//! subnet nor operator with a hop already chosen.

use crate::addr;
use crate::addr::parse_ipv4;
use crate::circuit::LinkSpec;
use crate::directory::{ConsensusDocument, PeerEntry, PeerFlags};
use crate::text;
use crate::text::{append_decimal, chars_of, hex_decode, join2, str_eq};
use rand::Rng;
use vstd::prelude::*;

verus! {

/// `rand::rngs::StdRng`, a source of random numbers.
#[verifier::external_type_specification]
#[verifier::external_body]
pub struct ExStdRng(rand::rngs::StdRng);

/// `rand::Rng::gen_range` from zero: a number below `upper`.
#[verifier::external_body]
pub(crate) fn draw_below(rng: &mut rand::rngs::StdRng, upper: u64) -> (r: u64)
    requires
        upper > 0,
    ensures
        r < upper,
{
    rng.gen_range(0..upper)
}

/// Asked for a number below `upper`, the generator in the state `state` gives `r`: what
/// one call of [`draw_below`] returns.
pub closed spec fn draws(state: rand::rngs::StdRng, upper: u64, r: u64) -> bool {
    exists|rng: &mut rand::rngs::StdRng|
        *rng == state && #[trigger] call_ensures(draw_below, (rng, upper), r)
}

/// One hop of a selected path.
#[derive(Clone, Debug, PartialEq)]
pub struct SelectedHop {
    pub node_id_hex: String,
    pub host: String,
    pub port: u16,
    pub static_pub_hex: String,
}

/// A path: guard, middle, exit.
#[derive(Clone, Debug)]
pub struct SelectedPath {
    pub hops: Vec<SelectedHop>,
}

/// Why no path was selected.
#[derive(Debug)]
pub enum PathError {
    InsufficientRelays(String),
}

impl PathError {
    /// The error in words.
    pub fn message(&self) -> (r: String)
        ensures
            self matches PathError::InsufficientRelays(s) ==> r@ == "insufficient relays: "@ + s@,
    {
        match self {
            PathError::InsufficientRelays(s) => join2("insufficient relays: ", s.as_str()),
        }
    }
}

/// Position in a circuit.
#[derive(Clone, Copy, Debug, PartialEq, Eq, Structural)]
pub enum Position {
    Guard,
    Middle,
    Exit,
}

/// The hop is the relay `p`.
pub open spec fn hop_of(h: SelectedHop, p: PeerEntry) -> bool {
    h.node_id_hex == p.node_id_hex && h.host == p.host && h.port == p.port && h.static_pub_hex
        == p.static_pub_hex
}

/// The text of 32 bytes in hexadecimal.
pub open spec fn is_key_hex(s: Seq<char>) -> bool {
    text::is_hex(s) && s.len() == 64
}

/// Reads 32 bytes from hexadecimal.
pub fn hex_to_32(s: &str) -> (r: Option<[u8; 32]>)
    ensures
        r is Some == is_key_hex(s@),
        r matches Some(k) ==> k@ == text::unhex(s@),
{
    match hex_decode(s) {
        Ok(v) => {
            if v.len() != 32 {
                return None;
            }
            assert(v@.subrange(0, 32) =~= v@);
            Some(crate::bytes::array_32(&v, 0))
        },
        Err(_) => None,
    }
}

/// The reason for which a hop cannot be linked to; nothing when it can.
pub open spec fn hop_fault(h: SelectedHop) -> Option<Seq<char>> {
    if !is_key_hex(h.node_id_hex@) {
        Some("hop has malformed node_id_hex: "@ + h.node_id_hex@)
    } else if !is_key_hex(h.static_pub_hex@) {
        Some("hop has malformed static_pub_hex: "@ + h.static_pub_hex@)
    } else {
        None
    }
}

/// `l` links to the hop `h`.
pub open spec fn links_to(l: LinkSpec, h: SelectedHop) -> bool {
    l.host@ == h.host@ && l.port == h.port && l.node_id@ == text::unhex(h.node_id_hex@) && l.static_pub@
        == text::unhex(h.static_pub_hex@)
}

impl From<&PeerEntry> for SelectedHop {
    /// The hop that is the relay `p`.
    fn from(p: &PeerEntry) -> (r: Self) {
        SelectedHop {
            node_id_hex: p.node_id_hex.clone(),
            host: p.host.clone(),
            port: p.port,
            static_pub_hex: p.static_pub_hex.clone(),
        }
    }
}

impl vstd::std_specs::convert::FromSpecImpl<&PeerEntry> for SelectedHop {
    open spec fn obeys_from_spec() -> bool {
        true
    }

    open spec fn from_spec(p: &PeerEntry) -> Self {
        SelectedHop {
            node_id_hex: p.node_id_hex,
            host: p.host,
            port: p.port,
            static_pub_hex: p.static_pub_hex,
        }
    }
}

impl SelectedHop {
    /// How to link to the hop. Fails when an identity or a key is not 32 bytes in
    /// hexadecimal.
    pub fn to_link_spec(&self) -> (r: Result<LinkSpec, PathError>)
        ensures
            r is Ok == hop_fault(*self) is None,
            r matches Ok(l) ==> links_to(l, *self),
            r matches Err(PathError::InsufficientRelays(m)) ==> Some(m@) == hop_fault(*self),
    {
        let node_id: [u8; 32] = match hex_to_32(self.node_id_hex.as_str()) {
            Some(k) => k,
            None => {
                return Err(
                    PathError::InsufficientRelays(
                        join2("hop has malformed node_id_hex: ", self.node_id_hex.as_str()),
                    ),
                );
            },
        };
        let static_pub: [u8; 32] = match hex_to_32(self.static_pub_hex.as_str()) {
            Some(k) => k,
            None => {
                return Err(
                    PathError::InsufficientRelays(
                        join2("hop has malformed static_pub_hex: ", self.static_pub_hex.as_str()),
                    ),
                );
            },
        };
        Ok(LinkSpec { host: self.host.clone(), port: self.port, node_id, static_pub })
    }
}

impl SelectedPath {
    /// How to link to every hop. Fails with the first hop that cannot be linked
    /// to.
    pub fn to_link_specs(&self) -> (r: Result<Vec<LinkSpec>, PathError>)
        ensures
            match r {
                Ok(v) => v@.len() == self.hops@.len() && forall|i: int|
                    0 <= i < v@.len() ==> hop_fault(#[trigger] self.hops@[i]) is None && links_to(
                        v@[i],
                        self.hops@[i],
                    ),
                Err(PathError::InsufficientRelays(m)) => exists|i: int|
                    0 <= i < self.hops@.len() && Some(m@) == hop_fault(#[trigger] self.hops@[i])
                        && forall|j: int|
                        0 <= j < i ==> hop_fault(#[trigger] self.hops@[j]) is None,
            },
    {
        let mut v: Vec<LinkSpec> = Vec::new();
        let mut i: usize = 0;
        while i < self.hops.len()
            invariant
                i <= self.hops@.len(),
                v@.len() == i,
                forall|j: int|
                    0 <= j < i ==> hop_fault(#[trigger] self.hops@[j]) is None && links_to(
                        v@[j],
                        self.hops@[j],
                    ),
            decreases self.hops@.len() - i,
        {
            match self.hops[i].to_link_spec() {
                Ok(l) => v.push(l),
                Err(e) => {
                    assert(hop_fault(self.hops@[i as int]) is Some);
                    return Err(e);
                },
            }
            i += 1;
        }
        Ok(v)
    }
}

/// The flags that a position asks for.
pub open spec fn required_flags(position: Position) -> u32 {
    match position {
        Position::Guard => 0x37,
        Position::Middle => 0x33,
        Position::Exit => 0x3b,
    }
}

/// The relay has all flags of the position, and was measured.
pub open spec fn suits(p: PeerEntry, position: Position) -> bool {
    p.flags & required_flags(position) == required_flags(position) && p.bandwidth_kbs > 0
}

/// The relays of `s` for which `keep` holds, in order.
pub open spec fn those(s: Seq<PeerEntry>, keep: spec_fn(PeerEntry) -> bool) -> Seq<PeerEntry> {
    s.filter(keep)
}

/// The relays behind a list of references.
pub open spec fn behind(v: Seq<&PeerEntry>) -> Seq<PeerEntry> {
    Seq::new(v.len(), |i: int| *v[i])
}

proof fn lemma_filter_step(s: Seq<PeerEntry>, i: int, keep: spec_fn(PeerEntry) -> bool)
    requires
        0 <= i < s.len(),
    ensures
        s.take(i + 1).filter(keep) == if keep(s[i]) {
            s.take(i).filter(keep).push(s[i])
        } else {
            s.take(i).filter(keep)
        },
{
    reveal(Seq::filter);
    assert(s.take(i + 1).drop_last() =~= s.take(i));
}

/// Whether the relay has all flags of the position, and was measured.
fn suits_position(p: &PeerEntry, position: Position) -> (r: bool)
    ensures
        r == suits(*p, position),
{
    let required: u32 = match position {
        Position::Guard => PeerFlags::STABLE | PeerFlags::FAST | PeerFlags::GUARD
            | PeerFlags::RUNNING | PeerFlags::VALID,
        Position::Middle => PeerFlags::STABLE | PeerFlags::FAST | PeerFlags::RUNNING
            | PeerFlags::VALID,
        Position::Exit => PeerFlags::STABLE | PeerFlags::FAST | PeerFlags::EXIT
            | PeerFlags::RUNNING | PeerFlags::VALID,
    };
    assert(0x01u32 | 0x02 | 0x04 | 0x10 | 0x20 == 0x37) by (bit_vector);
    assert(0x01u32 | 0x02 | 0x10 | 0x20 == 0x33) by (bit_vector);
    assert(0x01u32 | 0x02 | 0x08 | 0x10 | 0x20 == 0x3b) by (bit_vector);
    assert(required == required_flags(position));
    (p.flags & required) == required && p.bandwidth_kbs > 0
}

/// The relays that suit a position, in the order of the consensus.
pub fn eligible_for_position<'a>(consensus: &'a ConsensusDocument, position: Position) -> (r: Vec<
    &'a PeerEntry,
>)
    ensures
        behind(r@) == those(consensus.peers@, |p: PeerEntry| suits(p, position)),
{
    let ghost keep = |p: PeerEntry| suits(p, position);
    let mut v: Vec<&'a PeerEntry> = Vec::new();
    let mut i: usize = 0;
    proof {
        reveal(Seq::filter);
        assert(consensus.peers@.take(0) =~= Seq::empty());
        assert(behind(v@) =~= Seq::empty());
    }
    while i < consensus.peers.len()
        invariant
            i <= consensus.peers@.len(),
            keep == (|p: PeerEntry| suits(p, position)),
            behind(v@) == consensus.peers@.take(i as int).filter(keep),
        decreases consensus.peers@.len() - i,
    {
        proof {
            lemma_filter_step(consensus.peers@, i as int, keep);
        }
        let ghost before = v@;
        if suits_position(&consensus.peers[i], position) {
            v.push(&consensus.peers[i]);
            assert(behind(v@) =~= behind(before).push(consensus.peers@[i as int]));
        }
        i += 1;
    }
    assert(consensus.peers@.take(i as int) =~= consensus.peers@);
    v
}

/// The total bandwidth of `s`.
pub open spec fn total_bandwidth(s: Seq<PeerEntry>) -> nat
    decreases s.len(),
{
    if s.len() == 0 {
        0
    } else {
        total_bandwidth(s.drop_last()) + s.last().bandwidth_kbs as nat
    }
}

proof fn lemma_total_prefix(s: Seq<PeerEntry>, i: int)
    requires
        0 <= i <= s.len(),
    ensures
        total_bandwidth(s.take(i)) <= total_bandwidth(s),
    decreases s.len() - i,
{
    if i < s.len() {
        assert(s.take(i + 1).drop_last() =~= s.take(i));
        lemma_total_prefix(s, i + 1);
    } else {
        assert(s.take(i) =~= s);
    }
}

proof fn lemma_total_filter(s: Seq<PeerEntry>, keep: spec_fn(PeerEntry) -> bool)
    ensures
        total_bandwidth(s.filter(keep)) <= total_bandwidth(s),
    decreases s.len(),
{
    reveal(Seq::filter);
    if s.len() > 0 {
        lemma_total_filter(s.drop_last(), keep);
        let f = s.drop_last().filter(keep);
        assert(f.push(s.last()).drop_last() =~= f);
    }
}

/// The relay at `i` covers the point `target`: the bandwidths before it add up
/// to at most `target`, and with its own to more.
pub open spec fn covers(s: Seq<PeerEntry>, target: u64, i: int) -> bool {
    0 <= i < s.len() && total_bandwidth(s.take(i)) <= target < total_bandwidth(s.take(i + 1))
}

/// A relay that a draw weighted by bandwidth can give; where no relay has
/// bandwidth, any relay.
pub open spec fn drawn(s: Seq<PeerEntry>, i: int) -> bool {
    0 <= i < s.len() && (total_bandwidth(s) == 0 || exists|target: u64| #[trigger] covers(s, target, i))
}

/// The generator in the state `state` picks the relay at `i`: of a number drawn below the
/// total bandwidth, the relay covers it; where no relay has bandwidth, the number is drawn
/// below their count and is its place.
pub open spec fn picks(state: rand::rngs::StdRng, s: Seq<PeerEntry>, i: int) -> bool {
    0 <= i < s.len() && if total_bandwidth(s) == 0 {
        draws(state, s.len() as u64, i as u64)
    } else {
        exists|target: u64| #[trigger]
            draws(state, total_bandwidth(s) as u64, target) && covers(s, target, i)
    }
}

/// The relay whose share of the total bandwidth holds `target`.
pub fn pick_by_target(candidates: &[&PeerEntry], target: u64) -> (r: usize)
    requires
        target < total_bandwidth(behind(candidates@)),
    ensures
        covers(behind(candidates@), target, r as int),
{
    let ghost s = behind(candidates@);
    let mut left: u64 = target;
    let mut i: usize = 0;
    assert(s.take(0) =~= Seq::empty());
    while i < candidates.len()
        invariant
            s == behind(candidates@),
            i <= s.len(),
            target < total_bandwidth(s),
            left + total_bandwidth(s.take(i as int)) == target,
        decreases s.len() - i,
    {
        assert(s.take(i + 1).drop_last() =~= s.take(i as int));
        let bw: u64 = candidates[i].bandwidth_kbs as u64;
        if left < bw {
            return i;
        }
        left = left - bw;
        i += 1;
    }
    assert(s.take(i as int) =~= s);
    i
}

/// Draws a relay with a probability proportional to its bandwidth; uniformly
/// where no relay has any. Nothing from an empty list.
pub fn weighted_random_pick<'a>(rng: &mut rand::rngs::StdRng, candidates: &[&'a PeerEntry]) -> (r:
    Option<&'a PeerEntry>)
    requires
        total_bandwidth(behind(candidates@)) <= u64::MAX,
    ensures
        r is None == (candidates@.len() == 0),
        r matches Some(p) ==> exists|i: int| #[trigger]
            drawn(behind(candidates@), i) && p == candidates@[i],
        r matches Some(p) ==> exists|i: int| #[trigger]
            picks(*old(rng), behind(candidates@), i) && p == candidates@[i],
        r is None ==> *final(rng) == *old(rng),
{
    if candidates.len() == 0 {
        return None;
    }
    let ghost s = behind(candidates@);
    let mut total: u64 = 0;
    let mut i: usize = 0;
    assert(s.take(0) =~= Seq::empty());
    while i < candidates.len()
        invariant
            s == behind(candidates@),
            i <= s.len(),
            total_bandwidth(s) <= u64::MAX,
            total == total_bandwidth(s.take(i as int)),
        decreases s.len() - i,
    {
        proof {
            assert(s.take(i + 1).drop_last() =~= s.take(i as int));
            lemma_total_prefix(s, i + 1);
        }
        total = total + candidates[i].bandwidth_kbs as u64;
        i += 1;
    }
    assert(s.take(i as int) =~= s);
    let k: usize = if total == 0 {
        let place: u64 = draw_below(rng, candidates.len() as u64);
        assert(draws(*old(rng), s.len() as u64, place));
        assert(picks(*old(rng), s, place as int));
        place as usize
    } else {
        let target: u64 = draw_below(rng, total);
        assert(draws(*old(rng), total_bandwidth(s) as u64, target));
        let k: usize = pick_by_target(candidates, target);
        assert(covers(s, target, k as int));
        assert(picks(*old(rng), s, k as int));
        k
    };
    assert(drawn(s, k as int));
    Some(candidates[k])
}

/// The subnet of a host: the first two octets of an IPv4 address; any other host
/// stands for itself.
pub open spec fn subnet_of(host: Seq<char>) -> Seq<char> {
    if addr::is_ipv4(host) {
        "ipv4-"@ + text::decimal(addr::ipv4_octets(host)[0] as nat) + "."@ + text::decimal(
            addr::ipv4_octets(host)[1] as nat,
        )
    } else {
        "host-"@ + host
    }
}

/// The subnet of a host.
pub fn subnet_key(host: &str) -> (r: String)
    ensures
        r@ == subnet_of(host@),
{
    let v: Vec<char> = chars_of(host);
    let n: usize = v.len();
    assert(v@.subrange(0, n as int) =~= host@);
    if let Some(o) = parse_ipv4(&v, 0, n) {
        let mut r: String = "ipv4-".to_owned();
        append_decimal(&mut r, o[0] as u64);
        r.append(".");
        append_decimal(&mut r, o[1] as u64);
        return r;
    }
    join2("host-", host)
}

/// IPv4 hosts share a subnet when their first two octets are the same. Any other host
/// shares one with nobody but itself.
pub proof fn law_hosts_of_a_subnet(a: Seq<char>, b: Seq<char>)
    ensures
        (subnet_of(a) == subnet_of(b)) == if addr::is_ipv4(a) && addr::is_ipv4(b) {
            addr::ipv4_octets(a)[0] == addr::ipv4_octets(b)[0] && addr::ipv4_octets(a)[1]
                == addr::ipv4_octets(b)[1]
        } else {
            a == b
        },
{
    reveal_strlit("ipv4-");
    reveal_strlit(".");
    reveal_strlit("host-");
    let (x, y) = (subnet_of(a), subnet_of(b));
    if addr::is_ipv4(a) && addr::is_ipv4(b) {
        let (a0, a1) = (addr::ipv4_octets(a)[0] as nat, addr::ipv4_octets(a)[1] as nat);
        let (b0, b1) = (addr::ipv4_octets(b)[0] as nat, addr::ipv4_octets(b)[1] as nat);
        text::lemma_decimal_value(a0);
        text::lemma_decimal_value(a1);
        text::lemma_decimal_value(b0);
        text::lemma_decimal_value(b1);
        let (da, db) = (text::decimal(a0), text::decimal(b0));
        assert(x.skip(5) =~= da + "."@ + text::decimal(a1));
        assert(y.skip(5) =~= db + "."@ + text::decimal(b1));
        if x == y {
            let s = x.skip(5);
            assert(s[da.len() as int] == '.' && s[db.len() as int] == '.');
            if da.len() < db.len() {
                assert(s[da.len() as int] == db[da.len() as int]);
            }
            if db.len() < da.len() {
                assert(s[db.len() as int] == da[db.len() as int]);
            }
            assert(da =~= s.take(da.len() as int));
            assert(db =~= s.take(da.len() as int));
            assert(text::decimal(a1) =~= s.skip(da.len() as int + 1));
            assert(text::decimal(b1) =~= s.skip(da.len() as int + 1));
        }
    } else if !addr::is_ipv4(a) && !addr::is_ipv4(b) {
        assert(x.skip(5) =~= a);
        assert(y.skip(5) =~= b);
    } else {
        assert(x[0] != y[0]);
    }
}

/// Two relays have the same declared operator. An empty label is no operator.
pub open spec fn related(a: Seq<char>, b: Seq<char>) -> bool {
    a.len() > 0 && a == b
}

/// Whether two family labels name the same operator.
pub fn same_family(a: &str, b: &str) -> (r: bool)
    ensures
        r == related(a@, b@),
{
    !a.is_empty() && str_eq(a, b)
}

/// `id` is one of `excluded`.
pub open spec fn is_excluded(id: Seq<char>, excluded: Seq<String>) -> bool {
    exists|i: int| 0 <= i < excluded.len() && (#[trigger] excluded[i])@ == id
}

fn excludes(excluded: &[String], id: &str) -> (r: bool)
    ensures
        r == is_excluded(id@, excluded@),
{
    let mut i: usize = 0;
    while i < excluded.len()
        invariant
            i <= excluded@.len(),
            forall|j: int| 0 <= j < i ==> (#[trigger] excluded@[j])@ != id@,
        decreases excluded@.len() - i,
    {
        if str_eq(excluded[i].as_str(), id) {
            assert(excluded@[i as int]@ == id@);
            return true;
        }
        i += 1;
    }
    false
}

/// The relay `p` may share a circuit with the relay `q`: another identity, another
/// subnet, another operator.
pub open spec fn diverse(p: PeerEntry, q: PeerEntry) -> bool {
    p.node_id_hex@ != q.node_id_hex@ && subnet_of(p.host@) != subnet_of(q.host@) && !related(
        p.family@,
        q.family@,
    )
}

/// The relays from which the guard is drawn.
pub open spec fn guard_pool(c: ConsensusDocument, excluded: Seq<String>) -> Seq<PeerEntry> {
    those(
        c.peers@,
        |p: PeerEntry| suits(p, Position::Guard) && !is_excluded(p.node_id_hex@, excluded),
    )
}

/// The relays from which the exit is drawn, once the guard is known.
pub open spec fn exit_pool(c: ConsensusDocument, excluded: Seq<String>, guard: PeerEntry) -> Seq<
    PeerEntry,
> {
    those(
        c.peers@,
        |p: PeerEntry|
            suits(p, Position::Exit) && !is_excluded(p.node_id_hex@, excluded) && diverse(p, guard),
    )
}

/// The relays from which the middle is drawn, once guard and exit are known.
pub open spec fn middle_pool(
    c: ConsensusDocument,
    excluded: Seq<String>,
    guard: PeerEntry,
    exit: PeerEntry,
) -> Seq<PeerEntry> {
    those(
        c.peers@,
        |p: PeerEntry|
            suits(p, Position::Middle) && !is_excluded(p.node_id_hex@, excluded) && diverse(
                p,
                guard,
            ) && diverse(p, exit),
    )
}

/// Whether `p` may share a circuit with `q`.
fn is_diverse(p: &PeerEntry, q: &PeerEntry) -> (r: bool)
    ensures
        r == diverse(*p, *q),
{
    !str_eq(p.node_id_hex.as_str(), q.node_id_hex.as_str()) && !str_eq(
        subnet_key(p.host.as_str()).as_str(),
        subnet_key(q.host.as_str()).as_str(),
    ) && !same_family(p.family.as_str(), q.family.as_str())
}

/// The relays that suit a position, are not excluded and are diverse from the
/// hops already chosen.
fn pool<'a>(
    c: &'a ConsensusDocument,
    excluded: &[String],
    position: Position,
    chosen: &[&PeerEntry],
) -> (r: Vec<&'a PeerEntry>)
    ensures
        behind(r@) == those(
            c.peers@,
            |p: PeerEntry|
                suits(p, position) && !is_excluded(p.node_id_hex@, excluded@) && forall|k: int|
                    0 <= k < chosen@.len() ==> diverse(p, *#[trigger] chosen@[k]),
        ),
{
    let ghost keep = |p: PeerEntry|
        suits(p, position) && !is_excluded(p.node_id_hex@, excluded@) && forall|k: int|
            0 <= k < chosen@.len() ==> diverse(p, *#[trigger] chosen@[k]);
    let mut v: Vec<&'a PeerEntry> = Vec::new();
    let mut i: usize = 0;
    proof {
        reveal(Seq::filter);
        assert(c.peers@.take(0) =~= Seq::empty());
        assert(behind(v@) =~= Seq::empty());
    }
    while i < c.peers.len()
        invariant
            i <= c.peers@.len(),
            keep == (|p: PeerEntry|
                suits(p, position) && !is_excluded(p.node_id_hex@, excluded@) && forall|k: int|
                    0 <= k < chosen@.len() ==> diverse(p, *#[trigger] chosen@[k])),
            behind(v@) == c.peers@.take(i as int).filter(keep),
        decreases c.peers@.len() - i,
    {
        proof {
            lemma_filter_step(c.peers@, i as int, keep);
        }
        let p: &'a PeerEntry = &c.peers[i];
        let mut ok: bool = suits_position(p, position) && !excludes(
            excluded,
            p.node_id_hex.as_str(),
        );
        let mut k: usize = 0;
        while k < chosen.len()
            invariant
                k <= chosen@.len(),
                *p == c.peers@[i as int],
                ok == (suits(*p, position) && !is_excluded(p.node_id_hex@, excluded@) && forall|
                    j: int,
                |
                    0 <= j < k ==> diverse(*p, *#[trigger] chosen@[j])),
            decreases chosen@.len() - k,
        {
            let d: bool = is_diverse(p, chosen[k]);
            ok = ok && d;
            k += 1;
        }
        let ghost before = v@;
        if ok {
            v.push(p);
            assert(behind(v@) =~= behind(before).push(c.peers@[i as int]));
        }
        i += 1;
    }
    assert(c.peers@.take(i as int) =~= c.peers@);
    v
}

/// The relays from which the guard is drawn.
pub fn guard_candidates<'a>(c: &'a ConsensusDocument, excluded: &[String]) -> (r: Vec<
    &'a PeerEntry,
>)
    ensures
        behind(r@) == guard_pool(*c, excluded@),
{
    let none: Vec<&PeerEntry> = Vec::new();
    let r: Vec<&'a PeerEntry> = pool(c, excluded, Position::Guard, &none);
    proof {
        let a = |p: PeerEntry|
            suits(p, Position::Guard) && !is_excluded(p.node_id_hex@, excluded@) && forall|k: int|
                0 <= k < none@.len() ==> diverse(p, *#[trigger] none@[k]);
        let b = |p: PeerEntry|
            suits(p, Position::Guard) && !is_excluded(p.node_id_hex@, excluded@);
        assert(a =~= b);
    }
    r
}

/// The relays from which the exit is drawn, once the guard is known.
pub fn exit_candidates<'a>(
    c: &'a ConsensusDocument,
    excluded: &[String],
    guard: &PeerEntry,
) -> (r: Vec<&'a PeerEntry>)
    ensures
        behind(r@) == exit_pool(*c, excluded@, *guard),
{
    let mut chosen: Vec<&PeerEntry> = Vec::new();
    chosen.push(guard);
    let r: Vec<&'a PeerEntry> = pool(c, excluded, Position::Exit, &chosen);
    proof {
        let a = |p: PeerEntry|
            suits(p, Position::Exit) && !is_excluded(p.node_id_hex@, excluded@) && forall|k: int|
                0 <= k < chosen@.len() ==> diverse(p, *#[trigger] chosen@[k]);
        let b = |p: PeerEntry|
            suits(p, Position::Exit) && !is_excluded(p.node_id_hex@, excluded@) && diverse(
                p,
                *guard,
            );
        assert forall|p: PeerEntry| #[trigger] a(p) == b(p) by {
            assert(*chosen@[0] == *guard);
        }
        assert(a =~= b);
    }
    r
}

/// The relays from which the middle is drawn, once guard and exit are known.
pub fn middle_candidates<'a>(
    c: &'a ConsensusDocument,
    excluded: &[String],
    guard: &PeerEntry,
    exit: &PeerEntry,
) -> (r: Vec<&'a PeerEntry>)
    ensures
        behind(r@) == middle_pool(*c, excluded@, *guard, *exit),
{
    let mut chosen: Vec<&PeerEntry> = Vec::new();
    chosen.push(guard);
    chosen.push(exit);
    let r: Vec<&'a PeerEntry> = pool(c, excluded, Position::Middle, &chosen);
    proof {
        let a = |p: PeerEntry|
            suits(p, Position::Middle) && !is_excluded(p.node_id_hex@, excluded@) && forall|k: int|
                0 <= k < chosen@.len() ==> diverse(p, *#[trigger] chosen@[k]);
        let b = |p: PeerEntry|
            suits(p, Position::Middle) && !is_excluded(p.node_id_hex@, excluded@) && diverse(
                p,
                *guard,
            ) && diverse(p, *exit);
        assert forall|p: PeerEntry| #[trigger] a(p) == b(p) by {
            assert(*chosen@[0] == *guard);
            assert(*chosen@[1] == *exit);
        }
        assert(a =~= b);
    }
    r
}

/// `g` can be the guard: it is pinned, or drawn from the guards.
pub open spec fn can_be_guard(
    c: ConsensusDocument,
    excluded: Seq<String>,
    pinned: Option<&PeerEntry>,
    g: PeerEntry,
) -> bool {
    match pinned {
        Some(p) => g == *p,
        None => exists|i: int| #[trigger]
            drawn(guard_pool(c, excluded), i) && g == guard_pool(c, excluded)[i],
    }
}

/// `e` can be the exit beside the guard `g`.
pub open spec fn can_be_exit(
    c: ConsensusDocument,
    excluded: Seq<String>,
    g: PeerEntry,
    e: PeerEntry,
) -> bool {
    exists|i: int| #[trigger]
        drawn(exit_pool(c, excluded, g), i) && e == exit_pool(c, excluded, g)[i]
}

/// `m` can be the middle between the guard `g` and the exit `e`.
pub open spec fn can_be_middle(
    c: ConsensusDocument,
    excluded: Seq<String>,
    g: PeerEntry,
    e: PeerEntry,
    m: PeerEntry,
) -> bool {
    exists|i: int| #[trigger]
        drawn(middle_pool(c, excluded, g, e), i) && m == middle_pool(c, excluded, g, e)[i]
}

/// The path is `g`, `m`, `e`, and each can stand where it stands.
pub open spec fn is_path(
    c: ConsensusDocument,
    excluded: Seq<String>,
    pinned: Option<&PeerEntry>,
    path: SelectedPath,
    g: PeerEntry,
    m: PeerEntry,
    e: PeerEntry,
) -> bool {
    &&& path.hops@.len() == 3
    &&& can_be_guard(c, excluded, pinned, g) && hop_of(path.hops@[0], g)
    &&& can_be_exit(c, excluded, g, e) && hop_of(path.hops@[2], e)
    &&& can_be_middle(c, excluded, g, e, m) && hop_of(path.hops@[1], m)
}

/// The generator in the state `state` gives the guard `g`: the pinned one, or the one
/// picked from the guards.
pub open spec fn gives_guard(
    state: rand::rngs::StdRng,
    c: ConsensusDocument,
    excluded: Seq<String>,
    pinned: Option<&PeerEntry>,
    g: PeerEntry,
) -> bool {
    match pinned {
        Some(p) => g == *p,
        None => exists|i: int| #[trigger]
            picks(state, guard_pool(c, excluded), i) && g == guard_pool(c, excluded)[i],
    }
}

/// The generator in the state `state` gives the exit `e` beside the guard `g`.
pub open spec fn gives_exit(
    state: rand::rngs::StdRng,
    c: ConsensusDocument,
    excluded: Seq<String>,
    g: PeerEntry,
    e: PeerEntry,
) -> bool {
    exists|i: int| #[trigger] picks(state, exit_pool(c, excluded, g), i) && e == exit_pool(c, excluded, g)[i]
}

/// The generator in the state `state` gives the middle `m` between the guard `g` and the
/// exit `e`.
pub open spec fn gives_middle(
    state: rand::rngs::StdRng,
    c: ConsensusDocument,
    excluded: Seq<String>,
    g: PeerEntry,
    e: PeerEntry,
    m: PeerEntry,
) -> bool {
    exists|i: int| #[trigger]
        picks(state, middle_pool(c, excluded, g, e), i) && m == middle_pool(c, excluded, g, e)[i]
}

/// The generator, first in the state `state`, draws the guard, the exit and the middle
/// of the path, each by bandwidth from the relays that may stand there.
pub open spec fn draws_path(
    state: rand::rngs::StdRng,
    c: ConsensusDocument,
    excluded: Seq<String>,
    pinned: Option<&PeerEntry>,
    path: SelectedPath,
) -> bool {
    &&& path.hops@.len() == 3
    &&& exists|g: PeerEntry, e: PeerEntry, m: PeerEntry, second: rand::rngs::StdRng, third: rand::rngs::StdRng|
        {
            &&& #[trigger] gives_guard(state, c, excluded, pinned, g)
            &&& #[trigger] gives_exit(second, c, excluded, g, e)
            &&& #[trigger] gives_middle(third, c, excluded, g, e, m)
            &&& pinned is Some ==> second == state
            &&& hop_of(path.hops@[0], g)
            &&& hop_of(path.hops@[1], m)
            &&& hop_of(path.hops@[2], e)
        }
}

/// The generator, first in the state `state`, draws no path, and `text` says why: at the
/// first position for which no relay is left, beside the hops that were drawn before it.
pub open spec fn draws_no_path(
    state: rand::rngs::StdRng,
    c: ConsensusDocument,
    excluded: Seq<String>,
    pinned: Option<&PeerEntry>,
    text: Seq<char>,
) -> bool {
    ||| text == NO_GUARD@ && pinned is None && guard_pool(c, excluded).len() == 0
    ||| text == NO_EXIT@ && exists|g: PeerEntry| #[trigger]
        gives_guard(state, c, excluded, pinned, g) && exit_pool(c, excluded, g).len() == 0
    ||| text == NO_MIDDLE@ && exists|g: PeerEntry, e: PeerEntry, second: rand::rngs::StdRng|
        {
            &&& #[trigger] gives_guard(state, c, excluded, pinned, g)
            &&& #[trigger] gives_exit(second, c, excluded, g, e)
            &&& pinned is Some ==> second == state
            &&& middle_pool(c, excluded, g, e).len() == 0
        }
}

/// The path can be selected.
pub open spec fn selectable(
    c: ConsensusDocument,
    excluded: Seq<String>,
    pinned: Option<&PeerEntry>,
    path: SelectedPath,
) -> bool {
    exists|g: PeerEntry, m: PeerEntry, e: PeerEntry| #[trigger]
        is_path(c, excluded, pinned, path, g, m, e)
}

/// Selection can fail with the text `text`: at the first position for which no relay
/// is left.
pub open spec fn can_fail(
    c: ConsensusDocument,
    excluded: Seq<String>,
    pinned: Option<&PeerEntry>,
    text: Seq<char>,
) -> bool {
    ||| text == NO_GUARD@ && pinned is None && guard_pool(c, excluded).len() == 0
    ||| text == NO_EXIT@ && exists|g: PeerEntry| #[trigger]
        can_be_guard(c, excluded, pinned, g) && exit_pool(c, excluded, g).len() == 0
    ||| text == NO_MIDDLE@ && exists|g: PeerEntry, e: PeerEntry| #[trigger]
        can_be_guard(c, excluded, pinned, g) && #[trigger] can_be_exit(c, excluded, g, e)
            && middle_pool(c, excluded, g, e).len() == 0
}

proof fn lemma_pool_member(s: Seq<PeerEntry>, keep: spec_fn(PeerEntry) -> bool, i: int)
    requires
        0 <= i < s.filter(keep).len(),
    ensures
        keep(s.filter(keep)[i]),
    decreases s.len(),
{
    reveal(Seq::filter);
    if s.len() > 0 {
        let f = s.drop_last().filter(keep);
        if i < f.len() {
            lemma_pool_member(s.drop_last(), keep, i);
        }
    }
}

/// A selected path is diverse: no two hops share an identity, a subnet or an
/// operator. No hop but a pinned guard is excluded.
pub proof fn law_paths_are_diverse(
    c: ConsensusDocument,
    excluded: Seq<String>,
    pinned: Option<&PeerEntry>,
    path: SelectedPath,
    g: PeerEntry,
    m: PeerEntry,
    e: PeerEntry,
)
    requires
        is_path(c, excluded, pinned, path, g, m, e),
    ensures
        diverse(e, g) && diverse(m, g) && diverse(m, e),
        suits(e, Position::Exit) && suits(m, Position::Middle),
        pinned is None ==> suits(g, Position::Guard) && !is_excluded(g.node_id_hex@, excluded),
        !is_excluded(e.node_id_hex@, excluded) && !is_excluded(m.node_id_hex@, excluded),
{
    let gk = |p: PeerEntry| suits(p, Position::Guard) && !is_excluded(p.node_id_hex@, excluded);
    let ek = |p: PeerEntry|
        suits(p, Position::Exit) && !is_excluded(p.node_id_hex@, excluded) && diverse(p, g);
    let mk = |p: PeerEntry|
        suits(p, Position::Middle) && !is_excluded(p.node_id_hex@, excluded) && diverse(p, g)
            && diverse(p, e);
    if pinned is None {
        let i = choose|i: int| #[trigger]
            drawn(guard_pool(c, excluded), i) && g == guard_pool(c, excluded)[i];
        lemma_pool_member(c.peers@, gk, i);
    }
    let i = choose|i: int| #[trigger]
        drawn(exit_pool(c, excluded, g), i) && e == exit_pool(c, excluded, g)[i];
    lemma_pool_member(c.peers@, ek, i);
    let j = choose|j: int| #[trigger]
        drawn(middle_pool(c, excluded, g, e), j) && m == middle_pool(c, excluded, g, e)[j];
    lemma_pool_member(c.peers@, mk, j);
}

/// The text of the error when no guard is left.
pub const NO_GUARD: &'static str = "no relays with GUARD flag available";

/// The text of the error when no exit is left.
pub const NO_EXIT: &'static str =
    "no exit relays available after subnet/family/exclusion filtering. If every relay you run declares the same family, that is this rule working: one operator's relays cannot form a diverse path";

/// The text of the error when no middle is left.
pub const NO_MIDDLE: &'static str =
    "no middle relays available after subnet/family/exclusion filtering";

/// Selects a path. `excluded_node_ids` are never drawn; `pinned_guard` is the
/// guard whatever its bandwidth. Fails when no relay is left for a position.
#[verifier::spinoff_prover]
#[verifier::rlimit(60)]
pub fn select_path(
    rng: &mut rand::rngs::StdRng,
    consensus: &ConsensusDocument,
    excluded_node_ids: &[String],
    pinned_guard: Option<&PeerEntry>,
) -> (r: Result<SelectedPath, PathError>)
    requires
        total_bandwidth(consensus.peers@) <= u64::MAX,
    ensures
        match r {
            Ok(path) => selectable(*consensus, excluded_node_ids@, pinned_guard, path),
            Err(PathError::InsufficientRelays(text)) => can_fail(
                *consensus,
                excluded_node_ids@,
                pinned_guard,
                text@,
            ),
        },
        match r {
            Ok(path) => draws_path(
                *old(rng),
                *consensus,
                excluded_node_ids@,
                pinned_guard,
                path,
            ),
            Err(PathError::InsufficientRelays(text)) => draws_no_path(
                *old(rng),
                *consensus,
                excluded_node_ids@,
                pinned_guard,
                text@,
            ),
        },
{
    let guard: &PeerEntry = match pinned_guard {
        Some(g) => g,
        None => {
            let guards: Vec<&PeerEntry> = guard_candidates(consensus, excluded_node_ids);
            proof {
                lemma_total_filter(
                    consensus.peers@,
                    |p: PeerEntry|
                        suits(p, Position::Guard) && !is_excluded(
                            p.node_id_hex@,
                            excluded_node_ids@,
                        ),
                );
            }
            match weighted_random_pick(rng, &guards) {
                Some(p) => p,
                None => {
                    assert(behind(guards@).len() == 0);
                    assert(can_fail(*consensus, excluded_node_ids@, pinned_guard, NO_GUARD@));
                    assert(draws_no_path(*old(rng), *consensus, excluded_node_ids@, pinned_guard, NO_GUARD@));
                    return Err(PathError::InsufficientRelays(NO_GUARD.to_owned()));
                },
            }
        },
    };
    assert(can_be_guard(*consensus, excluded_node_ids@, pinned_guard, *guard));
    let ghost second = *rng;
    assert(gives_guard(*old(rng), *consensus, excluded_node_ids@, pinned_guard, *guard));
    let exits: Vec<&PeerEntry> = exit_candidates(consensus, excluded_node_ids, guard);
    proof {
        lemma_total_filter(
            consensus.peers@,
            |p: PeerEntry|
                suits(p, Position::Exit) && !is_excluded(p.node_id_hex@, excluded_node_ids@)
                    && diverse(p, *guard),
        );
    }
    let exit: &PeerEntry = match weighted_random_pick(rng, &exits) {
        Some(p) => p,
        None => {
            assert(behind(exits@).len() == 0);
            assert(can_fail(*consensus, excluded_node_ids@, pinned_guard, NO_EXIT@));
            assert(draws_no_path(*old(rng), *consensus, excluded_node_ids@, pinned_guard, NO_EXIT@));
            return Err(PathError::InsufficientRelays(NO_EXIT.to_owned()));
        },
    };
    assert(can_be_exit(*consensus, excluded_node_ids@, *guard, *exit));
    let ghost third = *rng;
    assert(gives_exit(second, *consensus, excluded_node_ids@, *guard, *exit));
    let middles: Vec<&PeerEntry> = middle_candidates(consensus, excluded_node_ids, guard, exit);
    proof {
        lemma_total_filter(
            consensus.peers@,
            |p: PeerEntry|
                suits(p, Position::Middle) && !is_excluded(p.node_id_hex@, excluded_node_ids@)
                    && diverse(p, *guard) && diverse(p, *exit),
        );
    }
    let middle: &PeerEntry = match weighted_random_pick(rng, &middles) {
        Some(p) => p,
        None => {
            assert(behind(middles@).len() == 0);
            assert(can_fail(*consensus, excluded_node_ids@, pinned_guard, NO_MIDDLE@));
            assert(draws_no_path(*old(rng), *consensus, excluded_node_ids@, pinned_guard, NO_MIDDLE@));
            return Err(PathError::InsufficientRelays(NO_MIDDLE.to_owned()));
        },
    };
    assert(can_be_middle(*consensus, excluded_node_ids@, *guard, *exit, *middle));
    assert(gives_middle(third, *consensus, excluded_node_ids@, *guard, *exit, *middle));
    let mut hops: Vec<SelectedHop> = Vec::new();
    hops.push(SelectedHop::from(guard));
    hops.push(SelectedHop::from(middle));
    hops.push(SelectedHop::from(exit));
    let path: SelectedPath = SelectedPath { hops };
    assert(is_path(
        *consensus,
        excluded_node_ids@,
        pinned_guard,
        path,
        *guard,
        *middle,
        *exit,
    ));
    assert(selectable(*consensus, excluded_node_ids@, pinned_guard, path));
    assert(draws_path(*old(rng), *consensus, excluded_node_ids@, pinned_guard, path));
    Ok(path)
}

/// The bandwidths add up: an empty list has none, and every relay adds its own.
pub proof fn law_bandwidths_add_up(s: Seq<PeerEntry>, p: PeerEntry)
    ensures
        total_bandwidth(Seq::empty()) == 0,
        total_bandwidth(s.push(p)) == total_bandwidth(s) + p.bandwidth_kbs,
{
    assert(s.push(p).drop_last() =~= s);
}

/// Every number below the total bandwidth belongs to exactly one relay, and to each
/// relay belong as many numbers, in one run, as it has bandwidth. So a number drawn
/// evenly gives each relay its share.
pub proof fn law_every_relay_has_its_share(s: Seq<PeerEntry>, target: u64)
    ensures
        target < total_bandwidth(s) <==> exists|i: int| #[trigger] covers(s, target, i),
        forall|i: int, j: int| #[trigger] covers(s, target, i) && #[trigger] covers(s, target, j) ==> i == j,
        forall|i: int|
            0 <= i < s.len() ==> (#[trigger] covers(s, target, i) <==> total_bandwidth(s.take(i)) <= target
                < total_bandwidth(s.take(i)) + s[i].bandwidth_kbs),
{
    assert forall|i: int| 0 <= i < s.len() implies total_bandwidth(#[trigger] s.take(i + 1))
        == total_bandwidth(s.take(i)) + s[i].bandwidth_kbs by {
        assert(s.take(i + 1).drop_last() =~= s.take(i));
    }
    assert forall|i: int| 0 <= i < s.len() implies (#[trigger] covers(s, target, i) <==> total_bandwidth(
        s.take(i),
    ) <= target < total_bandwidth(s.take(i)) + s[i].bandwidth_kbs) by {
        assert(total_bandwidth(s.take(i + 1)) == total_bandwidth(s.take(i)) + s[i].bandwidth_kbs);
    }
    assert forall|i: int, j: int| #[trigger] covers(s, target, i) && #[trigger] covers(s, target, j) implies i
        == j by {
        if i < j {
            assert(s.take(j).take(i + 1) =~= s.take(i + 1));
            lemma_total_prefix(s.take(j), i + 1);
        }
        if j < i {
            assert(s.take(i).take(j + 1) =~= s.take(j + 1));
            lemma_total_prefix(s.take(i), j + 1);
        }
    }
    if target < total_bandwidth(s) {
        assert(s.take(s.len() as int) =~= s);
        lemma_covered(s, target, s.len() as int);
    }
    if exists|i: int| covers(s, target, i) {
        let i = choose|i: int| covers(s, target, i);
        lemma_total_prefix(s, i + 1);
    }
}

proof fn lemma_covered(s: Seq<PeerEntry>, target: u64, n: int)
    requires
        0 <= n <= s.len(),
        target < total_bandwidth(s.take(n)),
    ensures
        exists|i: int| #[trigger] covers(s, target, i),
    decreases n,
{
    if n > 0 {
        assert(s.take(n).drop_last() =~= s.take(n - 1));
        if target < total_bandwidth(s.take(n - 1)) {
            lemma_covered(s, target, n - 1);
        } else {
            assert(covers(s, target, n - 1));
        }
    } else {
        assert(s.take(0) =~= Seq::empty());
    }
}

/// A pick goes by one number drawn below the total bandwidth of all the candidates:
/// the relay picked is the one that the number belongs to. So every candidate with
/// bandwidth can be picked, one without never, and where none has any, the number is
/// drawn below their count and tells the place.
pub proof fn law_a_pick_goes_by_bandwidth(
    state: rand::rngs::StdRng,
    candidates: &[&PeerEntry],
    r: Option<&PeerEntry>,
)
    requires
        total_bandwidth(behind(candidates@)) <= u64::MAX,
        exists|rng: &mut rand::rngs::StdRng|
            *rng == state && #[trigger] call_ensures(
                weighted_random_pick,
                (rng, candidates),
                r,
            ),
    ensures
        r is None <==> candidates@.len() == 0,
        r is Some && total_bandwidth(behind(candidates@)) > 0 ==> exists|t: u64, i: int|
            {
                &&& #[trigger] draws(state, total_bandwidth(behind(candidates@)) as u64, t)
                &&& 0 <= i < candidates@.len()
                &&& r->0 == #[trigger] candidates@[i]
                &&& total_bandwidth(behind(candidates@).take(i)) <= t < total_bandwidth(
                    behind(candidates@).take(i),
                ) + candidates@[i].bandwidth_kbs
            },
        r is Some && total_bandwidth(behind(candidates@)) > 0 ==> r->0.bandwidth_kbs > 0,
        r is Some && total_bandwidth(behind(candidates@)) == 0 ==> exists|i: int|
            0 <= i < candidates@.len() && r->0 == #[trigger] candidates@[i] && draws(
                state,
                candidates@.len() as u64,
                i as u64,
            ),
{
    let s = behind(candidates@);
    if r is Some {
        let i = choose|i: int| #[trigger] picks(state, s, i) && r->0 == candidates@[i];
        assert(*candidates@[i] == s[i]);
        if total_bandwidth(s) > 0 {
            let t = choose|t: u64| #[trigger] draws(state, total_bandwidth(s) as u64, t) && covers(s, t, i);
            law_every_relay_has_its_share(s, t);
        }
    }
}

/// A relay suits a position exactly where it was measured and has every flag that the
/// position asks for: all of them stable, fast, running and valid, a guard the guard's flag
/// too, an exit the exit's.
pub proof fn law_positions_ask_for_flags(consensus: &ConsensusDocument, position: Position, r: Vec<&PeerEntry>)
    requires
        call_ensures(eligible_for_position, (consensus, position), r),
    ensures
        forall|i: int|
            0 <= i < r@.len() ==> consensus.peers@.contains(*#[trigger] r@[i]) && r@[i].bandwidth_kbs > 0
                && r@[i].flags & PeerFlags::STABLE != 0 && r@[i].flags & PeerFlags::FAST != 0 && r@[i].flags
                & PeerFlags::RUNNING != 0 && r@[i].flags & PeerFlags::VALID != 0 && (position is Guard ==> r@[i].flags
                & PeerFlags::GUARD != 0) && (position is Exit ==> r@[i].flags & PeerFlags::EXIT != 0),
        forall|k: int|
            0 <= k < consensus.peers@.len() && (#[trigger] consensus.peers@[k]).bandwidth_kbs > 0
                && consensus.peers@[k].flags & PeerFlags::STABLE != 0 && consensus.peers@[k].flags & PeerFlags::FAST
                != 0 && consensus.peers@[k].flags & PeerFlags::RUNNING != 0 && consensus.peers@[k].flags
                & PeerFlags::VALID != 0 && (position is Guard ==> consensus.peers@[k].flags & PeerFlags::GUARD != 0)
                && (position is Exit ==> consensus.peers@[k].flags & PeerFlags::EXIT != 0) ==> exists|i: int|
                0 <= i < r@.len() && *#[trigger] r@[i] == consensus.peers@[k],
{
    broadcast use vstd::seq_lib::group_filter_ensures;

    let keep = |p: PeerEntry| suits(p, position);
    let s = consensus.peers@;
    let f = s.filter(keep);
    assert forall|i: int| 0 <= i < r@.len() implies s.contains(*#[trigger] r@[i]) && suits(*r@[i], position) by {
        assert(behind(r@)[i] == f[i]);
        lemma_pool_from(s, keep, i);
    }
    assert forall|x: u32|
        (#[trigger] (x & 0x37) == 0x37) == (x & 0x01 != 0 && x & 0x02 != 0 && x & 0x04 != 0 && x & 0x10 != 0 && x & 0x20
            != 0) && (x & 0x33 == 0x33) == (x & 0x01 != 0 && x & 0x02 != 0 && x & 0x10 != 0 && x & 0x20 != 0) && (x
            & 0x3b == 0x3b) == (x & 0x01 != 0 && x & 0x02 != 0 && x & 0x08 != 0 && x & 0x10 != 0 && x & 0x20 != 0) by {
        lemma_flag_bits(x);
    }
    assert forall|i: int| 0 <= i < r@.len() implies r@[i].bandwidth_kbs > 0 && (#[trigger] r@[i]).flags
        & PeerFlags::STABLE != 0 && r@[i].flags & PeerFlags::FAST != 0 && r@[i].flags & PeerFlags::RUNNING != 0
        && r@[i].flags & PeerFlags::VALID != 0 && (position is Guard ==> r@[i].flags & PeerFlags::GUARD != 0) && (
    position is Exit ==> r@[i].flags & PeerFlags::EXIT != 0) by {
        lemma_flag_bits(r@[i].flags);
        assert(suits(*r@[i], position));
    }
    assert forall|k: int|
        0 <= k < s.len() && (#[trigger] s[k]).bandwidth_kbs > 0 && s[k].flags & PeerFlags::STABLE != 0 && s[k].flags
            & PeerFlags::FAST != 0 && s[k].flags & PeerFlags::RUNNING != 0 && s[k].flags & PeerFlags::VALID != 0 && (
        position is Guard ==> s[k].flags & PeerFlags::GUARD != 0) && (position is Exit ==> s[k].flags & PeerFlags::EXIT
            != 0) implies exists|i: int| 0 <= i < r@.len() && *#[trigger] r@[i] == s[k] by {
        lemma_flag_bits(s[k].flags);
        assert(keep(s[k]));
        assert(f.contains(s[k]));
        let i = choose|i: int| 0 <= i < f.len() && f[i] == s[k];
        assert(behind(r@)[i] == f[i]);
        assert(*r@[i] == s[k]);
    }
}

proof fn lemma_flag_bits(x: u32)
    ensures
        (x & 0x37 == 0x37) == (x & 0x01 != 0 && x & 0x02 != 0 && x & 0x04 != 0 && x & 0x10 != 0 && x & 0x20 != 0),
        (x & 0x33 == 0x33) == (x & 0x01 != 0 && x & 0x02 != 0 && x & 0x10 != 0 && x & 0x20 != 0),
        (x & 0x3b == 0x3b) == (x & 0x01 != 0 && x & 0x02 != 0 && x & 0x08 != 0 && x & 0x10 != 0 && x & 0x20 != 0),
{
    assert((x & 0x37 == 0x37) == (x & 0x01 != 0 && x & 0x02 != 0 && x & 0x04 != 0 && x & 0x10 != 0 && x & 0x20 != 0))
        by (bit_vector);
    assert((x & 0x33 == 0x33) == (x & 0x01 != 0 && x & 0x02 != 0 && x & 0x10 != 0 && x & 0x20 != 0)) by (bit_vector);
    assert((x & 0x3b == 0x3b) == (x & 0x01 != 0 && x & 0x02 != 0 && x & 0x08 != 0 && x & 0x10 != 0 && x & 0x20 != 0))
        by (bit_vector);
}

proof fn lemma_pool_from(s: Seq<PeerEntry>, keep: spec_fn(PeerEntry) -> bool, i: int)
    requires
        0 <= i < s.filter(keep).len(),
    ensures
        s.contains(s.filter(keep)[i]),
        keep(s.filter(keep)[i]),
    decreases s.len(),
{
    reveal(Seq::filter);
    if s.len() > 0 {
        let t = s.drop_last();
        if i < t.filter(keep).len() {
            lemma_pool_from(t, keep, i);
            let j = choose|j: int| 0 <= j < t.len() && t[j] == t.filter(keep)[i];
            assert(s[j] == s.filter(keep)[i]);
        } else {
            assert(s[s.len() - 1] == s.filter(keep)[i]);
        }
    }
}

/// Two relays on one path: other identities, other hosts, no shared IPv4 network of
/// sixteen bits and no shared operator.
pub open spec fn stand_apart(a: PeerEntry, b: PeerEntry) -> bool {
    &&& a.node_id_hex@ != b.node_id_hex@
    &&& a.host@ != b.host@
    &&& addr::is_ipv4(a.host@) && addr::is_ipv4(b.host@) ==> addr::ipv4_octets(a.host@)[0] != addr::ipv4_octets(
        b.host@,
    )[0] || addr::ipv4_octets(a.host@)[1] != addr::ipv4_octets(b.host@)[1]
    &&& a.family@.len() > 0 ==> a.family@ != b.family@
}

/// A selected path has three hops that stand apart from each other; its exit and its
/// middle are relays of the consensus that were not excluded, and so is its guard unless it
/// was pinned, in which case it is the one pinned.
pub proof fn law_a_selected_path_is_diverse(
    state: rand::rngs::StdRng,
    consensus: &ConsensusDocument,
    excluded: &[String],
    pinned: Option<&PeerEntry>,
    path: SelectedPath,
)
    requires
        exists|rng: &mut rand::rngs::StdRng|
            *rng == state && #[trigger] call_ensures(
                select_path,
                (rng, consensus, excluded, pinned),
                Ok(path),
            ),
    ensures
        path.hops@.len() == 3,
        exists|g: PeerEntry, m: PeerEntry, e: PeerEntry|
            {
                &&& #[trigger] stand_apart(g, m)
                &&& #[trigger] stand_apart(m, e)
                &&& #[trigger] stand_apart(g, e)
                &&& path.hops@[0].node_id_hex == g.node_id_hex && path.hops@[0].host == g.host && path.hops@[0].port
                    == g.port && path.hops@[0].static_pub_hex == g.static_pub_hex
                &&& path.hops@[1].node_id_hex == m.node_id_hex && path.hops@[1].host == m.host && path.hops@[1].port
                    == m.port && path.hops@[1].static_pub_hex == m.static_pub_hex
                &&& path.hops@[2].node_id_hex == e.node_id_hex && path.hops@[2].host == e.host && path.hops@[2].port
                    == e.port && path.hops@[2].static_pub_hex == e.static_pub_hex
                &&& consensus.peers@.contains(m) && consensus.peers@.contains(e)
                &&& e.flags & PeerFlags::EXIT != 0
                &&& forall|i: int|
                    0 <= i < excluded@.len() ==> (#[trigger] excluded@[i])@ != m.node_id_hex@ && excluded@[i]@
                        != e.node_id_hex@
                &&& match pinned {
                    Some(p) => g == *p,
                    None => consensus.peers@.contains(g) && g.flags & PeerFlags::GUARD != 0 && forall|i: int|
                        0 <= i < excluded@.len() ==> (#[trigger] excluded@[i])@ != g.node_id_hex@,
                }
            },
{
    let c = *consensus;
    let x = excluded@;
    let (g, m, e) = choose|g: PeerEntry, m: PeerEntry, e: PeerEntry| #[trigger]
        is_path(c, x, pinned, path, g, m, e);
    assert(is_path(c, x, pinned, path, g, m, e));
    law_paths_are_diverse(c, x, pinned, path, g, m, e);
    law_hosts_of_a_subnet(e.host@, g.host@);
    law_hosts_of_a_subnet(m.host@, g.host@);
    law_hosts_of_a_subnet(m.host@, e.host@);
    assert(stand_apart(g, m) && stand_apart(m, e) && stand_apart(g, e));
    let gk = |p: PeerEntry| suits(p, Position::Guard) && !is_excluded(p.node_id_hex@, x);
    let ek = |p: PeerEntry| suits(p, Position::Exit) && !is_excluded(p.node_id_hex@, x) && diverse(p, g);
    let mk = |p: PeerEntry|
        suits(p, Position::Middle) && !is_excluded(p.node_id_hex@, x) && diverse(p, g) && diverse(p, e);
    if pinned is None {
        let i = choose|i: int| #[trigger] drawn(guard_pool(c, x), i) && g == guard_pool(c, x)[i];
        lemma_pool_from(c.peers@, gk, i);
        lemma_flag_bits(g.flags);
    }
    let i = choose|i: int| #[trigger] drawn(exit_pool(c, x, g), i) && e == exit_pool(c, x, g)[i];
    lemma_pool_from(c.peers@, ek, i);
    let j = choose|j: int| #[trigger] drawn(middle_pool(c, x, g, e), j) && m == middle_pool(c, x, g, e)[j];
    lemma_pool_from(c.peers@, mk, j);
    lemma_flag_bits(e.flags);
}

/// A path is refused for want of a guard only where no relay of the consensus that was not
/// excluded can be one.
pub proof fn law_a_path_fails_only_for_want_of_relays(
    state: rand::rngs::StdRng,
    consensus: &ConsensusDocument,
    excluded: &[String],
    pinned: Option<&PeerEntry>,
    text: String,
)
    requires
        exists|rng: &mut rand::rngs::StdRng|
            *rng == state && #[trigger] call_ensures(
                select_path,
                (rng, consensus, excluded, pinned),
                Err(PathError::InsufficientRelays(text)),
            ),
    ensures
        text@ == NO_GUARD@ || text@ == NO_EXIT@ || text@ == NO_MIDDLE@,
        text@ == NO_GUARD@ ==> pinned is None && forall|i: int|
            0 <= i < consensus.peers@.len() ==> !suits(#[trigger] consensus.peers@[i], Position::Guard)
                || is_excluded(consensus.peers@[i].node_id_hex@, excluded@),
{
    broadcast use vstd::seq_lib::group_filter_ensures;

    reveal_strlit("no relays with GUARD flag available");
    reveal_strlit(
        "no exit relays available after subnet/family/exclusion filtering. If every relay you run declares the same family, that is this rule working: one operator's relays cannot form a diverse path",
    );
    reveal_strlit("no middle relays available after subnet/family/exclusion filtering");
    let s = consensus.peers@;
    let gk = |p: PeerEntry| suits(p, Position::Guard) && !is_excluded(p.node_id_hex@, excluded@);
    if text@ == NO_GUARD@ {
        assert(NO_GUARD@.len() != NO_EXIT@.len() && NO_GUARD@.len() != NO_MIDDLE@.len());
        assert forall|i: int| 0 <= i < s.len() implies !gk(#[trigger] s[i]) by {
            if gk(s[i]) {
                assert(s.filter(gk).contains(s[i]));
            }
        }
        assert forall|i: int| 0 <= i < s.len() implies !suits(#[trigger] s[i], Position::Guard) || is_excluded(
            s[i].node_id_hex@,
            excluded@,
        ) by {
            assert(!gk(s[i]));
        }
    }
}

/// A hop is linked to under the address it has and the keys that its texts spell, and
/// only where they spell 32 bytes each.
pub proof fn law_hops_are_linked_to_as_listed(h: SelectedHop, r: Result<LinkSpec, PathError>)
    requires
        call_ensures(SelectedHop::to_link_spec, (&h,), r),
    ensures
        r is Ok ==> r->Ok_0.host@ == h.host@ && r->Ok_0.port == h.port,
        r is Ok ==> text::hex_of(r->Ok_0.node_id@) == text::lowered(h.node_id_hex@),
        r is Ok ==> text::hex_of(r->Ok_0.static_pub@) == text::lowered(h.static_pub_hex@),
        r is Ok ==> h.node_id_hex@.len() == 64 && h.static_pub_hex@.len() == 64,
{
    if r is Ok {
        text::lemma_unhex_lowered(h.node_id_hex@);
        text::lemma_unhex_lowered(h.static_pub_hex@);
    }
}

/// The pools that the hops are drawn from hold the relays of the consensus that may stand
/// there and no other: the exits stand apart from the guard, the middles from both.
pub proof fn law_who_may_be_drawn(
    consensus: &ConsensusDocument,
    excluded: &[String],
    g: &PeerEntry,
    e: &PeerEntry,
    guards: Vec<&PeerEntry>,
    exits: Vec<&PeerEntry>,
    middles: Vec<&PeerEntry>,
    p: PeerEntry,
)
    requires
        call_ensures(guard_candidates, (consensus, excluded), guards),
        call_ensures(exit_candidates, (consensus, excluded, g), exits),
        call_ensures(middle_candidates, (consensus, excluded, g, e), middles),
    ensures
        behind(guards@).contains(p) <==> consensus.peers@.contains(p) && suits(p, Position::Guard) && (forall|i: int|
            0 <= i < excluded@.len() ==> (#[trigger] excluded@[i])@ != p.node_id_hex@),
        behind(exits@).contains(p) <==> consensus.peers@.contains(p) && suits(p, Position::Exit) && (forall|i: int|
            0 <= i < excluded@.len() ==> (#[trigger] excluded@[i])@ != p.node_id_hex@) && stand_apart(p, *g),
        behind(middles@).contains(p) <==> consensus.peers@.contains(p) && suits(p, Position::Middle) && (forall|i: int|
            0 <= i < excluded@.len() ==> (#[trigger] excluded@[i])@ != p.node_id_hex@) && stand_apart(p, *g)
            && stand_apart(p, *e),
{
    let s = consensus.peers@;
    let x = excluded@;
    let gk = |q: PeerEntry| suits(q, Position::Guard) && !is_excluded(q.node_id_hex@, x);
    let ek = |q: PeerEntry| suits(q, Position::Exit) && !is_excluded(q.node_id_hex@, x) && diverse(q, *g);
    let mk = |q: PeerEntry|
        suits(q, Position::Middle) && !is_excluded(q.node_id_hex@, x) && diverse(q, *g) && diverse(q, *e);
    lemma_kept(s, gk, p);
    lemma_kept(s, ek, p);
    lemma_kept(s, mk, p);
    lemma_apart(p, *g);
    lemma_apart(p, *e);
}

proof fn lemma_kept(s: Seq<PeerEntry>, keep: spec_fn(PeerEntry) -> bool, p: PeerEntry)
    ensures
        s.filter(keep).contains(p) <==> s.contains(p) && keep(p),
{
    broadcast use vstd::seq_lib::group_filter_ensures;

    let f = s.filter(keep);
    if f.contains(p) {
        lemma_pool_from(s, keep, choose|i: int| 0 <= i < f.len() && f[i] == p);
    }
    if s.contains(p) && keep(p) {
        let i = choose|i: int| 0 <= i < s.len() && s[i] == p;
        assert(keep(s[i]));
    }
}

proof fn lemma_apart(p: PeerEntry, q: PeerEntry)
    ensures
        diverse(p, q) <==> stand_apart(p, q),
{
    law_hosts_of_a_subnet(p.host@, q.host@);
    if p.host@ == q.host@ {
        assert(subnet_of(p.host@) == subnet_of(q.host@));
    }
}

/// Two hosts are in one subnet exactly where their keys are the same, and two relays of one
/// operator exactly where they name the same.
pub proof fn law_subnets_and_families(a: &str, b: &str, x: String, y: String, f: bool)
    requires
        call_ensures(subnet_key, (a,), x),
        call_ensures(subnet_key, (b,), y),
        call_ensures(same_family, (a, b), f),
    ensures
        addr::is_ipv4(a@) && addr::is_ipv4(b@) ==> (x@ == y@ <==> addr::ipv4_octets(a@)[0] == addr::ipv4_octets(b@)[0]
            && addr::ipv4_octets(a@)[1] == addr::ipv4_octets(b@)[1]),
        !(addr::is_ipv4(a@) && addr::is_ipv4(b@)) ==> (x@ == y@ <==> a@ == b@),
        f <==> a@.len() > 0 && a@ == b@,
{
    law_hosts_of_a_subnet(a@, b@);
}

/// A path is linked to hop by hop, or not at all.
pub proof fn law_paths_are_linked_to_whole(p: SelectedPath, r: Result<Vec<LinkSpec>, PathError>, i: int)
    requires
        call_ensures(SelectedPath::to_link_specs, (&p,), r),
        0 <= i < p.hops@.len(),
    ensures
        r is Ok ==> r->Ok_0@.len() == p.hops@.len() && r->Ok_0@[i].host@ == p.hops@[i].host@ && r->Ok_0@[i].port
            == p.hops@[i].port && text::hex_of(r->Ok_0@[i].node_id@) == text::lowered(p.hops@[i].node_id_hex@)
            && text::hex_of(r->Ok_0@[i].static_pub@) == text::lowered(p.hops@[i].static_pub_hex@),
        p.hops@[i].node_id_hex@.len() != 64 || p.hops@[i].static_pub_hex@.len() != 64 ==> r is Err,
{
    if r is Ok {
        assert(hop_fault(p.hops@[i]) is None);
        text::lemma_unhex_lowered(p.hops@[i].node_id_hex@);
        text::lemma_unhex_lowered(p.hops@[i].static_pub_hex@);
    }
}

/// The relay that a number belongs to is found: those before it have less bandwidth in all,
/// those up to it more.
pub proof fn law_the_number_finds_its_relay(candidates: &[&PeerEntry], target: u64, r: usize)
    requires
        target < total_bandwidth(behind(candidates@)),
        call_ensures(pick_by_target, (candidates, target), r),
    ensures
        r < candidates@.len(),
        total_bandwidth(behind(candidates@).take(r as int)) <= target,
        target < total_bandwidth(behind(candidates@).take(r as int)) + candidates@[r as int].bandwidth_kbs,
{
    law_every_relay_has_its_share(behind(candidates@), target);
    assert(behind(candidates@)[r as int] == *candidates@[r as int]);
}

/// What is said of a failed selection.
pub proof fn law_what_is_said_of_no_path(text: String, r: String)
    requires
        call_ensures(PathError::message, (&PathError::InsufficientRelays(text),), r),
    ensures
        r@ == "insufficient relays: "@ + text@,
{
}

} // verus!
