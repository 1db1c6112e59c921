//! What a node does from time to time: it follows the consensus, and keeps its guards
//! and its links.

use crate::addr;
use crate::addr::{parse_ipv4, parse_ipv6};
use crate::bytes::bytes_eq;
use crate::dht::PeerInfo;
use crate::directory::{ConsensusDocument, PeerEntry};
use crate::handshake;
use crate::handshake::answers_as_itself;
use crate::node;
use crate::node::PhiNode;
use crate::peers::PeerConn;
use crate::rotation;
use crate::rotation::parse_id;
use crate::text;
use crate::text::{chars_of, hex_encode, str_eq};
use vstd::prelude::*;
use vstd::string::*;

verus! {

/// How many guards a node has.
pub const GUARD_COUNT: usize = 3;

/// How many seconds a dial to a guard may take.
pub const GUARD_DIAL_SECS: u64 = 10;

/// The relay is another node, with an identifier that can be read.
pub open spec fn is_other_relay(p: PeerEntry, me: Seq<u8>) -> bool {
    rotation::id_in(p.node_id_hex@) matches Some(id) && id != me
}

/// The other relays of the consensus, in its order.
pub open spec fn other_relays(s: Seq<PeerEntry>, me: Seq<u8>) -> Seq<PeerEntry> {
    s.filter(|p: PeerEntry| is_other_relay(p, me))
}

/// The relay's identifier is not that of this node.
pub open spec fn is_candidate(p: PeerEntry, me: Seq<u8>) -> bool {
    p.node_id_hex@ != text::hex_of(me)
}

/// The text is in the list.
pub open spec fn has_text(l: Seq<String>, t: Seq<char>) -> bool {
    exists|i: int| 0 <= i < l.len() && #[trigger] l[i]@ == t
}

/// The relays that become candidates of the guard manager: the primary ones of the
/// sample.
pub open spec fn primary_relays(s: Seq<PeerEntry>, primary: Seq<String>, me: Seq<u8>) -> Seq<PeerEntry> {
    s.filter(|p: PeerEntry| has_text(primary, p.node_id_hex@) && is_other_relay(p, me))
}

/// The relays to link to again: other relays that are not linked.
pub open spec fn lost_relays(s: Seq<PeerEntry>, linked: Map<Seq<u8>, PeerConn>, me: Seq<u8>) -> Seq<PeerEntry> {
    s.filter(
        |p: PeerEntry|
            is_other_relay(p, me) && !linked.contains_key(rotation::id_in(p.node_id_hex@)->0),
    )
}

/// Where a relay is, and who it is.
#[derive(Debug)]
pub struct RelayAt {
    /// Its identifier.
    pub node_id: [u8; 32],
    /// Its address.
    pub host: String,
    /// Its port.
    pub port: u16,
}

/// `r` tells where the relay `p` is.
pub open spec fn is_relay_at(r: RelayAt, p: PeerEntry) -> bool {
    Some(r.node_id@) == rotation::id_in(p.node_id_hex@) && r.host@ == p.host@ && r.port == p.port
}

/// `v` tells where the relays of `s` are, one by one.
pub open spec fn relays_at(v: Seq<RelayAt>, s: Seq<PeerEntry>) -> bool {
    v.len() == s.len() && forall|i: int| 0 <= i < v.len() ==> #[trigger] relay_at(v, s, i)
}

/// The `i`-th of `v` tells where the `i`-th relay of `s` is.
pub open spec fn relay_at(v: Seq<RelayAt>, s: Seq<PeerEntry>, i: int) -> bool {
    is_relay_at(v[i], s[i])
}

proof fn lemma_relay_added(v: Seq<RelayAt>, s: Seq<PeerEntry>, r: RelayAt, p: PeerEntry)
    requires
        relays_at(v, s),
        is_relay_at(r, p),
    ensures
        relays_at(v.push(r), s.push(p)),
{
    assert forall|i: int| 0 <= i < v.push(r).len() implies #[trigger] relay_at(
        v.push(r),
        s.push(p),
        i,
    ) by {
        if i < v.len() {
            assert(relay_at(v, s, i));
        }
    }
}

fn locate(p: &PeerEntry, me: &[u8; 32]) -> (r: Option<RelayAt>)
    ensures
        r is Some == is_other_relay(*p, me@),
        r matches Some(x) ==> is_relay_at(x, *p),
{
    match parse_id(p.node_id_hex.as_str()) {
        Some(node_id) => if bytes_eq(&node_id, me) {
            None
        } else {
            Some(RelayAt { node_id, host: p.host.clone(), port: p.port })
        },
        None => None,
    }
}

fn in_texts(l: &[String], t: &str) -> (r: bool)
    ensures
        r == has_text(l@, t@),
{
    let mut i: usize = 0;
    while i < l.len()
        invariant
            i <= l@.len(),
            forall|j: int| 0 <= j < i ==> #[trigger] l@[j]@ != t@,
        decreases l@.len() - i,
    {
        if str_eq(l[i].as_str(), t) {
            return true;
        }
        i += 1;
    }
    false
}

impl PhiNode {
    /// The relays of the consensus that this node may keep as guards: all others are
    /// retired.
    pub fn consensus_relays(&self, consensus: &ConsensusDocument) -> (r: Vec<RelayAt>)
        ensures
            relays_at(r@, other_relays(consensus.peers@, self.node_id@)),
    {
        let ghost me = self.node_id@;
        let ghost f = |p: PeerEntry| is_other_relay(p, me);
        let ghost all = consensus.peers@;
        let mut r: Vec<RelayAt> = Vec::new();
        let mut i: usize = 0;
        proof {
            reveal(Seq::filter);
        }
        assert(all.take(0) =~= Seq::empty());
        while i < consensus.peers.len()
            invariant
                i <= all.len(),
                all == consensus.peers@,
                me == self.node_id@,
                f == (|p: PeerEntry| is_other_relay(p, me)),
                relays_at(r@, all.take(i as int).filter(f)),
            decreases all.len() - i,
        {
            let ghost next = all.take(i + 1);
            let ghost r0 = r@;
            assert(next.drop_last() =~= all.take(i as int));
            assert(next.last() == all[i as int]);
            proof {
                reveal(Seq::filter);
            }
            if let Some(x) = locate(&consensus.peers[i], &self.node_id) {
                r.push(x);
                proof {
                    lemma_relay_added(r0, all.take(i as int).filter(f), x, all[i as int]);
                }
            }
            i += 1;
        }
        assert(all.take(i as int) =~= all);
        r
    }

    /// The identifiers from which the sample of guards may be extended.
    pub fn sample_candidates(&self, consensus: &ConsensusDocument) -> (r: Vec<String>)
        ensures
            text::texts(r@) == candidate_texts(consensus.peers@, self.node_id@),
    {
        let me_hex: String = hex_encode(&self.node_id);
        let ghost me = self.node_id@;
        let ghost f = |p: PeerEntry| is_candidate(p, me);
        let ghost all = consensus.peers@;
        let mut r: Vec<String> = Vec::new();
        let mut i: usize = 0;
        proof {
            reveal(Seq::filter);
        }
        assert(all.take(0) =~= Seq::empty());
        assert(text::texts(r@) =~= candidate_texts(all.take(0), me));
        while i < consensus.peers.len()
            invariant
                i <= all.len(),
                all == consensus.peers@,
                me == self.node_id@,
                me_hex@ == text::hex_of(me),
                f == (|p: PeerEntry| is_candidate(p, me)),
                text::texts(r@) == candidate_texts(all.take(i as int), me),
            decreases all.len() - i,
        {
            let ghost next = all.take(i + 1);
            let ghost r0 = r@;
            let p: &PeerEntry = &consensus.peers[i];
            assert(next.drop_last() =~= all.take(i as int));
            assert(next.last() == *p);
            proof {
                reveal(Seq::filter);
            }
            if !str_eq(p.node_id_hex.as_str(), me_hex.as_str()) {
                r.push(p.node_id_hex.clone());
                assert(next.filter(f) == all.take(i as int).filter(f).push(*p));
                assert(text::texts(r@) =~= text::texts(r0).push(p.node_id_hex@));
                assert(text::texts(r@) =~= candidate_texts(next, me));
            } else {
                assert(next.filter(f) == all.take(i as int).filter(f));
            }
            i += 1;
        }
        assert(all.take(i as int) =~= all);
        r
    }

    /// The relays that become candidates of the guard manager. `primary` are the primary
    /// guards of the sample.
    pub fn guards_to_offer(&self, consensus: &ConsensusDocument, primary: &[String]) -> (r: Vec<RelayAt>)
        ensures
            relays_at(r@, primary_relays(consensus.peers@, primary@, self.node_id@)),
    {
        let ghost me = self.node_id@;
        let ghost f = |p: PeerEntry|
            has_text(primary@, p.node_id_hex@) && is_other_relay(p, me);
        let ghost all = consensus.peers@;
        let mut r: Vec<RelayAt> = Vec::new();
        let mut i: usize = 0;
        proof {
            reveal(Seq::filter);
        }
        assert(all.take(0) =~= Seq::empty());
        while i < consensus.peers.len()
            invariant
                i <= all.len(),
                all == consensus.peers@,
                me == self.node_id@,
                f == (|p: PeerEntry| has_text(primary@, p.node_id_hex@) && is_other_relay(p, me)),
                relays_at(r@, all.take(i as int).filter(f)),
            decreases all.len() - i,
        {
            let ghost next = all.take(i + 1);
            let ghost r0 = r@;
            let p: &PeerEntry = &consensus.peers[i];
            assert(next.drop_last() =~= all.take(i as int));
            assert(next.last() == *p);
            proof {
                reveal(Seq::filter);
            }
            if in_texts(primary, p.node_id_hex.as_str()) {
                if let Some(x) = locate(p, &self.node_id) {
                    r.push(x);
                    proof {
                        lemma_relay_added(r0, all.take(i as int).filter(f), x, *p);
                    }
                }
            }
            i += 1;
        }
        assert(all.take(i as int) =~= all);
        r
    }

    /// The relays of the consensus that the node has no link with, to be dialled again.
    pub fn links_to_restore(&self, consensus: &ConsensusDocument) -> (r: Vec<RelayAt>)
        requires
            self.wf(),
        ensures
            relays_at(r@, lost_relays(consensus.peers@, self.peers@, self.node_id@)),
    {
        let ghost me = self.node_id@;
        let ghost m = self.peers@;
        let ghost f = |p: PeerEntry|
            is_other_relay(p, me) && !m.contains_key(rotation::id_in(p.node_id_hex@)->0);
        let ghost all = consensus.peers@;
        let mut r: Vec<RelayAt> = Vec::new();
        let mut i: usize = 0;
        proof {
            reveal(Seq::filter);
        }
        assert(all.take(0) =~= Seq::empty());
        while i < consensus.peers.len()
            invariant
                self.wf(),
                i <= all.len(),
                all == consensus.peers@,
                me == self.node_id@,
                m == self.peers@,
                f == (|p: PeerEntry|
                    is_other_relay(p, me) && !m.contains_key(
                        rotation::id_in(p.node_id_hex@)->0,
                    )),
                relays_at(r@, all.take(i as int).filter(f)),
            decreases all.len() - i,
        {
            let ghost next = all.take(i + 1);
            let ghost r0 = r@;
            let p: &PeerEntry = &consensus.peers[i];
            assert(next.drop_last() =~= all.take(i as int));
            assert(next.last() == *p);
            proof {
                reveal(Seq::filter);
            }
            if let Some(x) = locate(p, &self.node_id) {
                if !self.peers.contains(&x.node_id) {
                    r.push(x);
                    proof {
                        lemma_relay_added(r0, all.take(i as int).filter(f), x, *p);
                    }
                }
            }
            i += 1;
        }
        assert(all.take(i as int) =~= all);
        r
    }
}

/// The identifiers of the relays but this node, in the order of the consensus.
pub open spec fn candidate_texts(s: Seq<PeerEntry>, me: Seq<u8>) -> Seq<Seq<char>> {
    s.filter(|p: PeerEntry| is_candidate(p, me)).map_values(|p: PeerEntry| p.node_id_hex@)
}

/// What to do with a pinned guard.
#[derive(Debug, Clone, Copy, PartialEq, Eq, Structural)]
pub enum GuardStep {
    /// Note that it is there.
    MarkSuccess,
    /// Note that it is not.
    MarkFailure,
    /// Dial it.
    Dial,
    /// Nothing: it failed a short while ago.
    Skip,
}

/// What to do with a pinned guard. `due` says that enough time has passed since its last
/// failure; `dialled` whether the dial succeeded, if one was made.
pub fn guard_upkeep(linked: bool, due: bool, dialled: Option<bool>) -> (r: GuardStep)
    ensures
        r == match dialled {
            Some(ok) => if ok {
                GuardStep::MarkSuccess
            } else {
                GuardStep::MarkFailure
            },
            None => if linked {
                GuardStep::MarkSuccess
            } else if due {
                GuardStep::Dial
            } else {
                GuardStep::Skip
            },
        },
{
    match dialled {
        Some(ok) => if ok {
            GuardStep::MarkSuccess
        } else {
            GuardStep::MarkFailure
        },
        None => if linked {
            GuardStep::MarkSuccess
        } else if due {
            GuardStep::Dial
        } else {
            GuardStep::Skip
        },
    }
}

/// The host is an internet address.
pub open spec fn is_address(host: Seq<char>) -> bool {
    addr::is_ipv4(host) || addr::is_ipv6(host)
}

/// The addresses of relays, in the order of the consensus.
pub open spec fn addresses(s: Seq<PeerEntry>) -> Seq<Seq<char>> {
    s.filter(|p: PeerEntry| is_address(p.host@)).map_values(|p: PeerEntry| p.host@)
}

fn host_is_address(host: &str) -> (r: bool)
    ensures
        r == is_address(host@),
{
    let v: Vec<char> = chars_of(host);
    assert(v@.subrange(0, v@.len() as int) =~= host@);
    if let Some(_) = parse_ipv4(&v, 0, v.len()) {
        return true;
    }
    match parse_ipv6(&v, 0, v.len()) {
        Some(_) => true,
        None => false,
    }
}

/// The addresses of the relays of the consensus, which no rate limit applies to.
pub fn exempt_addresses(consensus: &ConsensusDocument) -> (r: Vec<String>)
    ensures
        text::texts(r@) == addresses(consensus.peers@),
{
    let ghost f = |p: PeerEntry| is_address(p.host@);
    let ghost all = consensus.peers@;
    let mut r: Vec<String> = Vec::new();
    let mut i: usize = 0;
    proof {
        reveal(Seq::filter);
    }
    assert(all.take(0) =~= Seq::empty());
    assert(text::texts(r@) =~= addresses(all.take(0)));
    while i < consensus.peers.len()
        invariant
            i <= all.len(),
            all == consensus.peers@,
            f == (|p: PeerEntry| is_address(p.host@)),
            text::texts(r@) == addresses(all.take(i as int)),
        decreases all.len() - i,
    {
        let ghost next = all.take(i + 1);
        let ghost r0 = r@;
        let p: &PeerEntry = &consensus.peers[i];
        assert(next.drop_last() =~= all.take(i as int));
        assert(next.last() == *p);
        proof {
            reveal(Seq::filter);
        }
        if host_is_address(p.host.as_str()) {
            r.push(p.host.clone());
            assert(next.filter(f) == all.take(i as int).filter(f).push(*p));
            assert(text::texts(r@) =~= text::texts(r0).push(p.host@));
            assert(text::texts(r@) =~= addresses(next));
        } else {
            assert(next.filter(f) == all.take(i as int).filter(f));
        }
        i += 1;
    }
    assert(all.take(i as int) =~= all);
    r
}

/// What keeps a stock of ready circuits does next.
#[derive(Debug, Clone, Copy, PartialEq, Eq, Structural)]
pub enum StockStep {
    /// Build another one.
    Build,
    /// Stop for now.
    Rest,
}

/// Whether to build another circuit ahead of demand: the stock wants one, the node is not
/// stopping, and there is a consensus to draw a path from.
pub fn stock_step(wanted: bool, stopping: bool, has_consensus: bool) -> (r: StockStep)
    ensures
        r == if wanted && !stopping && has_consensus {
            StockStep::Build
        } else {
            StockStep::Rest
        },
{
    if wanted && !stopping && has_consensus {
        StockStep::Build
    } else {
        StockStep::Rest
    }
}

impl PhiNode {
    /// The linked peers that answered a probe of their address as themselves, in
    /// order. The answers are in the order in which the node lists its peers.
    pub fn verified_relays(&self, answers: &[Option<[u8; 32]>]) -> (r: Vec<PeerInfo>)
        requires
            self.wf(),
        ensures
            r@ == handshake::verified(node::infos_of(self.peers.list()), answers@),
    {
        let peers: Vec<PeerInfo> = self.all_peers();
        let mut r: Vec<PeerInfo> = Vec::new();
        let mut i: usize = 0;
        while i < peers.len()
            invariant
                i <= peers@.len(),
                r@ == handshake::verified(peers@.take(i as int), answers@),
            decreases peers@.len() - i,
        {
            assert(peers@.take(i + 1).drop_last() =~= peers@.take(i as int));
            if i < answers.len() && answers_as_itself(&peers[i], answers[i]) {
                r.push(peers[i].duplicate());
            }
            i += 1;
        }
        assert(peers@.take(i as int) =~= peers@);
        r
    }
}

/// The node itself is never a relay to dial, to guard or to keep.
pub proof fn law_a_node_is_not_its_own_relay(
    s: Seq<PeerEntry>,
    linked: Map<Seq<u8>, PeerConn>,
    primary: Seq<String>,
    me: Seq<u8>,
    i: int,
)
    ensures
        0 <= i < other_relays(s, me).len() ==> rotation::id_in(
            other_relays(s, me)[i].node_id_hex@,
        ) != Some(me),
        0 <= i < lost_relays(s, linked, me).len() ==> rotation::id_in(
            lost_relays(s, linked, me)[i].node_id_hex@,
        ) != Some(me),
        0 <= i < primary_relays(s, primary, me).len() ==> rotation::id_in(
            primary_relays(s, primary, me)[i].node_id_hex@,
        ) != Some(me),
{
    broadcast use vstd::seq_lib::group_filter_ensures;

}

/// The outcome of a dial is recorded of a guard; one that is linked counts as reached
/// without one, and of the others those are dialled whose time has come.
pub proof fn law_guards_are_dialled_when_due(linked: bool, due: bool, ok: bool, before: GuardStep, after: GuardStep)
    requires
        call_ensures(guard_upkeep, (linked, due, None), before),
        call_ensures(guard_upkeep, (linked, due, Some(ok)), after),
    ensures
        before is MarkSuccess <==> linked,
        before is Dial <==> !linked && due,
        before is Skip <==> !linked && !due,
        after is MarkSuccess <==> ok,
        after is MarkFailure <==> !ok,
{
}

/// Circuits are built in stock exactly while some are wanted, the node runs and a
/// consensus is known.
pub proof fn law_when_circuits_are_stocked(wanted: bool, stopping: bool, has_consensus: bool, r: StockStep)
    requires
        call_ensures(stock_step, (wanted, stopping, has_consensus), r),
    ensures
        r is Build <==> wanted && !stopping && has_consensus,
        r is Rest <==> !wanted || stopping || !has_consensus,
{
}

/// The relay `p` is listed, under its identity and its address.
pub open spec fn is_listed(v: Seq<RelayAt>, p: PeerEntry) -> bool {
    exists|i: int| 0 <= i < v.len() && is_relay_at(#[trigger] v[i], p)
}

/// `x` is a relay of `s` for which `keep` holds.
pub open spec fn stems_from(x: RelayAt, s: Seq<PeerEntry>, keep: spec_fn(PeerEntry) -> bool) -> bool {
    exists|k: int| 0 <= k < s.len() && keep(#[trigger] s[k]) && is_relay_at(x, s[k])
}

proof fn lemma_located(v: Seq<RelayAt>, s: Seq<PeerEntry>, keep: spec_fn(PeerEntry) -> bool)
    requires
        relays_at(v, s.filter(keep)),
    ensures
        forall|i: int| 0 <= i < v.len() ==> stems_from(#[trigger] v[i], s, keep),
        forall|k: int| 0 <= k < s.len() && keep(#[trigger] s[k]) ==> is_listed(v, s[k]),
{
    broadcast use vstd::seq_lib::group_filter_ensures;

    let f = s.filter(keep);
    assert forall|i: int| 0 <= i < v.len() implies stems_from(#[trigger] v[i], s, keep) by {
        assert(relay_at(v, f, i));
        lemma_filtered_from(s, keep, i);
        let k = choose|k: int| 0 <= k < s.len() && s[k] == f[i];
        assert(keep(s[k]) && is_relay_at(v[i], s[k]));
    }
    assert forall|k: int| 0 <= k < s.len() && keep(#[trigger] s[k]) implies is_listed(v, s[k]) by {
        assert(f.contains(s[k]));
        let i = choose|i: int| 0 <= i < f.len() && f[i] == s[k];
        assert(relay_at(v, f, i));
        assert(is_relay_at(v[i], s[k]));
    }
}

proof fn lemma_filtered_from(s: Seq<PeerEntry>, keep: spec_fn(PeerEntry) -> bool, i: int)
    requires
        0 <= i < s.filter(keep).len(),
    ensures
        s.contains(s.filter(keep)[i]),
        keep(s.filter(keep)[i]),
    decreases s.len(),
{
    reveal(Seq::filter);
    if s.len() > 0 {
        let t = s.drop_last();
        if i < t.filter(keep).len() {
            lemma_filtered_from(t, keep, i);
            let j = choose|j: int| 0 <= j < t.len() && t[j] == t.filter(keep)[i];
            assert(s[j] == s.filter(keep)[i]);
        } else {
            assert(s[s.len() - 1] == s.filter(keep)[i]);
        }
    }
}

/// The relays to link to are those of the consensus but this node: every one that can be
/// read is listed, under its identity and its address, and nothing else is.
pub proof fn law_every_other_relay_is_linked_to(
    n: PhiNode,
    consensus: &ConsensusDocument,
    r: Vec<RelayAt>,
    i: int,
    k: int,
)
    requires
        call_ensures(PhiNode::consensus_relays, (&n, consensus), r),
        0 <= i < r@.len(),
        0 <= k < consensus.peers@.len(),
    ensures
        r@[i].node_id@ != n.node_id@,
        stems_from(r@[i], consensus.peers@, |p: PeerEntry| true),
        rotation::id_in(consensus.peers@[k].node_id_hex@) is Some && rotation::id_in(
            consensus.peers@[k].node_id_hex@,
        )->0 != n.node_id@ ==> is_listed(r@, consensus.peers@[k]),
{
    let s = consensus.peers@;
    let keep = |p: PeerEntry| is_other_relay(p, n.node_id@);
    let every = |p: PeerEntry| true;
    lemma_located(r@, s, keep);
    assert(stems_from(r@[i], s, keep));
    let j = choose|j: int| 0 <= j < s.len() && keep(#[trigger] s[j]) && is_relay_at(r@[i], s[j]);
    assert(every(s[j]) && is_relay_at(r@[i], s[j]));
    if is_other_relay(s[k], n.node_id@) {
        assert(keep(s[k]));
    }
}

/// The links to restore are those that are not there: every other relay of the consensus is
/// linked or listed, and what is listed is not linked.
pub proof fn law_lost_links_are_restored(
    n: PhiNode,
    consensus: &ConsensusDocument,
    r: Vec<RelayAt>,
    i: int,
    k: int,
)
    requires
        call_ensures(PhiNode::links_to_restore, (&n, consensus), r),
        0 <= i < r@.len(),
        0 <= k < consensus.peers@.len(),
    ensures
        r@[i].node_id@ != n.node_id@,
        !n.peers@.contains_key(r@[i].node_id@),
        rotation::id_in(consensus.peers@[k].node_id_hex@) is Some && rotation::id_in(
            consensus.peers@[k].node_id_hex@,
        )->0 != n.node_id@ && !n.peers@.contains_key(rotation::id_in(consensus.peers@[k].node_id_hex@)->0)
            ==> is_listed(r@, consensus.peers@[k]),
{
    let s = consensus.peers@;
    let me = n.node_id@;
    let keep = |p: PeerEntry|
        is_other_relay(p, me) && !n.peers@.contains_key(rotation::id_in(p.node_id_hex@)->0);
    lemma_located(r@, s, keep);
    assert(stems_from(r@[i], s, keep));
    if is_other_relay(s[k], me) && !n.peers@.contains_key(rotation::id_in(s[k].node_id_hex@)->0) {
        assert(keep(s[k]));
    }
}

/// The guards to offer are the chosen ones that the consensus knows: each of them but this
/// node is listed, and what is listed was chosen.
pub proof fn law_chosen_guards_are_offered(
    n: PhiNode,
    consensus: &ConsensusDocument,
    primary: &[String],
    r: Vec<RelayAt>,
    i: int,
    k: int,
)
    requires
        call_ensures(PhiNode::guards_to_offer, (&n, consensus, primary), r),
        0 <= i < r@.len(),
        0 <= k < consensus.peers@.len(),
    ensures
        r@[i].node_id@ != n.node_id@,
        stems_from(r@[i], consensus.peers@, |p: PeerEntry| has_text(primary@, p.node_id_hex@)),
        has_text(primary@, consensus.peers@[k].node_id_hex@) && rotation::id_in(
            consensus.peers@[k].node_id_hex@,
        ) is Some && rotation::id_in(consensus.peers@[k].node_id_hex@)->0 != n.node_id@ ==> is_listed(
            r@,
            consensus.peers@[k],
        ),
{
    let s = consensus.peers@;
    let keep = |p: PeerEntry| has_text(primary@, p.node_id_hex@) && is_other_relay(p, n.node_id@);
    let chosen = |p: PeerEntry| has_text(primary@, p.node_id_hex@);
    lemma_located(r@, s, keep);
    assert(stems_from(r@[i], s, keep));
    let j = choose|j: int| 0 <= j < s.len() && keep(#[trigger] s[j]) && is_relay_at(r@[i], s[j]);
    assert(chosen(s[j]) && is_relay_at(r@[i], s[j]));
    if has_text(primary@, s[k].node_id_hex@) && is_other_relay(s[k], n.node_id@) {
        assert(keep(s[k]));
    }
}

/// The addresses that no rate limit holds are those of the relays, where they are
/// addresses: each such host is listed, and nothing else.
pub proof fn law_relays_are_exempt_by_address(consensus: &ConsensusDocument, r: Vec<String>, host: Seq<char>)
    requires
        call_ensures(exempt_addresses, (consensus,), r),
    ensures
        text::texts(r@).contains(host) <==> (addr::is_ipv4(host) || addr::is_ipv6(host)) && exists|k: int|
            0 <= k < consensus.peers@.len() && (#[trigger] consensus.peers@[k]).host@ == host,
{
    broadcast use vstd::seq_lib::group_filter_ensures;

    let s = consensus.peers@;
    let keep = |p: PeerEntry| is_address(p.host@);
    let f = s.filter(keep);
    let t = f.map_values(|p: PeerEntry| p.host@);
    if t.contains(host) {
        let i = choose|i: int| 0 <= i < t.len() && t[i] == host;
        lemma_filtered_from(s, keep, i);
        let k = choose|k: int| 0 <= k < s.len() && s[k] == f[i];
        assert(s[k].host@ == host);
    }
    if is_address(host) && exists|k: int| 0 <= k < s.len() && (#[trigger] s[k]).host@ == host {
        let k = choose|k: int| 0 <= k < s.len() && (#[trigger] s[k]).host@ == host;
        assert(keep(s[k]));
        assert(f.contains(s[k]));
        let i = choose|i: int| 0 <= i < f.len() && f[i] == s[k];
        assert(t[i] == host);
    }
}

/// The relays that can be sampled are those of the consensus but this node, by their
/// identifiers as they are written.
pub proof fn law_who_can_be_sampled(n: PhiNode, consensus: &ConsensusDocument, r: Vec<String>, id: Seq<char>)
    requires
        call_ensures(PhiNode::sample_candidates, (&n, consensus), r),
    ensures
        text::texts(r@).contains(id) <==> id != text::hex_of(n.node_id@) && exists|k: int|
            0 <= k < consensus.peers@.len() && (#[trigger] consensus.peers@[k]).node_id_hex@ == id,
{
    broadcast use vstd::seq_lib::group_filter_ensures;

    let s = consensus.peers@;
    let keep = |p: PeerEntry| is_candidate(p, n.node_id@);
    let f = s.filter(keep);
    let t = f.map_values(|p: PeerEntry| p.node_id_hex@);
    if t.contains(id) {
        let i = choose|i: int| 0 <= i < t.len() && t[i] == id;
        lemma_filtered_from(s, keep, i);
        let k = choose|k: int| 0 <= k < s.len() && s[k] == f[i];
        assert(s[k].node_id_hex@ == id);
    }
    if id != text::hex_of(n.node_id@) && exists|k: int| 0 <= k < s.len() && (#[trigger] s[k]).node_id_hex@ == id {
        let k = choose|k: int| 0 <= k < s.len() && (#[trigger] s[k]).node_id_hex@ == id;
        assert(keep(s[k]));
        assert(f.contains(s[k]));
        let i = choose|i: int| 0 <= i < f.len() && f[i] == s[k];
        assert(t[i] == id);
    }
}

proof fn lemma_verified(peers: Seq<PeerInfo>, answers: Seq<Option<[u8; 32]>>, p: PeerInfo)
    ensures
        handshake::verified(peers, answers).contains(p) <==> exists|k: int|
            0 <= k < peers.len() && k < answers.len() && #[trigger] peers[k] == p && (answers[k] matches Some(id) && id@
                == p.node_id@),
    decreases peers.len(),
{
    let v = handshake::verified(peers, answers);
    if peers.len() > 0 {
        let t = peers.drop_last();
        let rest = handshake::verified(t, answers);
        lemma_verified(t, answers, p);
        let n = peers.len() - 1;
        if v.contains(p) {
            let i = choose|i: int| 0 <= i < v.len() && v[i] == p;
            if i < rest.len() {
                assert(rest.contains(rest[i]));
                let k = choose|k: int|
                    0 <= k < t.len() && k < answers.len() && #[trigger] t[k] == p && (answers[k] matches Some(id) && id@
                        == p.node_id@);
                assert(peers[k] == p);
            } else {
                assert(peers[n] == p);
            }
        }
        if exists|k: int|
            0 <= k < peers.len() && k < answers.len() && #[trigger] peers[k] == p && (answers[k] matches Some(id) && id@
                == p.node_id@) {
            let k = choose|k: int|
                0 <= k < peers.len() && k < answers.len() && #[trigger] peers[k] == p && (answers[k] matches Some(id)
                    && id@ == p.node_id@);
            if k < n {
                assert(t[k] == p);
                let i = choose|i: int| 0 <= i < rest.len() && rest[i] == p;
                assert(v[i] == p);
            } else {
                assert(v[v.len() - 1] == p);
            }
        }
    }
}

/// The relays that answered as themselves are counted on: each peer whose own identity came
/// back, and no other.
pub proof fn law_who_is_counted_on(n: PhiNode, answers: &[Option<[u8; 32]>], r: Vec<PeerInfo>, all: Vec<PeerInfo>, p: PeerInfo)
    requires
        call_ensures(PhiNode::verified_relays, (&n, answers), r),
        call_ensures(PhiNode::all_peers, (&n,), all),
    ensures
        r@.contains(p) <==> exists|k: int|
            0 <= k < all@.len() && k < answers@.len() && #[trigger] all@[k] == p && (answers@[k] matches Some(id) && id@
                == p.node_id@),
{
    lemma_verified(all@, answers@, p);
}

} // verus!
