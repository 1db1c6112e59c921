//! How a node follows its peers from one certificate to the next.

use crate::bytes::bytes_eq;
use crate::dht::PeerInfo;
use crate::errors::Error;
use crate::node::PhiNode;
use crate::peers::PeerConn;
use crate::rotation;
use crate::rotation::{CertFinding, CertRotate, announce_rotation, parse_id, verify_rotation};
use crate::session;
use crate::session::Session;
use crate::text;
use vstd::prelude::*;
use vstd::string::*;

verus! {

/// The last announcement that was taken from the node, zero when there was none.
pub open spec fn last_seq(seen: Map<Seq<u8>, u64>, id: Seq<u8>) -> u64 {
    if seen.contains_key(id) {
        seen[id]
    } else {
        0
    }
}

/// The announcement that came over the link with the node `src` is worth checking: it
/// speaks of that node, which is linked, and it is newer than all that were taken.
pub open spec fn is_timely(n: PhiNode, m: CertRotate, src: Seq<u8>) -> bool {
    &&& rotation::id_in(m.old_node_id@) == Some(src)
    &&& rotation::id_in(m.new_node_id@) is Some
    &&& n.peers@.contains_key(src)
    &&& m.seq > last_seq(n.seen_rotation_seqs@, src)
}

/// The key of the link with the node.
pub open spec fn link_key(n: PhiNode, id: Seq<u8>) -> Seq<u8> {
    let s = n.peers@[id].session;
    session::link_key_of(s.sending(), s.receiving())
}

/// The announcement is to be followed: its tag fits the link, and the certificate is
/// sound and of the new identifier.
pub open spec fn is_followed(n: PhiNode, m: CertRotate, src: Seq<u8>, cert: CertFinding) -> bool {
    &&& is_timely(n, m, src)
    &&& rotation::is_announced(link_key(n, src), m)
    &&& cert matches CertFinding::Sound(id) && Some(id@) == rotation::id_in(m.new_node_id@)
}

/// `c` is the link `old` under the new identifier and certificate: everything else
/// stays.
pub open spec fn is_renamed(c: PeerConn, old: PeerConn, new_id: Seq<u8>, cert: Seq<char>, now: u64) -> bool {
    &&& c.info.node_id@ == new_id
    &&& c.info.host == old.info.host
    &&& c.info.port == old.info.port
    &&& c.info.cert@ == cert
    &&& c.info.static_pub == old.info.static_pub
    &&& c.session == old.session
    &&& c.last_seen == now
    &&& c.remote_ip == old.remote_ip
    &&& c.queues == old.queues
}

/// `after` are the peers after the node `src` took the identifier of the announcement.
pub open spec fn peers_renamed(
    before: Map<Seq<u8>, PeerConn>,
    after: Map<Seq<u8>, PeerConn>,
    src: Seq<u8>,
    m: CertRotate,
    now: u64,
) -> bool {
    let id = rotation::id_in(m.new_node_id@)->0;
    &&& after.contains_key(id)
    &&& after == before.remove(src).insert(id, after[id])
    &&& is_renamed(after[id], before[src], id, m.new_cert_json@, now)
}

impl PhiNode {
    /// Takes the announcement of a new certificate over the link with the node `src`,
    /// with a certificate of which `cert` was found. A node that is followed keeps its
    /// link and its session. An announcement that was worth checking counts as taken
    /// even when it turns out to be wrong.
    pub fn handle_cert_rotate(
        &mut self,
        msg: &CertRotate,
        src: &[u8; 32],
        cert: CertFinding,
        now: u64,
    ) -> (r: bool)
        requires
            old(self).wf(),
        ensures
            final(self).wf(),
            r == is_followed(*old(self), *msg, src@, cert),
            *final(self) == (PhiNode {
                peers: final(self).peers,
                seen_rotation_seqs: final(self).seen_rotation_seqs,
                ..*old(self)
            }),
            final(self).seen_rotation_seqs@ == if is_timely(*old(self), *msg, src@) {
                old(self).seen_rotation_seqs@.insert(src@, msg.seq)
            } else {
                old(self).seen_rotation_seqs@
            },
            if r {
                peers_renamed(old(self).peers@, final(self).peers@, src@, *msg, now)
            } else {
                final(self).peers@ == old(self).peers@
            },
    {
        let old_id: [u8; 32] = match parse_id(msg.old_node_id.as_str()) {
            Some(b) => b,
            None => return false,
        };
        let new_id: [u8; 32] = match parse_id(msg.new_node_id.as_str()) {
            Some(b) => b,
            None => return false,
        };
        if !bytes_eq(src, &old_id) {
            return false;
        }
        let key: [u8; 32] = match self.peers.get(&old_id) {
            Some(c) => c.session.rotation_link_key(),
            None => return false,
        };
        let prev: u64 = match self.seen_rotation_seqs.get(&old_id) {
            Some(s) => *s,
            None => 0,
        };
        if msg.seq <= prev {
            return false;
        }
        self.seen_rotation_seqs.put(&old_id, msg.seq);
        let ghost c0 = cert;
        let verdict: Result<[u8; 32], Error> = verify_rotation(&key, msg, cert);
        proof {
            rotation::law_acceptance_is_earned(verdict, key@, *msg, c0);
        }
        match verdict {
            Err(_) => false,
            Ok(_) => {
                let ghost before = self.peers@;
                match self.peers.remove(&old_id) {
                    None => false,
                    Some(c) => {
                        let info: PeerInfo = PeerInfo {
                            node_id: new_id,
                            host: c.info.host,
                            port: c.info.port,
                            cert: msg.new_cert_json.clone(),
                            static_pub: c.info.static_pub,
                        };
                        let renamed: PeerConn = PeerConn {
                            info,
                            session: c.session,
                            last_seen: now,
                            remote_ip: c.remote_ip,
                            queues: c.queues,
                        };
                        self.peers.put(&new_id, renamed);
                        true
                    },
                }
            },
        }
    }

    /// The announcement of a new certificate over the link with a peer.
    pub fn rotation_for(
        &self,
        peer: &[u8; 32],
        old_id: &[u8; 32],
        new_id: &[u8; 32],
        cert_json: &str,
        seq: u64,
        ts: u64,
    ) -> (r: Option<CertRotate>)
        requires
            self.wf(),
        ensures
            r is Some == self.peers@.contains_key(peer@),
            r matches Some(m) ==> rotation::announces(
                m,
                link_key(*self, peer@),
                old_id@,
                new_id@,
                cert_json@,
                seq,
                ts,
            ) && rotation::is_announced(link_key(*self, peer@), m),
    {
        match self.peers.get(peer) {
            Some(c) => {
                let key: [u8; 32] = c.session.rotation_link_key();
                Some(announce_rotation(&key, old_id, new_id, cert_json, seq, ts))
            },
            None => None,
        }
    }

    /// The number of the node's next announcement.
    pub fn next_rotation_seq(&mut self) -> (r: u64)
        requires
            old(self).rotation_seq < u64::MAX,
        ensures
            r == old(self).rotation_seq + 1,
            *final(self) == (PhiNode { rotation_seq: r, ..*old(self) }),
    {
        self.rotation_seq = self.rotation_seq + 1;
        self.rotation_seq
    }
}

/// An announcement is taken once: the same one, or an older one, over the same link is
/// refused afterwards, and changes nothing.
pub proof fn law_announcements_are_not_replayed(
    before: PhiNode,
    after: PhiNode,
    m: CertRotate,
    src: Seq<u8>,
    again: CertRotate,
    cert: CertFinding,
)
    requires
        is_timely(before, m, src),
        after.seen_rotation_seqs@ == before.seen_rotation_seqs@.insert(src, m.seq),
        again.seq <= m.seq,
    ensures
        !is_timely(after, again, src),
        !is_followed(after, again, src, cert),
{
}

/// A node can announce a new certificate only of itself: what comes over another link is
/// refused.
pub proof fn law_nobody_rotates_another_node(
    n: PhiNode,
    m: CertRotate,
    src: Seq<u8>,
    cert: CertFinding,
)
    requires
        rotation::id_in(m.old_node_id@) != Some(src),
    ensures
        !is_followed(n, m, src, cert),
{
}

/// What a node announces over a link is followed at the other end, if it is the first or
/// a newer one and the certificate is sound. `n` is the node at the other end, linked to
/// `src` by the session that faces `s`.
pub proof fn law_announcements_reach_the_other_end(
    n: PhiNode,
    m: CertRotate,
    src: Seq<u8>,
    s: Session,
    new_id: [u8; 32],
    json: Seq<char>,
    seq: u64,
    ts: u64,
)
    requires
        src.len() == 32,
        n.peers@.contains_key(src),
        n.peers@[src].session.linked_to(s),
        seq > last_seq(n.seen_rotation_seqs@, src),
        rotation::announces(
            m,
            session::link_key_of(s.sending(), s.receiving()),
            src,
            new_id@,
            json,
            seq,
            ts,
        ),
        rotation::is_announced(session::link_key_of(s.sending(), s.receiving()), m),
    ensures
        is_followed(n, m, src, CertFinding::Sound(new_id)),
{
    Session::law_link_key_is_shared(n.peers@[src].session, s);
    text::lemma_hex_roundtrip(src);
    text::lemma_hex_roundtrip(new_id@);
}

/// A node follows the new certificate of a peer: from then on the peer has its new name,
/// and keeps its link, and the same announcement does not count again.
pub proof fn law_a_rotation_renames_the_peer(
    n: PhiNode,
    after: PhiNode,
    again: PhiNode,
    m: &CertRotate,
    src: &[u8; 32],
    cert: CertFinding,
    id: [u8; 32],
    now: u64,
    later: u64,
    second: bool,
)
    requires
        exists|x: &mut PhiNode|
            *x == n && *final(x) == after && #[trigger] call_ensures(
                PhiNode::handle_cert_rotate,
                (x, m, src, CertFinding::Sound(id), now),
                true,
            ),
        exists|x: &mut PhiNode|
            *x == after && *final(x) == again && #[trigger] call_ensures(
                PhiNode::handle_cert_rotate,
                (x, m, src, cert, later),
                second,
            ),
    ensures
        n.peers@.contains_key(src@),
        after.peers@.contains_key(id@),
        after.peers@[id@].session == n.peers@[src@].session,
        after.peers@[id@].info.node_id@ == id@,
        after.peers@[id@].info.static_pub == n.peers@[src@].info.static_pub,
        after.peers@[id@].info.host == n.peers@[src@].info.host && after.peers@[id@].info.port
            == n.peers@[src@].info.port,
        after.peers@[id@].info.cert@ == m.new_cert_json@,
        after.peers@[id@].last_seen == now,
        after.peers@[id@].queues == n.peers@[src@].queues,
        id@ != src@ ==> !after.peers@.contains_key(src@),
        forall|other: Seq<u8>|
            other != src@ && other != id@ ==> #[trigger] after.peers@.contains_key(other) == n.peers@.contains_key(
                other,
            ),
        !second,
        again.peers@ == after.peers@,
{
}

/// The announcements of a node are numbered upwards, each once.
pub proof fn law_announcements_are_numbered(a: PhiNode, b: PhiNode, c: PhiNode, first: u64, second: u64)
    requires
        exists|x: &mut PhiNode|
            *x == a && *final(x) == b && #[trigger] call_ensures(PhiNode::next_rotation_seq, (x,), first),
        exists|x: &mut PhiNode|
            *x == b && *final(x) == c && #[trigger] call_ensures(PhiNode::next_rotation_seq, (x,), second),
        a.rotation_seq < u64::MAX - 1,
    ensures
        first == a.rotation_seq + 1,
        second == first + 1,
        c.rotation_seq == second,
{
}

/// An announcement is made for the peers that are linked, and names both identifiers and
/// the certificate as they are.
pub proof fn law_announcements_are_made_for_peers(
    n: PhiNode,
    peer: &[u8; 32],
    old_id: &[u8; 32],
    new_id: &[u8; 32],
    json: &str,
    seq: u64,
    ts: u64,
    r: Option<CertRotate>,
)
    requires
        call_ensures(PhiNode::rotation_for, (&n, peer, old_id, new_id, json, seq, ts), r),
    ensures
        r is Some <==> n.peers@.contains_key(peer@),
        r is Some ==> text::unhex(r->0.old_node_id@) == old_id@ && text::unhex(r->0.new_node_id@) == new_id@
            && r->0.new_cert_json@ == json@ && r->0.seq == seq && r->0.ts == ts,
{
    text::lemma_hex_roundtrip(old_id@);
    text::lemma_hex_roundtrip(new_id@);
}

/// An announcement that is not followed renames nobody; one from a stranger, or in another
/// node's name, is never followed.
pub proof fn law_refused_rotations_rename_nobody(
    n: PhiNode,
    after: PhiNode,
    m: &CertRotate,
    src: &[u8; 32],
    cert: CertFinding,
    now: u64,
    r: bool,
)
    requires
        exists|x: &mut PhiNode|
            *x == n && *final(x) == after && #[trigger] call_ensures(
                PhiNode::handle_cert_rotate,
                (x, m, src, cert, now),
                r,
            ),
    ensures
        !r ==> after.peers@ == n.peers@,
        !n.peers@.contains_key(src@) ==> !r,
        text::lowered(m.old_node_id@) != text::hex_of(src@) ==> !r,
        !(cert is Sound) ==> !r,
        n.seen_rotation_seqs@.contains_key(src@) && m.seq <= n.seen_rotation_seqs@[src@] ==> !r,
{
    if text::is_hex(m.old_node_id@) {
        text::lemma_unhex_lowered(m.old_node_id@);
    }
}

} // verus!
