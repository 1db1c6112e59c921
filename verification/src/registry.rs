//! Whom a node is linked to, and whom it believes.

use crate::bytes::bytes_eq;
use crate::circuit::CircuitCellMsg;
use crate::crypto;
use crate::dht::PeerInfo;
use crate::errors;
use crate::errors::Error;
use crate::ids;
use crate::names;
use crate::node::PhiNode;
use crate::peers;
use crate::peers::{PeerConn, STALE_PEER_SECS};
use crate::relay_desc;
use crate::relay_desc::{DescError, RelayDescriptor, build, verify};
use crate::rotation;
use crate::rotation::parse_id;
use crate::session::Session;
use crate::text;
use crate::text::{hex_encode, str_eq};
use vstd::prelude::*;
use vstd::string::*;

verus! {

/// What became of a peer that finished its handshake.
#[derive(Debug, Clone, Copy, PartialEq, Eq, Structural)]
pub enum Registered {
    /// It is linked now.
    Linked,
    /// It was linked already; the new link is dropped.
    Already,
}

/// `c` is a fresh link to the peer `info`.
pub open spec fn is_fresh_link(
    c: PeerConn,
    info: PeerInfo,
    session: Session,
    remote_ip: Option<String>,
    now: u64,
) -> bool {
    &&& c.info == info
    &&& c.session == session
    &&& c.remote_ip == remote_ip
    &&& c.last_seen == now
    &&& c.queues@ == Map::<u32, Seq<CircuitCellMsg>>::empty()
}

/// The contacts `m` after the peer presented its static key.
pub open spec fn contact_learned(m: Map<Seq<u8>, [u8; 32]>, after: Map<Seq<u8>, [u8; 32]>, info: PeerInfo) -> bool {
    match rotation::id_in(info.static_pub@) {
        Some(k) => after.dom() == m.dom().insert(info.node_id@) && after[info.node_id@]@ == k
            && forall|id: Seq<u8>|
            #![trigger after[id]]
            id != info.node_id@ && m.contains_key(id) ==> after[id] == m[id],
        None => after == m,
    }
}

impl PhiNode {
    /// Takes a peer that finished its handshake. A node does not link to itself, nor
    /// to a peer twice. Its static key becomes known, so that it can be written to.
    pub fn register_peer(
        &mut self,
        info: PeerInfo,
        session: Session,
        remote_ip: Option<String>,
        now: u64,
    ) -> (r: Result<Registered, Error>)
        requires
            old(self).wf(),
        ensures
            final(self).wf(),
            if info.node_id@ == old(self).node_id@ {
                errors::is_handshake(r, "self-connection rejected"@) && *final(self) == *old(self)
            } else if old(self).peers@.contains_key(info.node_id@) {
                r == Ok::<Registered, Error>(Registered::Already) && *final(self) == *old(self)
            } else {
                &&& r == Ok::<Registered, Error>(Registered::Linked)
                &&& final(self).peers@.dom() == old(self).peers@.dom().insert(info.node_id@)
                &&& final(self).peers@ == old(self).peers@.insert(
                    info.node_id@,
                    final(self).peers@[info.node_id@],
                )
                &&& is_fresh_link(
                    final(self).peers@[info.node_id@],
                    info,
                    session,
                    remote_ip,
                    now,
                )
                &&& contact_learned(old(self).com_contacts@, final(self).com_contacts@, info)
                &&& *final(self) == (PhiNode {
                    peers: final(self).peers,
                    com_contacts: final(self).com_contacts,
                    ..*old(self)
                })
            },
    {
        if bytes_eq(&info.node_id, &self.node_id) {
            return Err(Error::Handshake("self-connection rejected".to_owned()));
        }
        if self.peers.contains(&info.node_id) {
            return Ok(Registered::Already);
        }
        let id: [u8; 32] = info.node_id;
        if let Some(k) = parse_id(info.static_pub.as_str()) {
            self.com_contacts.put(&id, k);
        }
        let c: PeerConn = PeerConn::new(info, session, remote_ip, now);
        self.peers.put(&id, c);
        Ok(Registered::Linked)
    }

    /// Drops the link to a peer.
    pub fn unlink(&mut self, id: &[u8; 32])
        requires
            old(self).wf(),
        ensures
            final(self).wf(),
            final(self).peers@ == old(self).peers@.remove(id@),
            *final(self) == (PhiNode { peers: final(self).peers, ..*old(self) }),
    {
        self.peers.remove(id);
    }

    /// Notes that something arrived from a peer.
    pub fn heard_from(&mut self, id: &[u8; 32], now: u64)
        requires
            old(self).wf(),
        ensures
            final(self).wf(),
            *final(self) == (PhiNode { peers: final(self).peers, ..*old(self) }),
            if old(self).peers@.contains_key(id@) {
                let c = old(self).peers@[id@];
                final(self).peers@ == old(self).peers@.insert(
                    id@,
                    (PeerConn { last_seen: now, ..c }),
                )
            } else {
                final(self).peers@ == old(self).peers@
            },
    {
        let ghost before = self.peers@;
        if let Some(mut c) = self.peers.remove(id) {
            c.touch(now);
            let ghost c1 = c;
            self.peers.put(id, c);
            assert(self.peers@ =~= before.insert(id@, c1));
        } else {
            assert(self.peers@ =~= before);
        }
    }

    /// Takes out the peers that have been silent for too long, and tells who they
    /// were.
    pub fn reap_dead_peers(&mut self, now: u64) -> (r: Vec<[u8; 32]>)
        requires
            old(self).wf(),
        ensures
            final(self).wf(),
            *final(self) == (PhiNode { peers: final(self).peers, ..*old(self) }),
            reaped(old(self).peers@, now, final(self).peers@),
            forall|id: Seq<u8>|
                #![trigger old(self).peers@.contains_key(id)]
                #![trigger has_id(r@, id)]
                old(self).peers@.contains_key(id) && old(self).peers@[id].stale(now)
                    <==> has_id(r@, id),
            each_once(r@),
    {
        let mut dead: Vec<[u8; 32]> = Vec::new();
        let mut i: usize = 0;
        let ghost l = self.peers.list();
        proof {
            self.peers.lemma_wf();
            ids::lemma_keyed(l);
        }
        while i < self.peers.len()
            invariant
                i <= l.len(),
                l == self.peers.list(),
                ids::distinct_ids(l),
                each_once(dead@),
                *self == *old(self),
                forall|k: int|
                    0 <= k < i && (#[trigger] l[k]).1.stale(now) ==> has_id(dead@, l[k].0@),
                forall|j: int|
                    0 <= j < dead@.len() ==> stale_among(
                        l.take(i as int),
                        (#[trigger] dead@[j])@,
                        now,
                    ),
            decreases l.len() - i,
        {
            let ghost d0 = dead@;
            if self.peers.value(i).idle_secs(now) > STALE_PEER_SECS {
                dead.push(*self.peers.id(i));
                assert forall|a: int| 0 <= a < d0.len() implies (#[trigger] dead@[a])@
                    != l[i as int].0@ by {
                    assert(stale_among(l.take(i as int), d0[a]@, now));
                    let k = choose|k: int|
                        0 <= k < i && (#[trigger] l.take(i as int)[k]).0@ == d0[a]@
                            && l.take(i as int)[k].1.stale(now);
                    assert(l[k].0@ != l[i as int].0@);
                }
                assert(dead@[d0.len() as int]@ == l[i as int].0@);
                assert(has_id(dead@, l[i as int].0@));
            }
            assert forall|k: int| 0 <= k < i + 1 && (#[trigger] l[k]).1.stale(now) implies has_id(
                dead@,
                l[k].0@,
            ) by {
                if k < i {
                    assert(has_id(d0, l[k].0@));
                    let j = choose|j: int| 0 <= j < d0.len() && (#[trigger] d0[j])@ == l[k].0@;
                    assert(dead@[j]@ == l[k].0@);
                }
            }
            assert forall|j: int| 0 <= j < dead@.len() implies stale_among(
                l.take(i + 1),
                (#[trigger] dead@[j])@,
                now,
            ) by {
                let a = l.take(i as int);
                let b = l.take(i + 1);
                if j < d0.len() {
                    assert(stale_among(a, d0[j]@, now));
                    let k = choose|k: int|
                        0 <= k < a.len() && (#[trigger] a[k]).0@ == d0[j]@ && a[k].1.stale(now);
                    assert(b[k] == a[k]);
                } else {
                    assert(b[i as int].0@ == dead@[j]@);
                }
            }
            i += 1;
        }
        assert(l.take(i as int) =~= l);
        let ghost before = self.peers@;
        let mut j: usize = 0;
        while j < dead.len()
            invariant
                j <= dead@.len(),
                self.peers.wf(),
                self.wf(),
                *self == (PhiNode { peers: self.peers, ..*old(self) }),
                before == old(self).peers@,
                forall|id: Seq<u8>|
                    #![trigger self.peers@.contains_key(id)]
                    self.peers@.contains_key(id) == (before.contains_key(id) && !has_id(
                        dead@.take(j as int),
                        id,
                    )),
                forall|id: Seq<u8>|
                    #![trigger self.peers@[id]]
                    self.peers@.contains_key(id) ==> self.peers@[id] == before[id],
            decreases dead@.len() - j,
        {
            let ghost p0 = self.peers@;
            self.peers.remove(&dead[j]);
            assert forall|id: Seq<u8>|
                #![trigger self.peers@.contains_key(id)]
                self.peers@.contains_key(id) == (before.contains_key(id) && !has_id(
                    dead@.take(j + 1),
                    id,
                )) by {
                assert(p0.contains_key(id) == (before.contains_key(id) && !has_id(
                    dead@.take(j as int),
                    id,
                )));
                lemma_has_id_step(dead@, j as int, id);
            }
            j += 1;
        }
        assert(dead@.take(j as int) =~= dead@);
        proof {
            assert forall|id: Seq<u8>|
                #![trigger before.contains_key(id)]
                before.contains_key(id) && before[id].stale(now) <==> has_id(dead@, id) by {
                if before.contains_key(id) && before[id].stale(now) {
                    let k = choose|k: int| 0 <= k < l.len() && (#[trigger] l[k]).0@ == id;
                    assert(ids::keyed(l)[l[k].0@] == l[k].1);
                    assert(has_id(dead@, l[k].0@));
                }
                if has_id(dead@, id) {
                    let q = choose|q: int| 0 <= q < dead@.len() && (#[trigger] dead@[q])@ == id;
                    assert(stale_among(l, dead@[q]@, now));
                    let k = choose|k: int|
                        0 <= k < l.len() && (#[trigger] l[k]).0@ == dead@[q]@ && l[k].1.stale(now);
                    assert(ids::keyed(l)[l[k].0@] == l[k].1);
                }
            }
        }
        dead
    }
}

/// The peer with the identifier is in the list, and has been silent for too long.
spec fn stale_among(l: Seq<([u8; 32], PeerConn)>, id: Seq<u8>, now: u64) -> bool {
    exists|k: int| 0 <= k < l.len() && (#[trigger] l[k]).0@ == id && l[k].1.stale(now)
}

/// No identifier is in the list twice.
pub open spec fn each_once(l: Seq<[u8; 32]>) -> bool {
    forall|i: int, j: int| 0 <= i < j < l.len() ==> (#[trigger] l[i])@ != (#[trigger] l[j])@
}

/// `l` holds the identifier `id`.
pub open spec fn has_id(l: Seq<[u8; 32]>, id: Seq<u8>) -> bool {
    exists|i: int| 0 <= i < l.len() && (#[trigger] l[i])@ == id
}

proof fn lemma_has_id_step(l: Seq<[u8; 32]>, j: int, id: Seq<u8>)
    requires
        0 <= j < l.len(),
    ensures
        has_id(l.take(j + 1), id) == (has_id(l.take(j), id) || l[j]@ == id),
{
    let a = l.take(j);
    let b = l.take(j + 1);
    if has_id(a, id) {
        let i = choose|i: int| 0 <= i < a.len() && (#[trigger] a[i])@ == id;
        assert(b[i]@ == id);
    }
    if l[j]@ == id {
        assert(b[j]@ == id);
    }
    if has_id(b, id) {
        let i = choose|i: int| 0 <= i < b.len() && (#[trigger] b[i])@ == id;
        if i < j {
            assert(a[i]@ == id);
        }
    }
}

/// `after` is `before` without the peers that have been silent for too long.
pub open spec fn reaped(before: Map<Seq<u8>, PeerConn>, now: u64, after: Map<Seq<u8>, PeerConn>) -> bool {
    &&& forall|id: Seq<u8>|
        #![trigger after.contains_key(id)]
        after.contains_key(id) == (before.contains_key(id) && !before[id].stale(now))
    &&& forall|id: Seq<u8>| #![trigger after[id]] after.contains_key(id) ==> after[id] == before[id]
}

/// A peer that was heard of within the limit stays, one that was not goes.
pub proof fn law_only_silent_peers_are_reaped(
    before: Map<Seq<u8>, PeerConn>,
    now: u64,
    after: Map<Seq<u8>, PeerConn>,
    id: Seq<u8>,
)
    requires
        before.contains_key(id),
        reaped(before, now, after),
    ensures
        peers::silence(now, before[id].last_seen) <= STALE_PEER_SECS ==> after.contains_key(id)
            && after[id] == before[id],
        peers::silence(now, before[id].last_seen) > STALE_PEER_SECS ==> !after.contains_key(id),
{
    assert(after.contains_key(id) == (before.contains_key(id) && !before[id].stale(now)));
}

/// Whether the key may be pinned to the node: it is the one that is pinned, or none is.
pub open spec fn may_pin(pins: Map<Seq<u8>, String>, id: Seq<u8>, key: Seq<char>) -> bool {
    pins.contains_key(id) ==> pins[id]@ == key
}

/// `after` are the pins after the key was presented for the node: the first stays.
pub open spec fn pinned_after(
    pins: Map<Seq<u8>, String>,
    id: Seq<u8>,
    key: String,
    after: Map<Seq<u8>, String>,
) -> bool {
    after == if pins.contains_key(id) {
        pins
    } else {
        pins.insert(id, key)
    }
}

/// The key that is pinned to the node.
pub open spec fn pin_of(pins: Map<Seq<u8>, String>, id: Seq<u8>) -> Option<Seq<char>> {
    if pins.contains_key(id) {
        Some(pins[id]@)
    } else {
        None
    }
}

/// The descriptor is to be believed: it verifies against the key that is pinned to the
/// node that it describes.
pub open spec fn believable(pins: Map<Seq<u8>, String>, d: RelayDescriptor, now: u64) -> bool {
    match rotation::id_in(d.node_id_hex@) {
        Some(id) => relay_desc::verdict(d, pin_of(pins, id), now) == Ok::<(), DescError>(()),
        None => false,
    }
}

impl PhiNode {
    /// Pins a peer's signing key, learned over a link that authenticated the peer. A
    /// node that presents another key later is refused: accepting it would make the pin
    /// worthless.
    pub fn pin_signing_key(&mut self, node_id: [u8; 32], signing_pub_hex: String) -> (r: bool)
        requires
            old(self).wf(),
        ensures
            final(self).wf(),
            r == may_pin(old(self).pinned_keys@, node_id@, signing_pub_hex@),
            pinned_after(
                old(self).pinned_keys@,
                node_id@,
                signing_pub_hex,
                final(self).pinned_keys@,
            ),
            *final(self) == (PhiNode { pinned_keys: final(self).pinned_keys, ..*old(self) }),
    {
        match self.pinned_keys.get(&node_id) {
            Some(k) => str_eq(k.as_str(), signing_pub_hex.as_str()),
            None => {
                self.pinned_keys.put(&node_id, signing_pub_hex);
                true
            },
        }
    }

    /// The key that is pinned to a node.
    pub fn pinned_signing_key(&self, node_id: &[u8; 32]) -> (r: Option<String>)
        requires
            self.wf(),
        ensures
            match r {
                Some(k) => Some(k@) == pin_of(self.pinned_keys@, node_id@),
                None => pin_of(self.pinned_keys@, node_id@) is None,
            },
    {
        match self.pinned_keys.get(node_id) {
            Some(k) => Some(k.clone()),
            None => None,
        }
    }

    /// Takes a descriptor if it verifies against the key that is pinned to its node.
    pub fn accept_descriptor(&mut self, d: RelayDescriptor, now: u64) -> (r: bool)
        requires
            old(self).wf(),
        ensures
            final(self).wf(),
            r == believable(old(self).pinned_keys@, d, now),
            final(self).descriptors@ == if r {
                old(self).descriptors@.insert(d.node_id_hex@, d)
            } else {
                old(self).descriptors@
            },
            *final(self) == (PhiNode { descriptors: final(self).descriptors, ..*old(self) }),
    {
        let id: [u8; 32] = match parse_id(d.node_id_hex.as_str()) {
            Some(id) => id,
            None => return false,
        };
        let pinned: Option<String> = self.pinned_signing_key(&id);
        let expect: Option<&str> = match &pinned {
            Some(k) => Some(k.as_str()),
            None => None,
        };
        match verify(&d, expect, now) {
            Ok(()) => {
                let name: String = d.node_id_hex.clone();
                self.descriptors.put(name.as_str(), d);
                true
            },
            Err(_) => false,
        }
    }

    /// Every descriptor that the node holds.
    pub fn known_descriptors(&self) -> (r: Vec<RelayDescriptor>)
        requires
            self.wf(),
        ensures
            r@ == values_of(self.descriptors.list()),
    {
        let mut r: Vec<RelayDescriptor> = Vec::new();
        let mut i: usize = 0;
        while i < self.descriptors.len()
            invariant
                i <= self.descriptors.list().len(),
                r@ =~= values_of(self.descriptors.list().take(i as int)),
            decreases self.descriptors.list().len() - i,
        {
            r.push(self.descriptors.value(i).duplicate());
            i += 1;
        }
        assert(self.descriptors.list().take(i as int) =~= self.descriptors.list());
        r
    }

    /// This node's own descriptor, signed; nothing without a signing key.
    pub fn my_descriptor(&self, now: u64) -> (r: Option<RelayDescriptor>)
        ensures
            r is Some == self.signing_key is Some,
            r matches Some(d) ==> self.is_own_descriptor(d, now),
    {
        match &self.signing_key {
            Some(k) => {
                let d: RelayDescriptor = build(
                    k,
                    hex_encode(&self.node_id),
                    self.host.clone(),
                    self.port,
                    hex_encode(&self.keypair.public),
                    self.family.clone(),
                    "default".to_owned(),
                    now,
                );
                Some(d)
            },
            None => None,
        }
    }

    /// `d` is the node's own descriptor of the time `now`, which others believe if they
    /// pinned its signing key.
    pub open spec fn is_own_descriptor(self, d: RelayDescriptor, now: u64) -> bool {
        &&& d.node_id_hex@ == text::hex_of(self.node_id@)
        &&& d.signing_pub_hex@ == text::hex_of(crypto::ed25519_public_of(self.signing_key->0@))
        &&& d.host@ == self.host@
        &&& d.port == self.port
        &&& d.static_pub_hex@ == text::hex_of(self.keypair.public@)
        &&& d.family@ == self.family@
        &&& d.exit_policy_summary@ == "default"@
        &&& d.published == now
        &&& forall|t: u64|
            relay_desc::fresh_at(d, t) ==> #[trigger] relay_desc::verdict(
                d,
                Some(d.signing_pub_hex@),
                t,
            ) == Ok::<(), DescError>(())
    }

    /// Takes a descriptor that a peer sent, and tells to whom to pass it on. A peer that
    /// describes itself has its key pinned first; one that describes another node is
    /// believed only if that node's key was pinned before.
    pub fn on_relay_desc(&mut self, src: &[u8; 32], d: RelayDescriptor, now: u64) -> (r: Vec<[u8; 32]>)
        requires
            old(self).wf(),
        ensures
            final(self).wf(),
            *final(self) == (PhiNode {
                pinned_keys: final(self).pinned_keys,
                descriptors: final(self).descriptors,
                ..*old(self)
            }),
            ({
                let own = d.node_id_hex@ == text::hex_of(src@);
                let pins = old(self).pinned_keys@;
                if own && !may_pin(pins, src@, d.signing_pub_hex@) {
                    &&& r@.len() == 0
                    &&& final(self).pinned_keys@ == pins
                    &&& final(self).descriptors@ == old(self).descriptors@
                } else {
                    let now_pinned = final(self).pinned_keys@;
                    &&& if own {
                        pins_text_after(pins, src@, d.signing_pub_hex@, now_pinned)
                    } else {
                        now_pinned == pins
                    }
                    &&& if believable(now_pinned, d, now) {
                        &&& r@ == others(peers::ids_of(old(self).peers.list()), src@)
                        &&& final(self).descriptors@.dom() == old(self).descriptors@.dom().insert(
                            d.node_id_hex@,
                        )
                        &&& final(self).descriptors@ == old(self).descriptors@.insert(
                            d.node_id_hex@,
                            d,
                        )
                    } else {
                        r@.len() == 0 && final(self).descriptors@ == old(self).descriptors@
                    }
                }
            }),
    {
        let src_hex: String = hex_encode(src);
        if str_eq(d.node_id_hex.as_str(), src_hex.as_str()) {
            if !self.pin_signing_key(*src, d.signing_pub_hex.clone()) {
                return Vec::new();
            }
        }
        if self.accept_descriptor(d, now) {
            let ids: Vec<[u8; 32]> = self.linked();
            without_id(&ids, src)
        } else {
            Vec::new()
        }
    }

    /// The peers to pass a message on to: all but the one that it came from.
    pub fn gossip_targets(&self, src: &[u8; 32]) -> (r: Vec<[u8; 32]>)
        requires
            self.wf(),
        ensures
            r@ == others(peers::ids_of(self.peers.list()), src@),
    {
        let ids: Vec<[u8; 32]> = self.linked();
        without_id(&ids, src)
    }
}

/// `after` are the pins after the key was pinned to the node.
pub open spec fn pins_text_after(
    pins: Map<Seq<u8>, String>,
    id: Seq<u8>,
    key: Seq<char>,
    after: Map<Seq<u8>, String>,
) -> bool {
    if pins.contains_key(id) {
        after == pins
    } else {
        after.dom() == pins.dom().insert(id) && after[id]@ == key && after == pins.insert(
            id,
            after[id],
        )
    }
}

/// The values of a list of named values.
pub open spec fn values_of<V>(l: Seq<(String, V)>) -> Seq<V> {
    l.map_values(|e: (String, V)| e.1)
}

/// The identifiers of `l` but `id`.
pub open spec fn others(l: Seq<[u8; 32]>, id: Seq<u8>) -> Seq<[u8; 32]> {
    l.filter(|x: [u8; 32]| x@ != id)
}

fn without_id(l: &[[u8; 32]], id: &[u8; 32]) -> (r: Vec<[u8; 32]>)
    ensures
        r@ == others(l@, id@),
{
    let ghost f = |x: [u8; 32]| x@ != id@;
    let mut r: Vec<[u8; 32]> = Vec::new();
    let mut i: usize = 0;
    proof {
        reveal(Seq::filter);
    }
    assert(l@.take(0) =~= Seq::empty());
    assert(r@ =~= l@.take(0).filter(f));
    while i < l.len()
        invariant
            i <= l@.len(),
            f == (|x: [u8; 32]| x@ != id@),
            r@ == l@.take(i as int).filter(f),
        decreases l@.len() - i,
    {
        let ghost next = l@.take(i + 1);
        assert(next.drop_last() =~= l@.take(i as int));
        assert(next.last() == l@[i as int]);
        proof {
            reveal(Seq::filter);
        }
        if !bytes_eq(&l[i], id) {
            r.push(l[i]);
        }
        assert(r@ == next.filter(f));
        i += 1;
    }
    assert(l@.take(i as int) =~= l@);
    r
}

/// A pin is for good: whatever keys are presented for a node, the first one that was
/// stays.
pub proof fn law_pins_never_change(
    pins: Map<Seq<u8>, String>,
    id: Seq<u8>,
    key: String,
    after: Map<Seq<u8>, String>,
    who: Seq<u8>,
)
    requires
        pins.contains_key(who),
        pinned_after(pins, id, key, after),
    ensures
        after.contains_key(who),
        after[who] == pins[who],
{
}

/// A descriptor of a node whose key was never pinned is not believed, however well it
/// is signed.
pub proof fn law_strangers_are_not_believed(
    pins: Map<Seq<u8>, String>,
    d: RelayDescriptor,
    now: u64,
)
    requires
        rotation::id_in(d.node_id_hex@) matches Some(id) ==> !pins.contains_key(id),
    ensures
        !believable(pins, d, now),
{
}

/// A peer that was linked is there, as it came, until it is taken away; this node itself is
/// never linked, and a peer that is there already stays as it is.
pub proof fn law_peers_are_there_until_unlinked(
    n: PhiNode,
    linked: PhiNode,
    info: PeerInfo,
    session: Session,
    ip: Option<String>,
    now: u64,
    r: Result<Registered, Error>,
    gone: PhiNode,
    id: &[u8; 32],
    other: Seq<u8>,
)
    requires
        id@ == info.node_id@,
        other != id@,
        exists|x: &mut PhiNode|
            *x == n && *final(x) == linked && #[trigger] call_ensures(
                PhiNode::register_peer,
                (x, info, session, ip, now),
                r,
            ),
        exists|x: &mut PhiNode|
            *x == linked && *final(x) == gone && #[trigger] call_ensures(PhiNode::unlink, (x, id), ()),
    ensures
        r is Err <==> info.node_id@ == n.node_id@,
        r is Err ==> linked == n,
        r is Ok && n.peers@.contains_key(id@) ==> r->Ok_0 is Already && linked == n,
        r is Ok && !n.peers@.contains_key(id@) ==> r->Ok_0 is Linked && linked.peers@.contains_key(id@)
            && linked.peers@[id@].info == info && linked.peers@[id@].session == session && linked.peers@[id@].last_seen
            == now,
        !gone.peers@.contains_key(id@),
        gone.peers@.contains_key(other) == n.peers@.contains_key(other),
        n.peers@.contains_key(other) ==> gone.peers@[other] == n.peers@[other],
{
}

/// A peer that was heard of is not taken for silent for ninety seconds, and one that was
/// not heard of for longer is taken away, and named.
pub proof fn law_silent_peers_are_taken_away(
    n: PhiNode,
    heard: PhiNode,
    after: PhiNode,
    id: &[u8; 32],
    now: u64,
    later: u64,
    gone: Vec<[u8; 32]>,
)
    requires
        n.wf(),
        n.peers@.contains_key(id@),
        exists|x: &mut PhiNode|
            *x == n && *final(x) == heard && #[trigger] call_ensures(PhiNode::heard_from, (x, id, now), ()),
        exists|x: &mut PhiNode|
            *x == heard && *final(x) == after && #[trigger] call_ensures(PhiNode::reap_dead_peers, (x, later), gone),
    ensures
        after.peers@.contains_key(id@) <==> later <= now + 90,
        has_id(gone@, id@) <==> later > now + 90,
        forall|other: Seq<u8>|
            other != id@ ==> (#[trigger] after.peers@.contains_key(other) <==> n.peers@.contains_key(other) && later
                <= n.peers@[other].last_seen + 90),
{
    let m = heard.peers@;
    assert(m.contains_key(id@));
    assert(m[id@].last_seen == now);
    assert forall|other: Seq<u8>| other != id@ implies (#[trigger] after.peers@.contains_key(other) <==> n.peers@.contains_key(
        other,
    ) && later <= n.peers@[other].last_seen + 90) by {
        assert(m.contains_key(other) == n.peers@.contains_key(other));
        if n.peers@.contains_key(other) {
            assert(m[other] == n.peers@[other]);
        }
    }
}

/// The first key that a node was pinned with stays its key: another is refused, and what is
/// known of other nodes stays.
pub proof fn law_the_first_key_stays(
    n: PhiNode,
    one: PhiNode,
    two: PhiNode,
    id: [u8; 32],
    key: String,
    other: String,
    first: bool,
    second: bool,
    pinned: Option<String>,
)
    requires
        !n.pinned_keys@.contains_key(id@),
        exists|x: &mut PhiNode|
            *x == n && *final(x) == one && #[trigger] call_ensures(PhiNode::pin_signing_key, (x, id, key), first),
        exists|x: &mut PhiNode|
            *x == one && *final(x) == two && #[trigger] call_ensures(PhiNode::pin_signing_key, (x, id, other), second),
        call_ensures(PhiNode::pinned_signing_key, (&two, &id), pinned),
    ensures
        first,
        second <==> other@ == key@,
        pinned is Some && pinned->0@ == key@,
        forall|k: Seq<u8>|
            k != id@ ==> #[trigger] two.pinned_keys@.contains_key(k) == n.pinned_keys@.contains_key(k),
{
}

/// A descriptor that a relay made of itself is taken over by every node that does not know
/// it under another key, as long as it is fresh, and passed on to every peer but the one it
/// came from.
pub proof fn law_own_descriptors_spread(
    maker: PhiNode,
    d: RelayDescriptor,
    made: u64,
    n: PhiNode,
    after: PhiNode,
    src: [u8; 32],
    now: u64,
    r: Vec<[u8; 32]>,
    id: [u8; 32],
)
    requires
        maker.signing_key is Some,
        call_ensures(PhiNode::my_descriptor, (&maker, made), Some(d)),
        relay_desc::fresh_at(d, now),
        src@ == maker.node_id@,
        !n.pinned_keys@.contains_key(src@) || n.pinned_keys@[src@]@ == d.signing_pub_hex@,
        exists|x: &mut PhiNode|
            *x == n && *final(x) == after && #[trigger] call_ensures(PhiNode::on_relay_desc, (x, &src, d, now), r),
    ensures
        after.descriptors@.contains_key(text::hex_of(src@)),
        after.descriptors@[text::hex_of(src@)] == d,
        after.pinned_keys@.contains_key(src@) && after.pinned_keys@[src@]@ == d.signing_pub_hex@,
        r@.contains(id) <==> peers::ids_of(n.peers.list()).contains(id) && id@ != src@,
{
    broadcast use vstd::seq_lib::group_filter_ensures;

    text::lemma_hex_roundtrip(src@);
    let pins = after.pinned_keys@;
    assert(pin_of(pins, src@) == Some(d.signing_pub_hex@));
    assert(relay_desc::verdict(d, Some(d.signing_pub_hex@), now) == Ok::<(), DescError>(()));
    assert(believable(pins, d, now));
    let s = peers::ids_of(n.peers.list());
    let keep = |x: [u8; 32]| x@ != src@;
    if r@.contains(id) {
        let i = choose|i: int| 0 <= i < r@.len() && r@[i] == id;
        lemma_others_from(s, keep, i);
    }
    if s.contains(id) && id@ != src@ {
        let i = choose|i: int| 0 <= i < s.len() && s[i] == id;
        assert(keep(s[i]));
    }
}

proof fn lemma_others_from(s: Seq<[u8; 32]>, keep: spec_fn([u8; 32]) -> bool, i: int)
    requires
        0 <= i < s.filter(keep).len(),
    ensures
        s.contains(s.filter(keep)[i]),
        keep(s.filter(keep)[i]),
    decreases s.len(),
{
    reveal(Seq::filter);
    if s.len() > 0 {
        let t = s.drop_last();
        if i < t.filter(keep).len() {
            lemma_others_from(t, keep, i);
            let j = choose|j: int| 0 <= j < t.len() && t[j] == t.filter(keep)[i];
            assert(s[j] == s.filter(keep)[i]);
        } else {
            assert(s[s.len() - 1] == s.filter(keep)[i]);
        }
    }
}

/// A descriptor that is not believed changes nothing, and is passed on to nobody.
pub proof fn law_descriptors_are_taken_only_when_believed(
    n: PhiNode,
    after: PhiNode,
    d: RelayDescriptor,
    now: u64,
    r: bool,
)
    requires
        exists|x: &mut PhiNode|
            *x == n && *final(x) == after && #[trigger] call_ensures(PhiNode::accept_descriptor, (x, d, now), r),
    ensures
        !r ==> after.descriptors@ == n.descriptors@,
        r ==> after.descriptors@.contains_key(d.node_id_hex@) && after.descriptors@[d.node_id_hex@] == d,
        r ==> rotation::id_in(d.node_id_hex@) is Some && n.pinned_keys@.contains_key(
            rotation::id_in(d.node_id_hex@)->0,
        ) ==> n.pinned_keys@[rotation::id_in(d.node_id_hex@)->0]@ == d.signing_pub_hex@,
        after.pinned_keys == n.pinned_keys,
{
}

/// A peer that is linked becomes a contact with the key it came with, where that can be
/// read; the contacts that were known stay.
pub proof fn law_linked_peers_become_contacts(
    n: PhiNode,
    after: PhiNode,
    info: PeerInfo,
    session: Session,
    ip: Option<String>,
    now: u64,
    other: Seq<u8>,
)
    requires
        other != info.node_id@,
        exists|x: &mut PhiNode|
            *x == n && *final(x) == after && #[trigger] call_ensures(
                PhiNode::register_peer,
                (x, info, session, ip, now),
                Ok(Registered::Linked),
            ),
    ensures
        text::is_hex(info.static_pub@) && info.static_pub@.len() == 64 ==> after.com_contacts@.contains_key(
            info.node_id@,
        ) && text::hex_of(after.com_contacts@[info.node_id@]@) == text::lowered(info.static_pub@),
        after.com_contacts@.contains_key(other) == n.com_contacts@.contains_key(other),
        n.com_contacts@.contains_key(other) ==> after.com_contacts@[other] == n.com_contacts@[other],
{
    if text::is_hex(info.static_pub@) && info.static_pub@.len() == 64 {
        text::lemma_unhex_lowered(info.static_pub@);
    }
    if n.peers@.contains_key(info.node_id@) || info.node_id@ == n.node_id@ {
    } else {
        assert(contact_learned(n.com_contacts@, after.com_contacts@, info));
        if rotation::id_in(info.static_pub@) is Some {
            assert(after.com_contacts@.dom() == n.com_contacts@.dom().insert(info.node_id@));
            assert(after.com_contacts@.dom().contains(other) == n.com_contacts@.dom().contains(other));
        }
    }
}

/// Every descriptor that was taken over is known, and nothing else.
pub proof fn law_known_descriptors_are_listed(n: PhiNode, r: Vec<RelayDescriptor>, d: RelayDescriptor)
    requires
        n.wf(),
        call_ensures(PhiNode::known_descriptors, (&n,), r),
    ensures
        r@.contains(d) <==> exists|k: Seq<char>| #[trigger] n.descriptors@.contains_key(k) && n.descriptors@[k] == d,
{
    n.descriptors.lemma_wf();
    let l = n.descriptors.list();
    names::lemma_named(l);
    if r@.contains(d) {
        let i = choose|i: int| 0 <= i < r@.len() && r@[i] == d;
        assert(l[i].1 == d);
        assert(n.descriptors@.contains_key(l[i].0@));
    }
    if exists|k: Seq<char>| #[trigger] n.descriptors@.contains_key(k) && n.descriptors@[k] == d {
        let k = choose|k: Seq<char>| #[trigger] n.descriptors@.contains_key(k) && n.descriptors@[k] == d;
        let i = choose|i: int| 0 <= i < l.len() && #[trigger] l[i].0@ == k;
        assert(n.descriptors@[l[i].0@] == l[i].1);
        assert(r@[i] == d);
    }
}

/// A relay states of itself what it is: its identity, its address, its keys, its operator
/// and when it said so; without a key to sign with it states nothing.
pub proof fn law_what_a_relay_states_of_itself(n: PhiNode, now: u64, r: Option<RelayDescriptor>)
    requires
        call_ensures(PhiNode::my_descriptor, (&n, now), r),
    ensures
        r is Some <==> n.signing_key is Some,
        r is Some ==> ({
            let d = r->0;
            &&& text::unhex(d.node_id_hex@) == n.node_id@
            &&& text::unhex(d.static_pub_hex@) == n.keypair.public@
            &&& text::unhex(d.signing_pub_hex@) == crypto::ed25519_public_of(n.signing_key->0@)
            &&& d.host@ == n.host@ && d.port == n.port
            &&& d.family@ == n.family@
            &&& d.exit_policy_summary@ == "default"@
            &&& d.published == now
        }),
{
    text::lemma_hex_roundtrip(n.node_id@);
    text::lemma_hex_roundtrip(n.keypair.public@);
    if n.signing_key is Some {
        text::lemma_hex_roundtrip(crypto::ed25519_public_of(n.signing_key->0@));
    }
}

/// Gossip goes to every peer but the one it came from.
pub proof fn law_gossip_goes_to_the_others(n: PhiNode, src: &[u8; 32], r: Vec<[u8; 32]>, linked: Vec<[u8; 32]>, id: [u8; 32])
    requires
        call_ensures(PhiNode::gossip_targets, (&n, src), r),
        call_ensures(PhiNode::linked, (&n,), linked),
    ensures
        r@.contains(id) <==> linked@.contains(id) && id@ != src@,
{
    broadcast use vstd::seq_lib::group_filter_ensures;

    let s = peers::ids_of(n.peers.list());
    let keep = |x: [u8; 32]| x@ != src@;
    if r@.contains(id) {
        lemma_others_from(s, keep, choose|i: int| 0 <= i < r@.len() && r@[i] == id);
    }
    if s.contains(id) && id@ != src@ {
        let i = choose|i: int| 0 <= i < s.len() && s[i] == id;
        assert(keep(s[i]));
    }
}

/// A relay that comes with another key than the one it was first known by is not believed:
/// nothing is taken over, and nothing passed on.
pub proof fn law_changed_keys_are_not_believed(
    n: PhiNode,
    after: PhiNode,
    src: &[u8; 32],
    d: RelayDescriptor,
    now: u64,
    r: Vec<[u8; 32]>,
)
    requires
        d.node_id_hex@ == text::hex_of(src@),
        n.pinned_keys@.contains_key(src@),
        n.pinned_keys@[src@]@ != d.signing_pub_hex@,
        exists|x: &mut PhiNode|
            *x == n && *final(x) == after && #[trigger] call_ensures(PhiNode::on_relay_desc, (x, src, d, now), r),
    ensures
        r@.len() == 0,
        after.pinned_keys@ == n.pinned_keys@,
        after.descriptors@ == n.descriptors@,
{
}

} // verus!
