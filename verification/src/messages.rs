//! What a node does with messages that are not on a circuit, and with those that it
//! keeps for others.

use crate::bytes::{append, read_le32};
use crate::cells::CELL_LEN;
use crate::circuit::CircuitCellMsg;
use crate::clock;
use crate::crypto;
use crate::crypto::sha256;
use crate::dht::PeerInfo;
use crate::errors;
use crate::errors::Error;
use crate::node::PhiNode;
use crate::onion;
use crate::onion::peel;
use crate::peers;
use crate::peers::PeerConn;
use crate::queues;
use crate::registry;
use crate::replay;
use crate::rotation;
use crate::rotation::parse_id;
use crate::text;
use crate::text::{hex_encode, join2, str_eq};
use vstd::prelude::*;
use vstd::string::*;

verus! {

/// What to do with an onion cell.
#[derive(Debug)]
pub enum OnionStep {
    /// Send this cell, in hexadecimal, to this peer.
    Forward([u8; 32], String),
    /// Take what it carries.
    Deliver(Vec<u8>),
    /// Nothing.
    Discard,
}

/// Where the first peer at the address stands in the list, its length when there is
/// none.
pub open spec fn peer_at(l: Seq<([u8; 32], PeerConn)>, host: Seq<char>, port: u16) -> int
    decreases l.len(),
{
    if l.len() == 0 {
        0
    } else if l[0].1.info.host@ == host && l[0].1.info.port == port {
        0
    } else {
        1 + peer_at(l.skip(1), host, port)
    }
}

/// `r` is what to do with an onion cell out of which `p` was peeled.
pub open spec fn onion_does(
    r: OnionStep,
    p: Result<(Option<Seq<char>>, Option<u16>, Seq<u8>), Option<Seq<char>>>,
    l: Seq<([u8; 32], PeerConn)>,
) -> bool {
    match p {
        Ok((Some(host), Some(port), inner)) => {
            let k = peer_at(l, host, port);
            if k < l.len() {
                r matches OnionStep::Forward(id, cell) && id == l[k].0 && cell@ == text::hex_of(inner)
            } else {
                r is Discard
            }
        },
        Ok((None, _, data)) => r matches OnionStep::Deliver(d) && d@ == data,
        _ => r is Discard,
    }
}

impl PhiNode {
    fn find_peer_at(&self, host: &str, port: u16) -> (r: usize)
        requires
            self.wf(),
        ensures
            r == peer_at(self.peers.list(), host@, port),
            r <= self.peers.list().len(),
    {
        let mut i: usize = 0;
        let ghost l = self.peers.list();
        assert(l.skip(0) =~= l);
        while i < self.peers.len()
            invariant
                l == self.peers.list(),
                i <= l.len(),
                peer_at(l, host@, port) == i + peer_at(l.skip(i as int), host@, port),
            decreases l.len() - i,
        {
            assert(l.skip(i as int)[0] == l[i as int]);
            assert(l.skip(i as int).skip(1) =~= l.skip(i + 1));
            let c: &PeerConn = self.peers.value(i);
            if c.info.port == port && str_eq(c.info.host.as_str(), host) {
                return i;
            }
            i += 1;
        }
        i
    }

    /// What to do with an onion cell: peel this node's layer off, and pass the rest on to
    /// the next hop if it is linked, or take what the cell carries if this is the last.
    pub fn handle_onion(&self, cell: &str) -> (r: OnionStep)
        requires
            self.wf(),
            cell@.len() <= crypto::cipher_limit(),
        ensures
            if text::is_hex(cell@) {
                onion_does(
                    r,
                    onion::peeled(
                        text::unhex(cell@),
                        self.keypair.secret@,
                        onion::layer_aad(self.host@, self.port),
                    ),
                    self.peers.list(),
                )
            } else {
                r is Discard
            },
            forall|next: Option<(Seq<char>, u16)>, data: Seq<u8>|
                text::is_hex(cell@) && #[trigger] onion::is_layer(
                    crypto::x25519_public_of(self.keypair.secret@),
                    onion::layer_aad(self.host@, self.port),
                    next,
                    data,
                    text::unhex(cell@),
                ) ==> match next {
                    None => r matches OnionStep::Deliver(d) && d@ == data,
                    Some((host, port)) => {
                        let k = peer_at(self.peers.list(), host, port);
                        if k < self.peers.list().len() {
                            r matches OnionStep::Forward(id, c) && id == self.peers.list()[k].0 && text::unhex(c@)
                                == data
                        } else {
                            r is Discard
                        }
                    },
                },
    {
        match peel(cell, &self.keypair.secret, self.host.as_str(), self.port) {
            Ok((Some(host), Some(port), inner)) => {
                let k: usize = self.find_peer_at(host.as_str(), port);
                proof {
                    text::lemma_hex_roundtrip(inner@);
                }
                if k < self.peers.len() {
                    OnionStep::Forward(*self.peers.id(k), hex_encode(&inner))
                } else {
                    OnionStep::Discard
                }
            },
            Ok((None, _, data)) => OnionStep::Deliver(data),
            _ => OnionStep::Discard,
        }
    }

    /// Queues a cell for a peer. The circuit that it belongs to stands in its first four
    /// bytes, least significant first.
    pub fn send_circuit_cell(&mut self, peer_id: &[u8; 32], cell: &[u8]) -> (r: Result<(), Error>)
        requires
            old(self).wf(),
            cell@.len() == CELL_LEN,
        ensures
            final(self).wf(),
            *final(self) == (PhiNode { peers: final(self).peers, ..*old(self) }),
            if old(self).peers@.contains_key(peer_id@) {
                &&& r is Ok
                &&& cell_queued(
                    old(self).peers@[peer_id@],
                    final(self).peers@[peer_id@],
                    cell@,
                )
                &&& final(self).peers@ == old(self).peers@.insert(
                    peer_id@,
                    final(self).peers@[peer_id@],
                )
            } else {
                &&& errors::is_handshake(r, "peer not connected"@)
                &&& final(self).peers@ == old(self).peers@
            },
    {
        let ghost before = self.peers@;
        match self.peers.remove(peer_id) {
            Some(mut c) => {
                let ghost c0 = c;
                let cid: u32 = read_le32(cell, 0);
                let msg: CircuitCellMsg = CircuitCellMsg { data: hex_encode(cell) };
                let ghost m0 = msg;
                c.send_circuit_msg(cid, msg);
                let ghost c1 = c;
                assert(queues::pushed(c0.queues@, cell_circuit(cell@), m0) == c1.queues@);
                assert(cell_queued(c0, c1, cell@));
                self.peers.put(peer_id, c);
                assert(self.peers@ =~= before.insert(peer_id@, c1));
                Ok(())
            },
            None => {
                assert(self.peers@ =~= before);
                Err(Error::Handshake("peer not connected".to_owned()))
            },
        }
    }
}

/// The circuit that a cell belongs to.
pub open spec fn cell_circuit(cell: Seq<u8>) -> u32 {
    (cell[0] + cell[1] * 256 + cell[2] * 65536 + cell[3] * 16777216) as u32
}

/// `after` is the link `before` with the cell at the end of its circuit's queue.
pub open spec fn cell_queued(before: PeerConn, after: PeerConn, cell: Seq<u8>) -> bool {
    &&& after == (PeerConn { queues: after.queues, ..before })
    &&& exists|m: CircuitCellMsg|
        m.data@ == text::hex_of(cell) && after.queues@ == #[trigger] queues::pushed(
            before.queues@,
            cell_circuit(cell),
            m,
        )
}

impl PhiNode {
    /// Whether a value to be stored is new; it is remembered by its key.
    pub fn on_dht_store(&mut self, key: &[u8]) -> (r: bool)
        requires
            old(self).wf(),
        ensures
            final(self).wf(),
            *final(self) == (PhiNode { replay_cache: final(self).replay_cache, ..*old(self) }),
            final(self).replay_cache.ttl() == old(self).replay_cache.ttl(),
            exists|now: u64| clock::is_now(now) && #[trigger]
                replay::marked(
                    old(self).replay_cache@,
                    "dht:"@ + text::hex_of(key@),
                    old(self).replay_cache.ttl(),
                    now,
                    final(self).replay_cache@,
                    r,
                ),
    {
        let k: String = hex_encode(key);
        let id: String = join2("dht:", k.as_str());
        self.replay_cache.mark(id.as_str())
    }

    /// Whether a service's descriptor is to be stored: its signature holds, and it is new.
    pub fn on_hs_register(&mut self, hs_id: &str, signed: bool) -> (r: bool)
        requires
            old(self).wf(),
        ensures
            final(self).wf(),
            *final(self) == (PhiNode { replay_cache: final(self).replay_cache, ..*old(self) }),
            final(self).replay_cache.ttl() == old(self).replay_cache.ttl(),
            if signed {
                exists|now: u64| clock::is_now(now) && #[trigger]
                    replay::marked(
                        old(self).replay_cache@,
                        "hs:"@ + hs_id@,
                        old(self).replay_cache.ttl(),
                        now,
                        final(self).replay_cache@,
                        r,
                    )
            } else {
                !r && final(self).replay_cache == old(self).replay_cache
            },
    {
        if !signed {
            return false;
        }
        let id: String = join2("hs:", hs_id);
        self.replay_cache.mark(id.as_str())
    }
}

/// A peer as another node tells of it.
#[derive(Debug, Clone)]
pub struct DhtPeerInfo {
    /// Its identifier, in hexadecimal.
    pub node_id: String,
    /// Where it is.
    pub host: String,
    /// Its port.
    pub port: u16,
    /// The certificate that it presented.
    pub cert: String,
    /// Its static key, in hexadecimal.
    pub static_pub: String,
}

/// `p` is the peer that `d` tells of.
pub open spec fn is_told(p: PeerInfo, d: DhtPeerInfo) -> bool {
    Some(p.node_id@) == rotation::id_in(d.node_id@) && p.host@ == d.host@ && p.port == d.port && p.cert@
        == d.cert@ && p.static_pub@ == d.static_pub@
}

/// The peers with an identifier among those that another node tells of.
pub open spec fn told(v: Seq<DhtPeerInfo>) -> Seq<DhtPeerInfo> {
    v.filter(|d: DhtPeerInfo| rotation::id_in(d.node_id@) is Some)
}

/// The target of a search: the identifier that it gives, zero when it gives none.
pub fn dht_target(target: &str) -> (r: [u8; 32])
    ensures
        match rotation::id_in(target@) {
            Some(b) => r@ == b,
            None => forall|i: int| 0 <= i < 32 ==> r@[i] == 0,
        },
{
    match parse_id(target) {
        Some(b) => b,
        None => [0u8; 32],
    }
}

/// The peers that another node tells of; those without a readable identifier are left
/// out.
pub fn dht_found(nodes: Vec<DhtPeerInfo>) -> (r: Vec<PeerInfo>)
    ensures
        r@.len() == told(nodes@).len(),
        forall|i: int| 0 <= i < r@.len() ==> is_told(#[trigger] r@[i], told(nodes@)[i]),
{
    let ghost f = |d: DhtPeerInfo| rotation::id_in(d.node_id@) is Some;
    let mut r: Vec<PeerInfo> = Vec::new();
    let mut i: usize = 0;
    proof {
        reveal(Seq::filter);
    }
    assert(nodes@.take(0) =~= Seq::empty());
    while i < nodes.len()
        invariant
            i <= nodes@.len(),
            f == (|d: DhtPeerInfo| rotation::id_in(d.node_id@) is Some),
            r@.len() == nodes@.take(i as int).filter(f).len(),
            forall|j: int|
                0 <= j < r@.len() ==> is_told(#[trigger] r@[j], nodes@.take(i as int).filter(f)[j]),
        decreases nodes@.len() - i,
    {
        let ghost next = nodes@.take(i + 1);
        let ghost r0 = r@;
        assert(next.drop_last() =~= nodes@.take(i as int));
        assert(next.last() == nodes@[i as int]);
        proof {
            reveal(Seq::filter);
        }
        let d: &DhtPeerInfo = &nodes[i];
        if let Some(node_id) = parse_id(d.node_id.as_str()) {
            r.push(
                PeerInfo {
                    node_id,
                    host: d.host.clone(),
                    port: d.port,
                    cert: d.cert.clone(),
                    static_pub: d.static_pub.clone(),
                },
            );
        }
        assert forall|j: int| 0 <= j < r@.len() implies is_told(
            #[trigger] r@[j],
            next.filter(f)[j],
        ) by {
            if j < r0.len() {
                assert(r@[j] == r0[j]);
            }
        }
        i += 1;
    }
    assert(nodes@.take(i as int) =~= nodes@);
    r
}

/// What to do with a sealed message that was handed over for delivery.
#[derive(Debug)]
pub enum ComStep {
    /// Open it: it is for this node.
    Open,
    /// Pass it on to these peers: it is new.
    PassOn(Vec<[u8; 32]>),
    /// Nothing: it is known.
    Drop,
}

impl PhiNode {
    /// What to do with a sealed message. `for_us` says that it is addressed to this node,
    /// `fresh` that the mailbox did not hold it yet; `src` is the peer that it came from,
    /// if it came from one.
    pub fn com_store_step(&self, for_us: bool, fresh: bool, src: Option<[u8; 32]>) -> (r: ComStep)
        requires
            self.wf(),
        ensures
            if for_us {
                r is Open
            } else if fresh {
                r matches ComStep::PassOn(v) && v@ == match src {
                    Some(s) => registry::others(peers::ids_of(self.peers.list()), s@),
                    None => peers::ids_of(self.peers.list()),
                }
            } else {
                r is Drop
            },
    {
        if for_us {
            return ComStep::Open;
        }
        if !fresh {
            return ComStep::Drop;
        }
        match src {
            Some(s) => ComStep::PassOn(self.gossip_targets(&s)),
            None => ComStep::PassOn(self.linked()),
        }
    }

    /// Makes it possible to write to a node.
    pub fn com_add_contact(&mut self, node_id: [u8; 32], static_pub: [u8; 32])
        requires
            old(self).wf(),
        ensures
            final(self).wf(),
            final(self).com_contacts@ == old(self).com_contacts@.insert(node_id@, static_pub),
            *final(self) == (PhiNode { com_contacts: final(self).com_contacts, ..*old(self) }),
    {
        self.com_contacts.put(&node_id, static_pub);
    }

    /// The key of a recipient: that of a linked peer, or of a contact. There is no other
    /// way to find one; whoever is to be written to has to have given the address.
    pub open spec fn recipient_key(self, id: Seq<u8>) -> Option<Seq<u8>> {
        if self.peers@.contains_key(id) && rotation::id_in(self.peers@[id].info.static_pub@) is Some {
            rotation::id_in(self.peers@[id].info.static_pub@)
        } else if self.com_contacts@.contains_key(id) {
            Some(self.com_contacts@[id]@)
        } else {
            None
        }
    }

    /// The key of a recipient.
    pub fn com_resolve_pub(&self, recipient_id: &[u8; 32]) -> (r: Option<[u8; 32]>)
        requires
            self.wf(),
        ensures
            match r {
                Some(k) => Some(k@) == self.recipient_key(recipient_id@),
                None => self.recipient_key(recipient_id@) is None,
            },
    {
        if let Some(c) = self.peers.get(recipient_id) {
            if let Some(k) = parse_id(c.info.static_pub.as_str()) {
                return Some(k);
            }
        }
        match self.com_contacts.get(recipient_id) {
            Some(k) => Some(*k),
            None => None,
        }
    }

    /// The key of a recipient, or the error for one that is not known.
    pub fn com_recipient(&self, recipient_id: &[u8; 32]) -> (r: Result<[u8; 32], Error>)
        requires
            self.wf(),
        ensures
            match self.recipient_key(recipient_id@) {
                Some(k) => r matches Ok(x) && x@ == k,
                None => errors::is_handshake(
                    r,
                    "com: unknown recipient (add them by address first)"@,
                ),
            },
    {
        match self.com_resolve_pub(recipient_id) {
            Some(k) => Ok(k),
            None => Err(
                Error::Handshake("com: unknown recipient (add them by address first)".to_owned()),
            ),
        }
    }

    /// The conversation that a group's messages are filed under. It is no node's
    /// identifier.
    pub fn group_thread_id(gid: &[u8; 16]) -> (r: [u8; 32])
        ensures
            r@ == crypto::sha256_of("com-group".spec_bytes() + gid@),
    {
        let mut buf: Vec<u8> = Vec::new();
        append(&mut buf, "com-group".as_bytes());
        append(&mut buf, gid);
        assert(buf@ =~= "com-group".spec_bytes() + gid@);
        sha256(&buf)
    }
}

/// What to do with a message that was opened.
#[derive(Debug, Clone, Copy, PartialEq, Eq)]
pub enum OpenedStep {
    /// Take the message with this identifier back.
    Unsend([u8; 16]),
    /// Join a group.
    Join,
    /// File it.
    Record,
}

/// What to do with a message that was opened. `unsend` is the message that it takes back,
/// if it is of that kind; `invites` says that it is an invitation to a group.
pub fn opened_step(unsend: Option<[u8; 16]>, invites: bool) -> (r: OpenedStep)
    ensures
        r == match unsend {
            Some(id) => OpenedStep::Unsend(id),
            None => if invites {
                OpenedStep::Join
            } else {
                OpenedStep::Record
            },
        },
{
    match unsend {
        Some(id) => OpenedStep::Unsend(id),
        None => if invites {
            OpenedStep::Join
        } else {
            OpenedStep::Record
        },
    }
}

/// Whether a sealed message is sent over a circuit: it fits a relay cell, whose data has
/// at most `max` bytes, and there is a path. `compact` is its length in compact form, if
/// it has one.
pub fn may_inject(compact: Option<usize>, max: usize, path_len: usize) -> (r: bool)
    ensures
        r == ((compact matches Some(n) && n <= max) && path_len > 0),
{
    match compact {
        Some(n) => n <= max && path_len > 0,
        None => false,
    }
}

/// Only nodes that are linked or were added can be written to.
pub proof fn law_only_contacts_can_be_written_to(n: PhiNode, id: Seq<u8>)
    requires
        !n.peers@.contains_key(id),
        !n.com_contacts@.contains_key(id),
    ensures
        n.recipient_key(id) is None,
{
}

/// Whoever was added can be written to.
pub proof fn law_contacts_can_be_written_to(n: PhiNode, m: PhiNode, id: Seq<u8>, key: [u8; 32])
    requires
        m.com_contacts@ == n.com_contacts@.insert(id, key),
        m == (PhiNode { com_contacts: m.com_contacts, ..n }),
    ensures
        m.recipient_key(id) is Some,
        !n.peers@.contains_key(id) ==> m.recipient_key(id) == Some(key@),
{
}

/// A message for this node is opened; another is passed on once, to every peer but the one
/// it came from, and dropped when it comes again.
pub proof fn law_messages_are_passed_on_once(n: PhiNode, for_us: bool, fresh: bool, src: [u8; 32], r: ComStep, id: [u8; 32])
    requires
        n.wf(),
        call_ensures(PhiNode::com_store_step, (&n, for_us, fresh, Some(src)), r),
    ensures
        r is Open <==> for_us,
        r is PassOn <==> !for_us && fresh,
        r is Drop <==> !for_us && !fresh,
        r is PassOn ==> (r->PassOn_0@.contains(id) <==> peers::ids_of(n.peers.list()).contains(id) && id@ != src@),
{
    broadcast use vstd::seq_lib::group_filter_ensures;

    let s = peers::ids_of(n.peers.list());
    let keep = |x: [u8; 32]| x@ != src@;
    if r is PassOn {
        if r->PassOn_0@.contains(id) {
            let i = choose|i: int| 0 <= i < r->PassOn_0@.len() && r->PassOn_0@[i] == id;
            lemma_ids_from(s, keep, i);
        }
        if s.contains(id) && id@ != src@ {
            let i = choose|i: int| 0 <= i < s.len() && s[i] == id;
            assert(keep(s[i]));
        }
    }
}

proof fn lemma_ids_from(s: Seq<[u8; 32]>, keep: spec_fn([u8; 32]) -> bool, i: int)
    requires
        0 <= i < s.filter(keep).len(),
    ensures
        s.contains(s.filter(keep)[i]),
        keep(s.filter(keep)[i]),
    decreases s.len(),
{
    reveal(Seq::filter);
    if s.len() > 0 {
        let t = s.drop_last();
        if i < t.filter(keep).len() {
            lemma_ids_from(t, keep, i);
            let j = choose|j: int| 0 <= j < t.len() && t[j] == t.filter(keep)[i];
            assert(s[j] == s.filter(keep)[i]);
        } else {
            assert(s[s.len() - 1] == s.filter(keep)[i]);
        }
    }
}

/// A value is stored, and a service registered, once for the time to live of the cache; a
/// registration that is not signed is never taken, and leaves no trace.
pub proof fn law_values_are_stored_once(
    n: PhiNode,
    one: PhiNode,
    two: PhiNode,
    key: &[u8],
    second: bool,
    hs_id: &str,
    unsigned: PhiNode,
    taken: bool,
)
    requires
        exists|x: &mut PhiNode|
            *x == n && *final(x) == one && #[trigger] call_ensures(PhiNode::on_dht_store, (x, key), true),
        exists|x: &mut PhiNode|
            *x == one && *final(x) == two && #[trigger] call_ensures(PhiNode::on_dht_store, (x, key), second),
        exists|x: &mut PhiNode|
            *x == n && *final(x) == unsigned && #[trigger] call_ensures(
                PhiNode::on_hs_register,
                (x, hs_id, false),
                taken,
            ),
    ensures
        exists|t1: u64, t2: u64|
            {
                &&& #[trigger] clock::is_now(t1)
                &&& #[trigger] clock::is_now(t2)
                &&& t1 + n.replay_cache.ttl() <= u64::MAX ==> (second <==> t2 >= t1 + n.replay_cache.ttl())
            },
        !taken,
        unsigned == n,
{
    let id = "dht:"@ + text::hex_of(key@);
    let t1 = choose|t: u64| clock::is_now(t) && #[trigger]
        replay::marked(n.replay_cache@, id, n.replay_cache.ttl(), t, one.replay_cache@, true);
    let t2 = choose|t: u64| clock::is_now(t) && #[trigger]
        replay::marked(one.replay_cache@, id, one.replay_cache.ttl(), t, two.replay_cache@, second);
    assert(clock::is_now(t1) && clock::is_now(t2));
}

/// The same of the registrations of a service that are signed.
pub proof fn law_services_register_once(n: PhiNode, one: PhiNode, two: PhiNode, hs_id: &str, second: bool)
    requires
        exists|x: &mut PhiNode|
            *x == n && *final(x) == one && #[trigger] call_ensures(PhiNode::on_hs_register, (x, hs_id, true), true),
        exists|x: &mut PhiNode|
            *x == one && *final(x) == two && #[trigger] call_ensures(
                PhiNode::on_hs_register,
                (x, hs_id, true),
                second,
            ),
    ensures
        exists|t1: u64, t2: u64|
            {
                &&& #[trigger] clock::is_now(t1)
                &&& #[trigger] clock::is_now(t2)
                &&& t1 + n.replay_cache.ttl() <= u64::MAX ==> (second <==> t2 >= t1 + n.replay_cache.ttl())
            },
{
    let id = "hs:"@ + hs_id@;
    let t1 = choose|t: u64| clock::is_now(t) && #[trigger]
        replay::marked(n.replay_cache@, id, n.replay_cache.ttl(), t, one.replay_cache@, true);
    let t2 = choose|t: u64| clock::is_now(t) && #[trigger]
        replay::marked(one.replay_cache@, id, one.replay_cache.ttl(), t, two.replay_cache@, second);
    assert(clock::is_now(t1) && clock::is_now(t2));
}

/// A contact that was added can be written to with the key it was added with, unless it is
/// linked with a key of its own, which then counts.
pub proof fn law_recipients_are_resolved(
    n: PhiNode,
    after: PhiNode,
    id: [u8; 32],
    key: [u8; 32],
    found: Option<[u8; 32]>,
    r: Result<[u8; 32], Error>,
)
    requires
        exists|x: &mut PhiNode|
            *x == n && *final(x) == after && #[trigger] call_ensures(PhiNode::com_add_contact, (x, id, key), ()),
        call_ensures(PhiNode::com_resolve_pub, (&after, &id), found),
        call_ensures(PhiNode::com_recipient, (&after, &id), r),
    ensures
        found is Some && r is Ok && found->0@ == r->Ok_0@,
        !n.peers@.contains_key(id@) ==> found->0@ == key@,
        n.peers@.contains_key(id@) && rotation::id_in(n.peers@[id@].info.static_pub@) is None ==> found->0@ == key@,
        n.peers@.contains_key(id@) && rotation::id_in(n.peers@[id@].info.static_pub@) is Some ==> text::hex_of(
            found->0@,
        ) == text::lowered(n.peers@[id@].info.static_pub@),
        after.peers == n.peers,
{
    if n.peers@.contains_key(id@) && rotation::id_in(n.peers@[id@].info.static_pub@) is Some {
        text::lemma_unhex_lowered(n.peers@[id@].info.static_pub@);
    }
}

/// An opened message that takes another back does that; of the others an invitation is
/// joined, and every other message recorded.
pub proof fn law_opened_messages_are_acted_on(unsend: Option<[u8; 16]>, invites: bool, r: OpenedStep)
    requires
        call_ensures(opened_step, (unsend, invites), r),
    ensures
        unsend is Some ==> r == OpenedStep::Unsend(unsend->0),
        r is Unsend ==> unsend is Some,
        r is Join <==> unsend is None && invites,
        r is Record <==> unsend is None && !invites,
{
}

/// A message goes over a circuit exactly where it is short enough and there is one.
pub proof fn law_when_a_message_is_injected(len: usize, max: usize, path_len: usize, r: bool, none: bool)
    requires
        call_ensures(may_inject, (Some(len), max, path_len), r),
        call_ensures(may_inject, (None, max, path_len), none),
    ensures
        r <==> len <= max && path_len > 0,
        !none,
{
}

/// The groups' threads are told apart from each other by the group alone.
pub proof fn law_a_group_has_one_thread(a: &[u8; 16], b: &[u8; 16], x: [u8; 32], y: [u8; 32])
    requires
        call_ensures(PhiNode::group_thread_id, (a,), x),
        call_ensures(PhiNode::group_thread_id, (b,), y),
    ensures
        a@ == b@ ==> x@ == y@,
        x@ == crypto::sha256_of("com-group".spec_bytes() + a@),
{
}

/// Every node that was told of and can be read is learned.
pub proof fn law_readable_nodes_are_learned(nodes: Vec<DhtPeerInfo>, r: Vec<PeerInfo>, k: int)
    requires
        call_ensures(dht_found, (nodes,), r),
        0 <= k < nodes@.len(),
        rotation::id_in(nodes@[k].node_id@) is Some,
    ensures
        exists|i: int|
            0 <= i < r@.len() && (#[trigger] r@[i]).node_id@ == rotation::id_in(nodes@[k].node_id@)->0 && r@[i].host@
                == nodes@[k].host@ && r@[i].port == nodes@[k].port,
{
    broadcast use vstd::seq_lib::group_filter_ensures;

    let keep = |d: DhtPeerInfo| rotation::id_in(d.node_id@) is Some;
    let f = told(nodes@);
    assert(keep(nodes@[k]));
    assert(f.contains(nodes@[k]));
    let i = choose|i: int| 0 <= i < f.len() && f[i] == nodes@[k];
    assert(is_told(r@[i], f[i]));
}

/// What is learned of nodes is what was told of them.
pub proof fn law_told_nodes_are_learned(nodes: Vec<DhtPeerInfo>, r: Vec<PeerInfo>, i: int)
    requires
        call_ensures(dht_found, (nodes,), r),
        0 <= i < r@.len(),
    ensures
        r@.len() <= nodes@.len(),
        exists|k: int|
            0 <= k < nodes@.len() && text::lowered((#[trigger] nodes@[k]).node_id@) == text::hex_of(r@[i].node_id@)
                && nodes@[k].host@ == r@[i].host@ && nodes@[k].port == r@[i].port && nodes@[k].static_pub@
                == r@[i].static_pub@ && nodes@[k].cert@ == r@[i].cert@,
{
    broadcast use vstd::seq_lib::group_filter_ensures;

    let keep = |d: DhtPeerInfo| rotation::id_in(d.node_id@) is Some;
    let f = told(nodes@);
    assert(is_told(r@[i], f[i]));
    lemma_told_from(nodes@, keep, i);
    let k = choose|k: int| 0 <= k < nodes@.len() && nodes@[k] == f[i];
    text::lemma_unhex_lowered(nodes@[k].node_id@);
    assert(text::lowered(nodes@[k].node_id@) == text::hex_of(r@[i].node_id@));
}

proof fn lemma_told_from(s: Seq<DhtPeerInfo>, keep: spec_fn(DhtPeerInfo) -> bool, i: int)
    requires
        0 <= i < s.filter(keep).len(),
    ensures
        s.contains(s.filter(keep)[i]),
        keep(s.filter(keep)[i]),
    decreases s.len(),
{
    reveal(Seq::filter);
    if s.len() > 0 {
        let t = s.drop_last();
        if i < t.filter(keep).len() {
            lemma_told_from(t, keep, i);
            let j = choose|j: int| 0 <= j < t.len() && t[j] == t.filter(keep)[i];
            assert(s[j] == s.filter(keep)[i]);
        } else {
            assert(s[s.len() - 1] == s.filter(keep)[i]);
        }
    }
}

/// What is asked for is the identifier that the text spells, and the zero one for any other
/// text.
pub proof fn law_lookups_ask_for_the_identifier(id: &[u8; 32], s: &str, r: [u8; 32], bad: &str, zero: [u8; 32])
    requires
        s@ == text::hex_of(id@),
        call_ensures(dht_target, (s,), r),
        bad@.len() != 64,
        call_ensures(dht_target, (bad,), zero),
    ensures
        r@ == id@,
        forall|i: int| 0 <= i < 32 ==> zero@[i] == 0,
{
    text::lemma_hex_roundtrip(id@);
}

/// A cell for a peer goes into the queue of its circuit there, whole, and to no other peer.
pub proof fn law_cells_are_queued_whole(
    n: PhiNode,
    after: PhiNode,
    peer: &[u8; 32],
    cell: &[u8],
    r: Result<(), Error>,
    other: Seq<u8>,
)
    requires
        n.wf(),
        other != peer@,
        cell@.len() == CELL_LEN,
        exists|x: &mut PhiNode|
            *x == n && *final(x) == after && #[trigger] call_ensures(PhiNode::send_circuit_cell, (x, peer, cell), r),
    ensures
        r is Ok <==> n.peers@.contains_key(peer@),
        r is Ok ==> ({
            let cid = (cell@[0] + cell@[1] * 0x100 + cell@[2] * 0x1_0000 + cell@[3] * 0x100_0000) as u32;
            let q = after.peers@[peer@].queues@;
            &&& q.contains_key(cid)
            &&& q[cid].len() > 0
            &&& text::unhex(q[cid].last().data@) == cell@
        }),
        after.peers@.contains_key(other) == n.peers@.contains_key(other),
        n.peers@.contains_key(other) ==> after.peers@[other] == n.peers@[other],
        r is Err ==> after.peers@ == n.peers@,
{
    if r is Ok {
        text::lemma_hex_roundtrip(cell@);
    }
}

/// An onion is passed on to the peer whose address it names, and to no other; the payload
/// of one that ends here is delivered as it was sent.
pub proof fn law_onions_go_where_they_say(
    n: PhiNode,
    cell: &str,
    next: Option<(Seq<char>, u16)>,
    data: Seq<u8>,
    r: OnionStep,
)
    requires
        n.wf(),
        text::is_hex(cell@),
        onion::is_layer(
            crypto::x25519_public_of(n.keypair.secret@),
            onion::layer_aad(n.host@, n.port),
            next,
            data,
            text::unhex(cell@),
        ),
        call_ensures(PhiNode::handle_onion, (&n, cell), r),
    ensures
        next is None ==> (r matches OnionStep::Deliver(d) && d@ == data),
        r is Deliver ==> next is None,
        next is Some ==> (r matches OnionStep::Forward(id, c) ==> text::unhex(c@) == data && exists|i: int|
            0 <= i < n.peers.list().len() && (#[trigger] n.peers.list()[i]).0 == id && n.peers.list()[i].1.info.host@
                == (next->0).0 && n.peers.list()[i].1.info.port == (next->0).1),
        next is Some && (exists|i: int|
            0 <= i < n.peers.list().len() && (#[trigger] n.peers.list()[i]).1.info.host@ == (next->0).0
                && n.peers.list()[i].1.info.port == (next->0).1) ==> r is Forward,
{
    if let Some((host, port)) = next {
        lemma_peer_at(n.peers.list(), host, port);
        let k = peer_at(n.peers.list(), host, port);
        if k < n.peers.list().len() {
            assert(n.peers.list()[k].1.info.host@ == host);
        }
    }
}

proof fn lemma_peer_at(l: Seq<([u8; 32], PeerConn)>, host: Seq<char>, port: u16)
    ensures
        0 <= peer_at(l, host, port) <= l.len(),
        peer_at(l, host, port) < l.len() ==> l[peer_at(l, host, port)].1.info.host@ == host && l[peer_at(
            l,
            host,
            port,
        )].1.info.port == port,
        forall|i: int|
            0 <= i < peer_at(l, host, port) ==> !((#[trigger] l[i]).1.info.host@ == host && l[i].1.info.port == port),
    decreases l.len(),
{
    if l.len() > 0 && !(l[0].1.info.host@ == host && l[0].1.info.port == port) {
        lemma_peer_at(l.skip(1), host, port);
        assert forall|i: int| 0 <= i < peer_at(l, host, port) implies !((#[trigger] l[i]).1.info.host@ == host
            && l[i].1.info.port == port) by {
            if i > 0 {
                assert(l.skip(1)[i - 1] == l[i]);
            }
        }
    }
}

} // verus!
