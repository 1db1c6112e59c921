//! The state of a node, and what it decides from it.
//!
//! A node keeps its links, the keys that it has pinned to other nodes, the
//! descriptors that it has verified, and the handshakes with hidden services that are
//! under way. What it sends and receives goes through the network layer, which calls
//! these methods and carries their decisions out.

use crate::cert::PhiCert;
use crate::crypto;
use crate::crypto::{random_32, x25519_public};
use crate::dht::PeerInfo;
use crate::errors::Error;
use crate::ids;
use crate::ids::IdMap;
use crate::names::NameMap;
use crate::path_bias;
use crate::path_bias::{GuardStats, PathBias};
use crate::peers;
use crate::peers::{PeerConn, linked_ids};
use crate::pow;
use crate::pow::{AdmissionPoW, solve_admission};
use crate::relay_desc::RelayDescriptor;
use crate::rendezvous::E2EKeys;
use crate::replay::ReplayCache;
use crate::text;
use crate::text::{decimal_string, hex_encode, join3, str_eq};
use crate::vanguards::Vanguards;
use vstd::prelude::*;
use vstd::string::*;

verus! {

/// How many introductions may wait for their rendezvous.
pub const MAX_PENDING_RENDEZVOUS: usize = 64;

/// For how many seconds a message that was seen is remembered.
pub const REPLAY_TTL_SECS: u64 = 86_400;

/// A long-lived key pair.
pub struct StaticKeypair {
    /// The secret half.
    pub secret: [u8; 32],
    /// The public half.
    pub public: [u8; 32],
}

impl StaticKeypair {
    /// The public half belongs to the secret half.
    pub open spec fn wf(self) -> bool {
        self.public@ == crypto::x25519_public_of(self.secret@)
    }

    /// A fresh key pair.
    pub fn generate() -> (r: Self)
        ensures
            r.wf(),
            crypto::is_random(r.secret@),
    {
        StaticKeypair::from_secret(random_32())
    }

    /// The key pair of a secret that was kept.
    pub fn from_secret(secret: [u8; 32]) -> (r: Self)
        ensures
            r.wf(),
            r.secret == secret,
    {
        StaticKeypair { secret, public: x25519_public(&secret) }
    }

    /// The public half.
    pub fn public_bytes(&self) -> (r: [u8; 32])
        ensures
            r == self.public,
    {
        self.public
    }
}

/// What a service has to do to meet a client that was introduced to it.
pub struct HsRendezvousIntent {
    /// The rendezvous point.
    pub rp_node_id: [u8; 32],
    /// Where it is.
    pub rp_host: String,
    /// Its port.
    pub rp_port: u16,
    /// The client's cookie.
    pub cookie: [u8; 20],
    /// The service's half of the handshake.
    pub server_y: [u8; 32],
    /// The tag that authenticates it.
    pub auth: [u8; 32],
    /// The keys that the client will share.
    pub e2e_keys: E2EKeys,
}

/// A client's wait for a service at a rendezvous point.
pub struct PendingRendezvous {
    /// The cookie.
    pub cookie: [u8; 20],
    /// The circuit to the rendezvous point.
    pub cid: u32,
    /// The client's ephemeral secret.
    pub client_sk: [u8; 32],
    /// The public half of it.
    pub client_x: [u8; 32],
    /// The service's key.
    pub hs_static_pub: [u8; 32],
}

/// A node.
pub struct PhiNode {
    /// The address to listen on.
    pub host: String,
    /// The port to listen on.
    pub port: u16,
    /// The node's certificate.
    pub cert: PhiCert,
    /// The identifier that comes from the certificate.
    pub node_id: [u8; 32],
    /// The node's static keys.
    pub keypair: StaticKeypair,
    /// The proof of work of the certificate.
    pub pow: AdmissionPoW,
    /// The linked peers.
    pub peers: IdMap<PeerConn>,
    /// The operator's label; empty when unaffiliated.
    pub family: String,
    /// How circuits through each guard fared.
    pub path_bias: PathBias,
    /// The key that signs the node's descriptor.
    pub signing_key: Option<[u8; 32]>,
    /// The signing keys of other nodes, learned over authenticated links.
    pub pinned_keys: IdMap<String>,
    /// Verified descriptors, by identifier in hexadecimal.
    pub descriptors: NameMap<RelayDescriptor>,
    /// The second hops of circuits to and from hidden services.
    pub vanguards: Vanguards,
    /// Introductions that wait for their rendezvous, oldest first.
    pub hs_pending_rendezvous: Vec<HsRendezvousIntent>,
    /// Rendezvous points where this node waits for a service.
    pub pending_rendezvous: Vec<PendingRendezvous>,
    /// Counts the node's own new certificates.
    pub rotation_seq: u64,
    /// The last announcement that was taken from each node.
    pub seen_rotation_seqs: IdMap<u64>,
    /// Messages that were seen.
    pub replay_cache: ReplayCache,
    /// The static keys of those whom this node can write to.
    pub com_contacts: IdMap<[u8; 32]>,
    /// The node does not listen.
    pub client_only: bool,
    /// The node is stopping.
    pub shutdown_flag: bool,
}

impl PhiNode {
    /// The node's tables are sound: every peer is filed under its identifier, and the
    /// keys fit together.
    pub open spec fn wf(self) -> bool {
        &&& self.keypair.wf()
        &&& self.peers.wf() && peers::peers_sound(self.peers@)
        &&& self.path_bias.wf()
        &&& self.pinned_keys.wf()
        &&& self.descriptors.wf()
        &&& self.seen_rotation_seqs.wf()
        &&& self.replay_cache.wf()
        &&& self.com_contacts.wf()
        &&& self.hs_pending_rendezvous@.len() <= MAX_PENDING_RENDEZVOUS
    }

    /// A node with a fresh key pair.
    pub fn new(host: &str, port: u16, cert: PhiCert, node_id: [u8; 32]) -> (r: Result<Self, Error>)
        ensures
            r is Ok == (pow::cert_bytes(cert).len() <= 0xffff_ffff),
            r matches Ok(n) ==> n.wf() && n.is_new(host@, port, cert, node_id),
            r matches Ok(n) ==> crypto::is_random(n.keypair.secret@),
            r matches Err(e) ==> e is PowFailed,
    {
        PhiNode::new_with_keypair(host, port, cert, node_id, StaticKeypair::generate())
    }

    /// The node has been made for the address and the certificate, and has done
    /// nothing yet.
    pub open spec fn is_new(self, host: Seq<char>, port: u16, cert: PhiCert, node_id: [u8; 32]) -> bool {
        &&& self.host@ == host
        &&& self.port == port
        &&& self.cert == cert
        &&& self.node_id == node_id
        &&& pow::admits(cert, self.pow)
        &&& self.peers@ == Map::<Seq<u8>, PeerConn>::empty()
        &&& self.family@.len() == 0
        &&& self.path_bias@ == Map::<Seq<char>, GuardStats>::empty()
        &&& self.signing_key is None
        &&& self.pinned_keys@ == Map::<Seq<u8>, String>::empty()
        &&& self.descriptors@ == Map::<Seq<char>, RelayDescriptor>::empty()
        &&& self.vanguards.entries@.len() == 0
        &&& self.hs_pending_rendezvous@.len() == 0
        &&& self.pending_rendezvous@.len() == 0
        &&& self.rotation_seq == 0
        &&& self.seen_rotation_seqs@ == Map::<Seq<u8>, u64>::empty()
        &&& self.replay_cache@ == Map::<Seq<char>, u64>::empty()
        &&& self.replay_cache.ttl() == REPLAY_TTL_SECS
        &&& self.com_contacts@ == Map::<Seq<u8>, [u8; 32]>::empty()
        &&& !self.client_only
        &&& !self.shutdown_flag
    }

    /// A node with a key pair that was kept. A relay has to keep its key: the
    /// consensus publishes it, and circuits through a relay with another one fail.
    pub fn new_with_keypair(
        host: &str,
        port: u16,
        cert: PhiCert,
        node_id: [u8; 32],
        keypair: StaticKeypair,
    ) -> (r: Result<Self, Error>)
        requires
            keypair.wf(),
        ensures
            r is Ok == (pow::cert_bytes(cert).len() <= 0xffff_ffff),
            r matches Ok(n) ==> n.wf() && n.is_new(host@, port, cert, node_id) && n.keypair == keypair,
            r matches Err(e) ==> e is PowFailed,
    {
        let pow: AdmissionPoW = match solve_admission(&cert) {
            Ok(p) => p,
            Err(e) => return Err(e),
        };
        let n: PhiNode = PhiNode {
            host: host.to_owned(),
            port,
            cert,
            node_id,
            keypair,
            pow,
            peers: IdMap::new(),
            family: String::new(),
            path_bias: PathBias::new(),
            signing_key: None,
            pinned_keys: IdMap::new(),
            descriptors: NameMap::new(),
            vanguards: Vanguards::new_test(),
            hs_pending_rendezvous: Vec::new(),
            pending_rendezvous: Vec::new(),
            rotation_seq: 0,
            seen_rotation_seqs: IdMap::new(),
            replay_cache: ReplayCache::new_test(REPLAY_TTL_SECS),
            com_contacts: IdMap::new(),
            client_only: false,
            shutdown_flag: false,
        };
        Ok(n)
    }

    /// The node's identifier.
    pub fn node_id(&self) -> (r: [u8; 32])
        ensures
            r == self.node_id,
    {
        self.node_id
    }

    /// The node's identifier, in hexadecimal.
    pub fn node_id_hex(&self) -> (r: String)
        ensures
            r@ == text::hex_of(self.node_id@),
    {
        hex_encode(&self.node_id)
    }

    /// The node's static public key.
    pub fn static_pub(&self) -> (r: [u8; 32])
        ensures
            r == self.keypair.public,
    {
        self.keypair.public_bytes()
    }

    /// How many introductions wait for their rendezvous.
    pub fn hs_rendezvous_pending_len(&self) -> (r: usize)
        ensures
            r == self.hs_pending_rendezvous@.len(),
    {
        self.hs_pending_rendezvous.len()
    }

    /// Tells every loop to stop.
    pub fn shutdown(&mut self)
        ensures
            *final(self) == (PhiNode { shutdown_flag: true, ..*old(self) }),
    {
        self.shutdown_flag = true;
    }

    /// Whether the node is stopping.
    pub fn is_shutting_down(&self) -> (r: bool)
        ensures
            r == self.shutdown_flag,
    {
        self.shutdown_flag
    }

    /// Declares the operator's label.
    pub fn set_family(&mut self, f: String)
        ensures
            *final(self) == (PhiNode { family: f, ..*old(self) }),
    {
        self.family = f;
    }

    /// The operator's label.
    pub fn family(&self) -> (r: String)
        ensures
            r@ == self.family@,
    {
        self.family.clone()
    }

    /// Gives the node the key that signs its descriptor.
    pub fn set_signing_key(&mut self, k: [u8; 32])
        ensures
            *final(self) == (PhiNode { signing_key: Some(k), ..*old(self) }),
    {
        self.signing_key = Some(k);
    }

    /// The identifiers of the linked peers.
    pub fn linked(&self) -> (r: Vec<[u8; 32]>)
        requires
            self.wf(),
        ensures
            r@ == peers::ids_of(self.peers.list()),
    {
        linked_ids(&self.peers)
    }

    /// What is known of the linked peers.
    pub fn peers_snapshot(&self) -> (r: Vec<PeerInfo>)
        requires
            self.wf(),
        ensures
            r@ == infos_of(self.peers.list()),
    {
        let mut r: Vec<PeerInfo> = Vec::new();
        let mut i: usize = 0;
        while i < self.peers.len()
            invariant
                i <= self.peers.list().len(),
                r@ =~= infos_of(self.peers.list().take(i as int)),
            decreases self.peers.list().len() - i,
        {
            r.push(self.peers.value(i).info.duplicate());
            i += 1;
        }
        assert(self.peers.list().take(i as int) =~= self.peers.list());
        r
    }

    /// What is known of the linked peers.
    pub fn all_peers(&self) -> (r: Vec<PeerInfo>)
        requires
            self.wf(),
        ensures
            r@ == infos_of(self.peers.list()),
    {
        self.peers_snapshot()
    }

    /// Guards whose circuits fail far more often than they should.
    pub fn suspicious_guards(&self) -> (r: Vec<(String, GuardStats)>)
        requires
            self.wf(),
        ensures
            path_bias::lists(r@, self.path_bias@, |s: GuardStats| s.suspect()),
            path_bias::names_ascend(r@),
    {
        self.path_bias.suspicious()
    }

    /// Every guard's record, worst first.
    pub fn guard_stats(&self) -> (r: Vec<(String, GuardStats)>)
        requires
            self.wf(),
        ensures
            path_bias::lists(r@, self.path_bias@, |s: GuardStats| true),
            path_bias::worst_first(r@),
    {
        self.path_bias.all()
    }
}

/// What is known of a list of peers.
pub open spec fn infos_of(l: Seq<([u8; 32], PeerConn)>) -> Seq<PeerInfo> {
    l.map_values(|e: ([u8; 32], PeerConn)| e.1.info)
}

/// What starting a node takes.
#[derive(Debug)]
pub struct StartPlan {
    /// The address to listen on; nothing for a client.
    pub listen_on: Option<String>,
    /// New certificates are made from time to time.
    pub rotate: bool,
}

impl PhiNode {
    /// What starting the node takes. `rotate_setting` is the operator's setting for new
    /// certificates; they are made only when it is `1`.
    pub fn start_plan(&self, rotate_setting: Option<&str>) -> (r: StartPlan)
        ensures
            match r.listen_on {
                None => self.client_only,
                Some(a) => !self.client_only && a@ == self.host@ + ":"@ + text::decimal(
                    self.port as nat,
                ),
            },
            r.rotate == (rotate_setting matches Some(s) && s@ == "1"@),
    {
        let listen_on: Option<String> = if self.client_only {
            None
        } else {
            let p: String = decimal_string(self.port as u64);
            Some(join3(self.host.as_str(), ":", p.as_str()))
        };
        let rotate: bool = match rotate_setting {
            Some(s) => str_eq(s, "1"),
            None => false,
        };
        StartPlan { listen_on, rotate }
    }
}

/// A node starts with nothing: no peers, no pins, nobody waiting, and it runs.
pub proof fn law_a_node_starts_with_nothing(
    host: &str,
    port: u16,
    cert: PhiCert,
    node_id: [u8; 32],
    n: PhiNode,
    id: [u8; 32],
    hex: String,
    key: [u8; 32],
    waiting: usize,
    stopping: bool,
    linked: Vec<[u8; 32]>,
)
    requires
        call_ensures(PhiNode::new, (host, port, cert, node_id), Ok(n)),
        call_ensures(PhiNode::node_id, (&n,), id),
        call_ensures(PhiNode::node_id_hex, (&n,), hex),
        call_ensures(PhiNode::static_pub, (&n,), key),
        call_ensures(PhiNode::hs_rendezvous_pending_len, (&n,), waiting),
        call_ensures(PhiNode::is_shutting_down, (&n,), stopping),
        call_ensures(PhiNode::linked, (&n,), linked),
    ensures
        id@ == node_id@,
        text::unhex(hex@) == node_id@,
        key@ == crypto::x25519_public_of(n.keypair.secret@),
        crypto::is_random(n.keypair.secret@),
        waiting == 0,
        !stopping,
        linked@.len() == 0,
        n.host@ == host@ && n.port == port,
        n.replay_cache.ttl() == 24 * 60 * 60,
{
    text::lemma_hex_roundtrip(node_id@);
    n.peers.lemma_wf();
    if n.peers.list().len() > 0 {
        assert(n.peers@.contains_key(n.peers.list()[0].0@));
    }
}

/// A node that was told to stop stops; nothing else of it changes.
pub proof fn law_a_node_stops_when_told(n: PhiNode, after: PhiNode, stopping: bool)
    requires
        exists|x: &mut PhiNode|
            *x == n && *final(x) == after && #[trigger] call_ensures(PhiNode::shutdown, (x,), ()),
        call_ensures(PhiNode::is_shutting_down, (&after,), stopping),
    ensures
        stopping,
        after.peers == n.peers && after.node_id == n.node_id && after.keypair == n.keypair,
{
}

/// What a node was set to is what it says of itself.
pub proof fn law_settings_are_kept(n: PhiNode, named: PhiNode, signing: PhiNode, f: String, family: String, k: [u8; 32])
    requires
        exists|x: &mut PhiNode|
            *x == n && *final(x) == named && #[trigger] call_ensures(PhiNode::set_family, (x, f), ()),
        call_ensures(PhiNode::family, (&named,), family),
        exists|x: &mut PhiNode|
            *x == named && *final(x) == signing && #[trigger] call_ensures(PhiNode::set_signing_key, (x, k), ()),
    ensures
        family@ == f@,
        signing.signing_key == Some(k),
        signing.family == named.family,
        signing.peers == n.peers,
{
}

/// A node listens at its own address unless it is only a client, and rotates exactly where
/// the setting is the digit one.
pub proof fn law_how_a_node_starts(n: PhiNode, setting: Option<&str>, r: StartPlan)
    requires
        call_ensures(PhiNode::start_plan, (&n, setting), r),
    ensures
        r.listen_on is Some <==> !n.client_only,
        r.listen_on is Some ==> r.listen_on->0@ == n.host@ + ":"@ + text::decimal(n.port as nat),
        r.rotate <==> (setting matches Some(s) && s@ == seq!['1']),
{
    reveal_strlit("1");
    assert("1"@ =~= seq!['1']);
}

/// Every peer that is linked is in the snapshot, and nobody else.
pub proof fn law_snapshots_hold_every_peer(n: PhiNode, r: Vec<PeerInfo>, all: Vec<PeerInfo>, id: Seq<u8>)
    requires
        n.wf(),
        call_ensures(PhiNode::peers_snapshot, (&n,), r),
        call_ensures(PhiNode::all_peers, (&n,), all),
    ensures
        all@ == r@,
        n.peers@.contains_key(id) <==> exists|i: int| 0 <= i < r@.len() && (#[trigger] r@[i]).node_id@ == id,
{
    n.peers.lemma_wf();
    let l = n.peers.list();
    ids::lemma_keyed(l);
    if n.peers@.contains_key(id) {
        let i = choose|i: int| 0 <= i < l.len() && #[trigger] l[i].0@ == id;
        assert(l[i].0@ == id);
        assert(r@[i] == l[i].1.info);
        assert(n.peers@[id] == l[i].1);
        assert(r@[i].node_id@ == id);
    }
    if exists|i: int| 0 <= i < r@.len() && (#[trigger] r@[i]).node_id@ == id {
        let i = choose|i: int| 0 <= i < r@.len() && (#[trigger] r@[i]).node_id@ == id;
        assert(r@[i] == l[i].1.info);
        assert(n.peers@.contains_key(l[i].0@));
        assert(n.peers@[l[i].0@] == l[i].1);
    }
}

/// A key pair made from a secret keeps the secret, and its public half belongs to it; a fresh
/// one comes from a random secret.
pub proof fn law_key_pairs_belong_together(secret: [u8; 32], k: StaticKeypair, p: [u8; 32], fresh: StaticKeypair)
    requires
        call_ensures(StaticKeypair::from_secret, (secret,), k),
        call_ensures(StaticKeypair::public_bytes, (&k,), p),
        call_ensures(StaticKeypair::generate, (), fresh),
    ensures
        k.secret@ == secret@,
        p@ == crypto::x25519_public_of(secret@),
        crypto::is_random(fresh.secret@),
        fresh.public@ == crypto::x25519_public_of(fresh.secret@),
{
}

} // verus!
