//! Hidden-service descriptors: how a client finds the way in, where a descriptor is
//! kept, and what is published again.

use crate::bytes::array_32;
use crate::directory::{ConsensusDocument, PeerEntry, PeerFlags};
use crate::errors;
use crate::errors::Error;
use crate::node::PhiNode;
use crate::rotation;
use crate::rotation::parse_id;
use crate::text;
use crate::text::{hex_decode, hex_encode, join2, join3, str_eq};
use vstd::prelude::*;
use vstd::string::*;

verus! {

/// The descriptor of a hidden service, as its reader uses it.
#[derive(Debug, Clone)]
pub struct HsDescriptor {
    /// The service's name, in hexadecimal.
    pub hs_id: String,
    /// The service's key, in hexadecimal; blank for a service with authorized clients.
    pub intro_pub: String,
    /// Where the way in is.
    pub intro_host: Option<String>,
    /// The port there.
    pub intro_port: Option<u16>,
    /// The node at the way in, in hexadecimal.
    pub intro_node_id: String,
    /// The way in is sealed for authorized clients.
    pub client_auth: bool,
}

/// The way in that was sealed for an authorized client.
#[derive(Debug, Clone)]
pub struct IntroSecret {
    /// The service's key, in hexadecimal.
    pub intro_pub: String,
    /// Where the way in is.
    pub intro_host: Option<String>,
    /// The port there.
    pub intro_port: Option<u16>,
    /// The node at the way in, in hexadecimal.
    pub intro_node_id: String,
}

/// The way in to a hidden service.
#[derive(Debug, Clone)]
pub struct ResolvedIntro {
    /// The service's key.
    pub intro_pub: [u8; 32],
    /// Where the way in is.
    pub intro_host: Option<String>,
    /// The port there.
    pub intro_port: Option<u16>,
    /// The node at the way in; zero when the descriptor does not say.
    pub intro_node_id: [u8; 32],
}

/// What is wrong with a key in hexadecimal that goes by the name `label`.
pub open spec fn key_fault(s: Seq<char>, label: Seq<char>) -> Option<Seq<char>> {
    if !text::is_hex(s) {
        Some(label + " hex: "@ + text::hex_error_text(s))
    } else if text::unhex(s).len() != 32 {
        Some(label + " size"@)
    } else {
        None
    }
}

/// The identifier in `s`, zero when there is none.
pub open spec fn id_or_zero(s: Seq<char>) -> Seq<u8> {
    match rotation::id_in(s) {
        Some(b) => b,
        None => Seq::new(32, |i: int| 0u8),
    }
}

/// `r` is the way in with these parts, or what is wrong with its key.
pub open spec fn resolves(
    r: Result<Option<ResolvedIntro>, Error>,
    key: Seq<char>,
    host: Option<String>,
    port: Option<u16>,
    node: Seq<char>,
    label: Seq<char>,
) -> bool {
    match key_fault(key, label) {
        Some(t) => errors::is_crypto(r, t),
        None => r matches Ok(Some(x)) && x.intro_pub@ == text::unhex(key) && x.intro_host == host
            && x.intro_port == port && x.intro_node_id@ == id_or_zero(node),
    }
}

/// `r` is what trying the client's secrets one by one came to, from the `i`-th on:
/// the first that opens the way in, or fails, decides; none of them, none is
/// authorized.
pub open spec fn attempts_resolve(
    r: Result<Option<ResolvedIntro>, Error>,
    attempts: Seq<Result<Option<IntroSecret>, Error>>,
    i: int,
) -> bool
    decreases attempts.len() - i,
{
    if i < 0 || i >= attempts.len() {
        r == Ok::<Option<ResolvedIntro>, Error>(None)
    } else {
        match attempts[i] {
            Err(e) => r == Err::<Option<ResolvedIntro>, Error>(e),
            Ok(Some(s)) => resolves(
                r,
                s.intro_pub@,
                s.intro_host,
                s.intro_port,
                s.intro_node_id@,
                "recovered intro_pub"@,
            ),
            Ok(None) => attempts_resolve(r, attempts, i + 1),
        }
    }
}

fn intro_key(s: &str, label: &str) -> (r: Result<[u8; 32], Error>)
    ensures
        match key_fault(s@, label@) {
            Some(t) => errors::is_crypto(r, t),
            None => r matches Ok(b) && b@ == text::unhex(s@),
        },
{
    match hex_decode(s) {
        Ok(b) => {
            if b.len() != 32 {
                return Err(Error::Crypto(join2(label, " size")));
            }
            let a: [u8; 32] = array_32(&b, 0);
            assert(b@.subrange(0, 32) =~= b@);
            Ok(a)
        },
        Err(e) => Err(Error::Crypto(join3(label, " hex: ", e.as_str()))),
    }
}

fn resolve_parts(
    key: &str,
    host: Option<String>,
    port: Option<u16>,
    node: &str,
    label: &str,
) -> (r: Result<Option<ResolvedIntro>, Error>)
    ensures
        resolves(r, key@, host, port, node@, label@),
{
    match intro_key(key, label) {
        Ok(intro_pub) => {
            let intro_node_id: [u8; 32] = match parse_id(node) {
                Some(b) => b,
                None => [0u8; 32],
            };
            assert(intro_node_id@ =~= id_or_zero(node@));
            Ok(Some(ResolvedIntro { intro_pub, intro_host: host, intro_port: port, intro_node_id }))
        },
        Err(e) => Err(e),
    }
}

fn try_attempts(mut attempts: Vec<Result<Option<IntroSecret>, Error>>) -> (r: Result<
    Option<ResolvedIntro>,
    Error,
>)
    ensures
        attempts_resolve(r, attempts@, 0),
    decreases attempts@.len(),
{
    if attempts.len() == 0 {
        return Ok(None);
    }
    let ghost all = attempts@;
    let first: Result<Option<IntroSecret>, Error> = attempts.remove(0);
    match first {
        Err(e) => Err(e),
        Ok(Some(s)) => resolve_parts(
            s.intro_pub.as_str(),
            s.intro_host,
            s.intro_port,
            s.intro_node_id.as_str(),
            "recovered intro_pub",
        ),
        Ok(None) => {
            let ghost rest = attempts@;
            let r: Result<Option<ResolvedIntro>, Error> = try_attempts(attempts);
            proof {
                assert(rest =~= all.skip(1));
                lemma_attempts_shift(r, all, 0);
            }
            r
        },
    }
}

proof fn lemma_attempts_shift(
    r: Result<Option<ResolvedIntro>, Error>,
    all: Seq<Result<Option<IntroSecret>, Error>>,
    i: int,
)
    requires
        0 <= i,
        all.len() > 0,
        attempts_resolve(r, all.skip(1), i),
    ensures
        attempts_resolve(r, all, i + 1),
    decreases all.len() - i,
{
    let rest = all.skip(1);
    if i < rest.len() {
        assert(rest[i] == all[i + 1]);
        if rest[i] == Ok::<Option<IntroSecret>, Error>(None) {
            lemma_attempts_shift(r, all, i + 1);
        }
    }
}

/// `r` is the way in that the descriptor gives a client.
pub open spec fn descriptor_resolves(
    r: Result<Option<ResolvedIntro>, Error>,
    d: HsDescriptor,
    signature: Result<(), Error>,
    attempts: Seq<Result<Option<IntroSecret>, Error>>,
) -> bool {
    match signature {
        Err(e) => r == Err::<Option<ResolvedIntro>, Error>(e),
        Ok(_) => if d.client_auth {
            attempts_resolve(r, attempts, 0)
        } else {
            resolves(r, d.intro_pub@, d.intro_host, d.intro_port, d.intro_node_id@, "intro_pub"@)
        },
    }
}

impl PhiNode {
    /// Resolves a descriptor to the way in. `signature` is the verdict on the
    /// descriptor's signature, `attempts` what the client's secrets make of the sealed
    /// way in, one by one. `None` is for a client that is not authorized.
    pub fn resolve_hs_descriptor(
        descriptor: &HsDescriptor,
        signature: Result<(), Error>,
        attempts: Vec<Result<Option<IntroSecret>, Error>>,
    ) -> (r: Result<Option<ResolvedIntro>, Error>)
        ensures
            descriptor_resolves(r, *descriptor, signature, attempts@),
    {
        match signature {
            Err(e) => Err(e),
            Ok(_) => {
                if descriptor.client_auth {
                    try_attempts(attempts)
                } else {
                    resolve_parts(
                        descriptor.intro_pub.as_str(),
                        descriptor.intro_host.clone(),
                        descriptor.intro_port,
                        descriptor.intro_node_id.as_str(),
                        "intro_pub",
                    )
                }
            },
        }
    }
}

/// Nothing comes of a descriptor without a good signature, whatever it says.
pub proof fn law_unsigned_descriptors_are_refused(
    r: Result<Option<ResolvedIntro>, Error>,
    d: HsDescriptor,
    signature: Result<(), Error>,
    attempts: Seq<Result<Option<IntroSecret>, Error>>,
)
    requires
        signature is Err,
        descriptor_resolves(r, d, signature, attempts),
    ensures
        r is Err,
{
}

/// A client none of whose secrets opens the way in is told so, not given an error.
pub proof fn law_strangers_are_turned_away(
    r: Result<Option<ResolvedIntro>, Error>,
    d: HsDescriptor,
    attempts: Seq<Result<Option<IntroSecret>, Error>>,
)
    requires
        d.client_auth,
        forall|i: int|
            0 <= i < attempts.len() ==> #[trigger] attempts[i] == Ok::<Option<IntroSecret>, Error>(
                None,
            ),
        descriptor_resolves(r, d, Ok(()), attempts),
    ensures
        r == Ok::<Option<ResolvedIntro>, Error>(None),
{
    lemma_none_authorized(r, attempts, 0);
}

proof fn lemma_none_authorized(
    r: Result<Option<ResolvedIntro>, Error>,
    attempts: Seq<Result<Option<IntroSecret>, Error>>,
    i: int,
)
    requires
        0 <= i,
        forall|j: int|
            0 <= j < attempts.len() ==> #[trigger] attempts[j] == Ok::<Option<IntroSecret>, Error>(
                None,
            ),
        attempts_resolve(r, attempts, i),
    ensures
        r == Ok::<Option<ResolvedIntro>, Error>(None),
    decreases attempts.len() - i,
{
    if i < attempts.len() {
        lemma_none_authorized(r, attempts, i + 1);
    }
}

/// One secret that opens the way in is enough, whichever it is.
pub proof fn law_one_secret_is_enough(
    r: Result<Option<ResolvedIntro>, Error>,
    d: HsDescriptor,
    attempts: Seq<Result<Option<IntroSecret>, Error>>,
    k: int,
    s: IntroSecret,
)
    requires
        d.client_auth,
        0 <= k < attempts.len(),
        attempts[k] == Ok::<Option<IntroSecret>, Error>(Some(s)),
        forall|i: int|
            0 <= i < k ==> #[trigger] attempts[i] == Ok::<Option<IntroSecret>, Error>(None),
        descriptor_resolves(r, d, Ok(()), attempts),
    ensures
        resolves(
            r,
            s.intro_pub@,
            s.intro_host,
            s.intro_port,
            s.intro_node_id@,
            "recovered intro_pub"@,
        ),
{
    lemma_reaches(r, attempts, 0, k);
}

proof fn lemma_reaches(
    r: Result<Option<ResolvedIntro>, Error>,
    attempts: Seq<Result<Option<IntroSecret>, Error>>,
    i: int,
    k: int,
)
    requires
        0 <= i <= k < attempts.len(),
        forall|j: int|
            0 <= j < k ==> #[trigger] attempts[j] == Ok::<Option<IntroSecret>, Error>(None),
        attempts_resolve(r, attempts, i),
    ensures
        attempts_resolve(r, attempts, k),
    decreases k - i,
{
    if i < k {
        lemma_reaches(r, attempts, i + 1, k);
    }
}

/// The relay takes part in the ring that keeps descriptors.
pub open spec fn on_ring(p: PeerEntry) -> bool {
    p.flags & PeerFlags::RUNNING == PeerFlags::RUNNING
}

/// The identifiers of the relays on the ring, in the order of the consensus.
pub open spec fn ring_relays(s: Seq<PeerEntry>) -> Seq<Seq<char>> {
    s.filter(|p: PeerEntry| on_ring(p)).map_values(|p: PeerEntry| p.node_id_hex@)
}

/// What positions on the ring are drawn from: the shared random value of the period,
/// or the network's name when there is none.
pub open spec fn ring_salt(c: ConsensusDocument) -> Seq<char> {
    if c.shared_random@.len() == 0 {
        c.network_id@
    } else {
        c.shared_random@
    }
}

/// The relays on the ring and the salt of their positions; nothing without a
/// running relay.
pub fn ring_inputs(consensus: &ConsensusDocument) -> (r: Option<(Vec<String>, String)>)
    ensures
        r is Some == (ring_relays(consensus.peers@).len() > 0),
        r matches Some(x) ==> text::texts(x.0@) == ring_relays(consensus.peers@) && x.1@ == ring_salt(
            *consensus,
        ),
{
    let ghost all = consensus.peers@;
    let mut relays: Vec<String> = Vec::new();
    let mut i: usize = 0;
    assert(all.take(0) =~= Seq::empty());
    assert(text::texts(relays@) =~= ring_relays(all.take(0))) by {
        reveal(Seq::filter);
    }
    while i < consensus.peers.len()
        invariant
            i <= all.len(),
            all == consensus.peers@,
            text::texts(relays@) == ring_relays(all.take(i as int)),
        decreases all.len() - i,
    {
        let p: &PeerEntry = &consensus.peers[i];
        let ghost before = relays@;
        let ghost next = all.take(i + 1);
        let ghost f = |p: PeerEntry| on_ring(p);
        assert(next.drop_last() =~= all.take(i as int));
        assert(next.last() == *p);
        proof {
            reveal(Seq::filter);
        }
        if p.flags & PeerFlags::RUNNING == PeerFlags::RUNNING {
            relays.push(p.node_id_hex.clone());
            assert(next.filter(f) == all.take(i as int).filter(f).push(*p));
            assert(text::texts(relays@) =~= text::texts(before).push(p.node_id_hex@));
            assert(text::texts(relays@) =~= ring_relays(next));
        } else {
            assert(next.filter(f) == all.take(i as int).filter(f));
        }
        i += 1;
    }
    assert(all.take(i as int) =~= all);
    assert(relays@.len() == text::texts(relays@).len());
    if relays.len() == 0 {
        return None;
    }
    let salt: String = if consensus.shared_random.as_str().unicode_len() == 0 {
        consensus.network_id.clone()
    } else {
        consensus.shared_random.clone()
    };
    Some((relays, salt))
}

/// The key by which a service's place on the ring is found: its blinded key, in
/// hexadecimal, or its name when it has no key to blind.
pub fn ring_key(hs_id: &str, blinded: Option<[u8; 32]>) -> (r: String)
    ensures
        match blinded {
            Some(b) => r@ == text::hex_of(b@),
            None => r@ == hs_id@,
        },
{
    match blinded {
        Some(b) => hex_encode(&b),
        None => hs_id.to_owned(),
    }
}

/// `dirs` lists the node with the identifier `id`.
pub open spec fn lists_node(dirs: Seq<String>, id: Seq<u8>) -> bool {
    exists|i: int| 0 <= i < dirs.len() && #[trigger] dirs[i]@ == text::hex_of(id)
}

/// The peers to turn to for a descriptor: those that are responsible for it, or all
/// when it is not known who is or none of them is linked.
pub open spec fn chosen_peers(peers: Seq<[u8; 32]>, responsible: Option<Seq<String>>) -> Seq<[u8; 32]> {
    match responsible {
        Some(dirs) => {
            let want = peers.filter(|id: [u8; 32]| lists_node(dirs, id@));
            if want.len() == 0 {
                peers
            } else {
                want
            }
        },
        None => peers,
    }
}

fn is_listed(dirs: &[String], id: &[u8; 32]) -> (r: bool)
    ensures
        r == lists_node(dirs@, id@),
{
    let hex: String = hex_encode(id);
    let mut i: usize = 0;
    while i < dirs.len()
        invariant
            i <= dirs@.len(),
            hex@ == text::hex_of(id@),
            forall|j: int| 0 <= j < i ==> #[trigger] dirs@[j]@ != text::hex_of(id@),
        decreases dirs@.len() - i,
    {
        if str_eq(dirs[i].as_str(), hex.as_str()) {
            return true;
        }
        i += 1;
    }
    false
}

/// The peers to turn to for a descriptor, among those that are linked.
pub fn descriptor_targets(peers: &[[u8; 32]], responsible: Option<&[String]>) -> (r: Vec<[u8; 32]>)
    ensures
        r@ == chosen_peers(
            peers@,
            match responsible {
                Some(d) => Some(d@),
                None => None,
            },
        ),
{
    let mut want: Vec<[u8; 32]> = Vec::new();
    if let Some(dirs) = responsible {
        let ghost f = |id: [u8; 32]| lists_node(dirs@, id@);
        let mut i: usize = 0;
        assert(peers@.take(0) =~= Seq::empty());
        proof {
            reveal(Seq::filter);
        }
        assert(want@ =~= peers@.take(0).filter(f));
        while i < peers.len()
            invariant
                i <= peers@.len(),
                f == (|id: [u8; 32]| lists_node(dirs@, id@)),
                want@ == peers@.take(i as int).filter(f),
            decreases peers@.len() - i,
        {
            let ghost next = peers@.take(i + 1);
            assert(next.drop_last() =~= peers@.take(i as int));
            assert(next.last() == peers@[i as int]);
            proof {
                reveal(Seq::filter);
            }
            if is_listed(dirs, &peers[i]) {
                want.push(peers[i]);
            }
            assert(want@ == next.filter(f));
            i += 1;
        }
        assert(peers@.take(i as int) =~= peers@);
        if want.len() > 0 {
            return want;
        }
    }
    let mut all: Vec<[u8; 32]> = Vec::new();
    let mut i: usize = 0;
    while i < peers.len()
        invariant
            i <= peers@.len(),
            all@ =~= peers@.take(i as int),
        decreases peers@.len() - i,
    {
        all.push(peers[i]);
        i += 1;
    }
    assert(all@ =~= peers@);
    all
}

/// As long as there is a linked peer, there is one to turn to, and only linked peers
/// are.
pub proof fn law_lookups_reach_someone(peers: Seq<[u8; 32]>, responsible: Option<Seq<String>>)
    ensures
        peers.len() > 0 ==> chosen_peers(peers, responsible).len() > 0,
        forall|i: int|
            0 <= i < chosen_peers(peers, responsible).len() ==> peers.contains(
                #[trigger] chosen_peers(peers, responsible)[i],
            ),
{
    if let Some(dirs) = responsible {
        let f = |id: [u8; 32]| lists_node(dirs, id@);
        let want = peers.filter(f);
        broadcast use vstd::seq_lib::group_filter_ensures;

        assert forall|i: int| 0 <= i < want.len() implies peers.contains(#[trigger] want[i]) by {
            peers.lemma_filter_contains_rev(f, want[i]);
        }
    }
}

/// The endpoint under which a descriptor was published.
pub fn published_endpoint(descriptor: &HsDescriptor) -> (r: (String, u16))
    ensures
        match descriptor.intro_host {
            Some(h) => r.0@ == h@,
            None => r.0@.len() == 0,
        },
        r.1 == match descriptor.intro_port {
            Some(p) => p,
            None => 0,
        },
{
    let host: String = match &descriptor.intro_host {
        Some(h) => h.clone(),
        None => String::new(),
    };
    let port: u16 = match descriptor.intro_port {
        Some(p) => p,
        None => 0,
    };
    (host, port)
}

/// What to publish again for a service.
#[derive(Debug)]
pub enum Republish {
    /// Nothing.
    Skip,
    /// A descriptor for everyone, with this way in.
    Public { host: Option<String>, port: Option<u16> },
    /// A descriptor for the clients with these keys.
    Authorized { host: Option<String>, port: Option<u16>, clients: Vec<[u8; 32]> },
}

/// `host` and `port` are the way in of the endpoint `e`, whose parts may be missing.
pub open spec fn endpoint_is(host: Option<String>, port: Option<u16>, e: (String, u16)) -> bool {
    &&& (host matches Some(h) ==> h@ == e.0@)
    &&& host is None == (e.0@.len() == 0)
    &&& port == if e.1 == 0 {
        None
    } else {
        Some(e.1)
    }
}

/// Every key of `clients` is an identifier in hexadecimal.
pub open spec fn keys_sound(clients: Seq<String>) -> bool {
    forall|i: int| 0 <= i < clients.len() ==> rotation::id_in(#[trigger] clients[i]@) is Some
}

/// `keys` are the keys that `clients` hold.
pub open spec fn keys_are(keys: Seq<[u8; 32]>, clients: Seq<String>) -> bool {
    keys.len() == clients.len() && forall|i: int|
        0 <= i < keys.len() ==> Some((#[trigger] keys[i])@) == rotation::id_in(clients[i]@)
}

/// `r` is what to publish again for a service with the endpoint and the clients.
pub open spec fn republishes(
    r: Republish,
    endpoint: Option<(String, u16)>,
    clients: Seq<String>,
) -> bool {
    match endpoint {
        None => r is Skip,
        Some(e) => if clients.len() == 0 {
            r matches Republish::Public { host, port } && endpoint_is(host, port, e)
        } else if keys_sound(clients) {
            r matches Republish::Authorized { host, port, clients: keys } && endpoint_is(
                host,
                port,
                e,
            ) && keys_are(keys@, clients)
        } else {
            r is Skip
        },
    }
}

fn read_keys(clients: &[String]) -> (r: Option<Vec<[u8; 32]>>)
    ensures
        r is Some == keys_sound(clients@),
        r matches Some(k) ==> keys_are(k@, clients@),
{
    let mut keys: Vec<[u8; 32]> = Vec::new();
    let mut i: usize = 0;
    while i < clients.len()
        invariant
            i <= clients@.len(),
            keys@.len() == i,
            forall|j: int|
                0 <= j < i ==> Some((#[trigger] keys@[j])@) == rotation::id_in(clients@[j]@),
        decreases clients@.len() - i,
    {
        match parse_id(clients[i].as_str()) {
            Some(k) => {
                keys.push(k);
            },
            None => {
                assert(rotation::id_in(clients@[i as int]@) is None);
                return None;
            },
        }
        i += 1;
    }
    assert forall|j: int| 0 <= j < clients@.len() implies rotation::id_in(#[trigger] clients@[j]@) is Some by {
        assert(Some(keys@[j]@) == rotation::id_in(clients@[j]@));
    }
    Some(keys)
}

/// What to publish again for a service with the endpoint that it was last published
/// under and the keys of its authorized clients. A key that cannot be read keeps the
/// service from being published for everyone.
pub fn republish_plan(endpoint: &Option<(String, u16)>, clients: &[String]) -> (r: Republish)
    ensures
        republishes(r, *endpoint, clients@),
{
    let e: &(String, u16) = match endpoint {
        Some(e) => e,
        None => return Republish::Skip,
    };
    let host: Option<String> = if e.0.as_str().unicode_len() == 0 {
        None
    } else {
        Some(e.0.clone())
    };
    let port: Option<u16> = if e.1 == 0 {
        None
    } else {
        Some(e.1)
    };
    if clients.len() == 0 {
        return Republish::Public { host, port };
    }
    match read_keys(clients) {
        Some(keys) => Republish::Authorized { host, port, clients: keys },
        None => Republish::Skip,
    }
}

/// A service with authorized clients is never published for everyone.
pub proof fn law_private_services_stay_private(
    r: Republish,
    endpoint: Option<(String, u16)>,
    clients: Seq<String>,
)
    requires
        clients.len() > 0,
        republishes(r, endpoint, clients),
    ensures
        !(r is Public),
{
}

/// A public service is reached as its signed descriptor says: under its key, at its
/// address and its node. One whose key cannot be read, or whose signature does not hold, is
/// not reached.
pub proof fn law_public_services_are_reached_as_they_say(
    d: &HsDescriptor,
    attempts: Vec<Result<Option<IntroSecret>, Error>>,
    r: Result<Option<ResolvedIntro>, Error>,
    e: Error,
    unsigned: Result<Option<ResolvedIntro>, Error>,
)
    requires
        !d.client_auth,
        call_ensures(PhiNode::resolve_hs_descriptor, (d, Ok(()), attempts), r),
        call_ensures(PhiNode::resolve_hs_descriptor, (d, Err(e), attempts), unsigned),
    ensures
        r is Ok <==> text::is_hex(d.intro_pub@) && d.intro_pub@.len() == 64,
        r is Ok ==> r->Ok_0 is Some,
        r is Ok ==> ({
            let x = r->Ok_0->0;
            &&& text::hex_of(x.intro_pub@) == text::lowered(d.intro_pub@)
            &&& x.intro_host == d.intro_host
            &&& x.intro_port == d.intro_port
            &&& rotation::id_in(d.intro_node_id@) is Some ==> text::hex_of(x.intro_node_id@) == text::lowered(
                d.intro_node_id@,
            )
            &&& rotation::id_in(d.intro_node_id@) is None ==> forall|i: int| 0 <= i < 32 ==> x.intro_node_id@[i] == 0
        }),
        unsigned == Err::<Option<ResolvedIntro>, Error>(e),
{
    if r is Ok {
        text::lemma_unhex_lowered(d.intro_pub@);
        if rotation::id_in(d.intro_node_id@) is Some {
            text::lemma_unhex_lowered(d.intro_node_id@);
        }
    }
}

proof fn lemma_attempts(
    r: Result<Option<ResolvedIntro>, Error>,
    attempts: Seq<Result<Option<IntroSecret>, Error>>,
    i: int,
    k: int,
)
    requires
        0 <= i <= k < attempts.len(),
        forall|j: int| i <= j < k ==> #[trigger] attempts[j] == Ok::<Option<IntroSecret>, Error>(None),
        attempts_resolve(r, attempts, i),
    ensures
        attempts_resolve(r, attempts, k),
    decreases k - i,
{
    if i < k {
        assert(attempts[i] == Ok::<Option<IntroSecret>, Error>(None));
        lemma_attempts(r, attempts, i + 1, k);
    }
}

/// A service for chosen clients is reached with the first credential that opens its
/// descriptor, as that says, whatever the descriptor says in the open.
pub proof fn law_private_services_are_reached_with_a_credential(
    d: &HsDescriptor,
    attempts: Vec<Result<Option<IntroSecret>, Error>>,
    k: int,
    s: IntroSecret,
    r: Result<Option<ResolvedIntro>, Error>,
)
    requires
        d.client_auth,
        0 <= k < attempts@.len(),
        forall|j: int| 0 <= j < k ==> #[trigger] attempts@[j] == Ok::<Option<IntroSecret>, Error>(None),
        attempts@[k] == Ok::<Option<IntroSecret>, Error>(Some(s)),
        call_ensures(PhiNode::resolve_hs_descriptor, (d, Ok(()), attempts), r),
    ensures
        r is Ok <==> text::is_hex(s.intro_pub@) && s.intro_pub@.len() == 64,
        r is Ok ==> r->Ok_0 is Some && text::hex_of(r->Ok_0->0.intro_pub@) == text::lowered(s.intro_pub@)
            && r->Ok_0->0.intro_host == s.intro_host && r->Ok_0->0.intro_port == s.intro_port,
{
    lemma_attempts(r, attempts@, 0, k);
    if r is Ok {
        text::lemma_unhex_lowered(s.intro_pub@);
    }
}

/// The ring holds the relays that run, by their identifiers, and turns with the shared
/// value where there is one.
pub proof fn law_the_ring_holds_what_runs(consensus: &ConsensusDocument, r: Option<(Vec<String>, String)>, k: int)
    requires
        call_ensures(ring_inputs, (consensus,), r),
        0 <= k < consensus.peers@.len(),
    ensures
        consensus.peers@[k].flags & PeerFlags::RUNNING == PeerFlags::RUNNING ==> (r matches Some((ids, _))
            && text::texts(ids@).contains(consensus.peers@[k].node_id_hex@)),
        (r matches Some((_, salt)) ==> (consensus.shared_random@.len() > 0 ==> salt@ == consensus.shared_random@) && (
        consensus.shared_random@.len() == 0 ==> salt@ == consensus.network_id@)),
{
    broadcast use vstd::seq_lib::group_filter_ensures;

    let s = consensus.peers@;
    let keep = |p: PeerEntry| on_ring(p);
    let f = s.filter(keep);
    let ids = ring_relays(s);
    if on_ring(s[k]) {
        assert(keep(s[k]));
        assert(f.contains(s[k]));
        let i = choose|i: int| 0 <= i < f.len() && f[i] == s[k];
        assert(ids[i] == s[k].node_id_hex@);
        assert(ids.contains(s[k].node_id_hex@));
    }
}

/// A service whose name is blinded has its place by the blinded key, any other by its name.
pub proof fn law_blinded_services_hide_their_name(hs_id: &str, b: [u8; 32], hidden: String, open: String)
    requires
        call_ensures(ring_key, (hs_id, Some(b)), hidden),
        call_ensures(ring_key, (hs_id, None), open),
    ensures
        hidden@ == text::hex_of(b@),
        open@ == hs_id@,
{
}

/// Of the peers those are asked that keep the descriptor; everyone where none of them does,
/// or where nobody knows who does.
pub proof fn law_the_keepers_are_asked(peers: &[[u8; 32]], dirs: &[String], r: Vec<[u8; 32]>, all: Vec<[u8; 32]>)
    requires
        call_ensures(descriptor_targets, (peers, Some(dirs)), r),
        call_ensures(descriptor_targets, (peers, None), all),
    ensures
        all@ == peers@,
        (exists|i: int| 0 <= i < peers@.len() && lists_node(dirs@, (#[trigger] peers@[i])@)) ==> forall|id: [u8; 32]|
            #[trigger] r@.contains(id) <==> peers@.contains(id) && lists_node(dirs@, id@),
        (forall|i: int| 0 <= i < peers@.len() ==> !lists_node(dirs@, (#[trigger] peers@[i])@)) ==> r@ == peers@,
{
    broadcast use vstd::seq_lib::group_filter_ensures;

    let s = peers@;
    let keep = |id: [u8; 32]| lists_node(dirs@, id@);
    let f = s.filter(keep);
    if exists|i: int| 0 <= i < s.len() && lists_node(dirs@, (#[trigger] s[i])@) {
        let i = choose|i: int| 0 <= i < s.len() && lists_node(dirs@, (#[trigger] s[i])@);
        assert(keep(s[i]));
        assert(f.contains(s[i]));
        assert forall|id: [u8; 32]| #[trigger] f.contains(id) <==> s.contains(id) && lists_node(dirs@, id@) by {
            if f.contains(id) {
                lemma_kept_from(s, keep, choose|j: int| 0 <= j < f.len() && f[j] == id);
            }
            if s.contains(id) && lists_node(dirs@, id@) {
                let j = choose|j: int| 0 <= j < s.len() && s[j] == id;
                assert(keep(s[j]));
            }
        }
    } else {
        if f.len() > 0 {
            lemma_kept_from(s, keep, 0);
            let j = choose|j: int| 0 <= j < s.len() && s[j] == f[0];
            assert(lists_node(dirs@, s[j]@));
        }
    }
}

proof fn lemma_kept_from(s: Seq<[u8; 32]>, keep: spec_fn([u8; 32]) -> bool, i: int)
    requires
        0 <= i < s.filter(keep).len(),
    ensures
        s.contains(s.filter(keep)[i]),
        keep(s.filter(keep)[i]),
    decreases s.len(),
{
    reveal(Seq::filter);
    if s.len() > 0 {
        let t = s.drop_last();
        if i < t.filter(keep).len() {
            lemma_kept_from(t, keep, i);
            let j = choose|j: int| 0 <= j < t.len() && t[j] == t.filter(keep)[i];
            assert(s[j] == s.filter(keep)[i]);
        } else {
            assert(s[s.len() - 1] == s.filter(keep)[i]);
        }
    }
}

/// A descriptor is published again with the address it was published with, for the
/// clients it is for, and in the open exactly where it has none. Keys that cannot be read
/// keep it from being published at all.
pub proof fn law_descriptors_are_published_again(
    d: &HsDescriptor,
    endpoint: (String, u16),
    clients: &[String],
    r: Republish,
    never: Republish,
)
    requires
        call_ensures(published_endpoint, (d,), endpoint),
        call_ensures(republish_plan, (&Some(endpoint), clients), r),
        call_ensures(republish_plan, (&None, clients), never),
    ensures
        never is Skip,
        r is Public <==> clients@.len() == 0,
        r is Authorized <==> clients@.len() > 0 && forall|i: int|
            0 <= i < clients@.len() ==> rotation::id_in(#[trigger] clients@[i]@) is Some,
        r is Public && d.intro_host is Some && d.intro_host->0@.len() > 0 ==> (r->Public_host matches Some(h) && h@
            == d.intro_host->0@),
        r is Public && d.intro_host is None ==> r->Public_host is None,
        r is Public && d.intro_port is Some && d.intro_port->0 > 0 ==> r->Public_port == d.intro_port,
        r is Public && d.intro_port is None ==> r->Public_port is None,
        r is Authorized && d.intro_host is Some && d.intro_host->0@.len() > 0 ==> (r->Authorized_host matches Some(h)
            && h@ == d.intro_host->0@),
        r is Authorized && d.intro_port is Some && d.intro_port->0 > 0 ==> r->Authorized_port == d.intro_port,
        r is Authorized ==> r->clients@.len() == clients@.len() && forall|i: int|
            0 <= i < clients@.len() ==> Some((#[trigger] r->clients@[i])@) == rotation::id_in(clients@[i]@),
{
}

} // verus!
