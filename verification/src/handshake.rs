//! How two nodes meet.
//!
//! The responder opens with a challenge that carries its half of a key exchange, the
//! initiator answers with its own half, and everything after that is sealed: the
//! initiator presents its certificate and proof of work, and the responder accepts it
//! with its own, or turns it away.

use crate::bytes::bytes_eq;
use crate::cert::PhiCert;
use crate::crypto;
use crate::crypto::wipe;
use crate::dht::PeerInfo;
use crate::errors;
use crate::errors::Error;
use crate::pow;
use crate::pow::{AdmissionPoW, verify_admission};
use crate::rotation;
use crate::rotation::parse_id;
use crate::session::{EphemeralKeypair, Session};
use crate::text;
use crate::text::{hex_encode, join2};
use vstd::prelude::*;
use vstd::string::*;

verus! {

/// The version of the protocol.
pub const PROTOCOL_VERSION: u32 = 2;

/// How many seconds a handshake message may take.
pub const HANDSHAKE_SECS: u64 = 15;

/// The certificate strength that the challenge asks for, in bits.
pub const MIN_CERT_BITS: u32 = 256;

/// The responder's opening.
#[derive(Debug, Clone)]
pub struct PowChallenge {
    /// Random bytes, in hexadecimal.
    pub challenge: String,
    /// The strength that the certificate should have.
    pub min_bits: u32,
    /// The responder's half of the key exchange, in hexadecimal.
    pub server_ephem: String,
}

/// The initiator's half of the key exchange.
#[derive(Debug, Clone)]
pub struct ClientHello {
    /// The half, in hexadecimal.
    pub ephem_pub: String,
}

/// What an end presents of itself once the link is sealed.
#[derive(Debug, Clone)]
pub struct Introduction {
    /// The version of the protocol.
    pub version: u32,
    /// The certificate, as it is sent.
    pub cert: String,
    /// The proof of work that goes with it.
    pub admission_pow: AdmissionPoW,
    /// The static key, in hexadecimal.
    pub static_pub: String,
    /// Where the end can be dialled.
    pub listen_port: u16,
}

/// What arrived where a message of the type `T` was awaited.
#[derive(Debug)]
pub enum Received<T> {
    /// It.
    Message(T),
    /// A rejection, with its reason.
    Rejected(String),
    /// Another message.
    Other,
    /// Nothing in time.
    TimedOut,
}

/// What a presented certificate turns out to be.
#[derive(Debug)]
pub enum Presented {
    /// It cannot be read, for this reason.
    Unreadable(String),
    /// Its numbers do not satisfy the certificate's equations.
    Unsound(PhiCert),
    /// A sound certificate of the node with this identifier.
    Sound(PhiCert, [u8; 32]),
}

/// The responder's opening.
pub fn open_challenge(challenge: &[u8; 32], ephem: &EphemeralKeypair) -> (r: PowChallenge)
    ensures
        r.challenge@ == text::hex_of(challenge@),
        r.min_bits == MIN_CERT_BITS,
        r.server_ephem@ == text::hex_of(ephem.public_half()),
{
    let p: [u8; 32] = ephem.public_bytes();
    PowChallenge {
        challenge: hex_encode(challenge),
        min_bits: MIN_CERT_BITS,
        server_ephem: hex_encode(&p),
    }
}

/// The initiator's answer to the opening.
pub fn client_hello(ephem: &EphemeralKeypair) -> (r: ClientHello)
    ensures
        r.ephem_pub@ == text::hex_of(ephem.public_half()),
{
    let p: [u8; 32] = ephem.public_bytes();
    ClientHello { ephem_pub: hex_encode(&p) }
}

/// `s` is the session of the key pair `e` with the peer half `peer`, on the
/// initiator's side or the responder's. The holder of the peer half has the same
/// secret.
pub open spec fn is_session_with(
    s: Session,
    e: EphemeralKeypair,
    peer: Seq<u8>,
    initiator: bool,
) -> bool {
    &&& s.derived_from(crypto::x25519_of(e.secret_bytes(), peer), initiator)
    &&& s.sent() == 0
    &&& s.received() == 0
    &&& forall|other: EphemeralKeypair|
        e.wf() && #[trigger] other.wf() && other.public_half() == peer ==> s.derived_from(
            crypto::x25519_of(other.secret_bytes(), e.public_half()),
            initiator,
        )
}

fn start_session(e: &EphemeralKeypair, peer: &[u8; 32], initiator: bool) -> (r: Session)
    ensures
        is_session_with(r, *e, peer@, initiator),
{
    let mut shared: [u8; 32] = e.dh(peer);
    let r: Session = Session::new(&shared, initiator);
    wipe(&mut shared);
    r
}

/// The responder's session, from what arrived where the initiator's half was awaited.
pub fn accept_hello(e: &EphemeralKeypair, received: Received<ClientHello>) -> (r: Result<
    Session,
    Error,
>)
    ensures
        match received {
            Received::TimedOut => errors::is_handshake(r, "timeout"@),
            Received::Message(m) => match rotation::id_in(m.ephem_pub@) {
                Some(peer) => r matches Ok(s) && is_session_with(s, *e, peer, false),
                None => errors::is_handshake(r, "bad client ephem_pub"@),
            },
            _ => errors::is_handshake(r, "expected CLIENT_HELLO"@),
        },
{
    match received {
        Received::TimedOut => Err(Error::Handshake("timeout".to_owned())),
        Received::Message(m) => match parse_id(m.ephem_pub.as_str()) {
            Some(peer) => Ok(start_session(e, &peer, false)),
            None => Err(Error::Handshake("bad client ephem_pub".to_owned())),
        },
        _ => Err(Error::Handshake("expected CLIENT_HELLO".to_owned())),
    }
}

/// The initiator's session, from what arrived where the challenge was awaited.
pub fn accept_challenge(e: &EphemeralKeypair, received: Received<PowChallenge>) -> (r: Result<
    Session,
    Error,
>)
    ensures
        match received {
            Received::Message(m) => match rotation::id_in(m.server_ephem@) {
                Some(peer) => r matches Ok(s) && is_session_with(s, *e, peer, true),
                None => errors::is_handshake(r, "bad server ephem"@),
            },
            _ => errors::is_handshake(r, "expected POW_CHALLENGE"@),
        },
{
    match received {
        Received::Message(m) => match parse_id(m.server_ephem.as_str()) {
            Some(peer) => Ok(start_session(e, &peer, true)),
            None => Err(Error::Handshake("bad server ephem".to_owned())),
        },
        _ => Err(Error::Handshake("expected POW_CHALLENGE".to_owned())),
    }
}

/// What an end presents of itself.
pub fn introduce_self(cert: &str, pow: &AdmissionPoW, static_pub: &[u8; 32], listen_port: u16) -> (r:
    Introduction)
    ensures
        r.version == PROTOCOL_VERSION,
        r.cert@ == cert@,
        r.admission_pow == *pow,
        r.static_pub@ == text::hex_of(static_pub@),
        r.listen_port == listen_port,
{
    Introduction {
        version: PROTOCOL_VERSION,
        cert: cert.to_owned(),
        admission_pow: AdmissionPoW {
            hash: pow.hash.clone(),
            salt: pow.salt.clone(),
            m_cost: pow.m_cost,
            t_cost: pow.t_cost,
            p_cost: pow.p_cost,
        },
        static_pub: hex_encode(static_pub),
        listen_port,
    }
}

/// A peer that was turned away.
#[derive(Debug)]
pub struct Refusal {
    /// What the peer is told, if anything.
    pub reason: Option<&'static str>,
    /// What is reported.
    pub error: Error,
}

/// `r` turns a peer away: it is told `reason`, and `text` is reported.
pub open spec fn refuses(
    r: Result<PeerInfo, Refusal>,
    reason: Option<Seq<char>>,
    text: Seq<char>,
) -> bool {
    match r {
        Ok(_) => false,
        Err(x) => {
            &&& (x.error matches Error::Handshake(m) && m@ == text)
            &&& match reason {
                Some(t) => x.reason matches Some(s) && s@ == t,
                None => x.reason is None,
            }
        },
    }
}

/// `p` is the peer with the identifier that introduced itself from `host`.
pub open spec fn is_peer(p: PeerInfo, id: [u8; 32], host: Seq<char>, port: u16, m: Introduction) -> bool {
    p.node_id == id && p.host@ == host && p.port == port && p.cert@ == m.cert@ && p.static_pub@
        == m.static_pub@
}

/// `r` is the responder's verdict on what arrived where the initiator was to present
/// itself from the address `host`.
pub open spec fn judged(
    r: Result<PeerInfo, Refusal>,
    received: Received<Introduction>,
    presented: Presented,
    host: Seq<char>,
) -> bool {
    match received {
        Received::TimedOut => refuses(r, None, "timeout"@),
        Received::Message(m) => match presented {
            Presented::Unreadable(e) => refuses(r, None, "cert: "@ + e@),
            Presented::Unsound(_) => refuses(r, Some("invalid cert"@), "invalid cert"@),
            Presented::Sound(cert, id) => if pow::admits(cert, m.admission_pow) {
                r matches Ok(p) && is_peer(p, id, host, m.listen_port, m)
            } else {
                refuses(r, Some("invalid pow"@), "invalid PoW"@)
            },
        },
        _ => refuses(r, None, "expected HANDSHAKE"@),
    }
}

fn refuse(reason: Option<&'static str>, text: String) -> (r: Result<PeerInfo, Refusal>)
    ensures
        refuses(
            r,
            match reason {
                Some(s) => Some(s@),
                None => None,
            },
            text@,
        ),
{
    Err(Refusal { reason, error: Error::Handshake(text) })
}

/// The responder's verdict on an initiator that presents itself from the address
/// `host`, with a certificate that turned out to be `presented`.
pub fn judge_initiator(received: Received<Introduction>, presented: Presented, host: &str) -> (r: Result<
    PeerInfo,
    Refusal,
>)
    ensures
        judged(r, received, presented, host@),
{
    match received {
        Received::TimedOut => refuse(None, "timeout".to_owned()),
        Received::Message(m) => match presented {
            Presented::Unreadable(e) => refuse(None, join2("cert: ", e.as_str())),
            Presented::Unsound(_) => refuse(Some("invalid cert"), "invalid cert".to_owned()),
            Presented::Sound(cert, id) => {
                if verify_admission(&cert, &m.admission_pow) {
                    Ok(
                        PeerInfo {
                            node_id: id,
                            host: host.to_owned(),
                            port: m.listen_port,
                            cert: m.cert,
                            static_pub: m.static_pub,
                        },
                    )
                } else {
                    refuse(Some("invalid pow"), "invalid PoW".to_owned())
                }
            },
        },
        _ => refuse(None, "expected HANDSHAKE".to_owned()),
    }
}

/// The initiator's verdict on what arrived where the responder was to present itself.
/// `identity` is the identifier in the responder's certificate, or why it cannot be
/// read.
pub fn judge_responder(
    received: Received<Introduction>,
    identity: Result<[u8; 32], Error>,
    host: &str,
    port: u16,
) -> (r: Result<PeerInfo, Error>)
    ensures
        match received {
            Received::TimedOut => errors::is_handshake(r, "timeout"@),
            Received::Rejected(reason) => errors::is_handshake(r, reason@),
            Received::Other => errors::is_handshake(r, "expected ACK"@),
            Received::Message(m) => match identity {
                Err(e) => r == Err::<PeerInfo, Error>(e),
                Ok(id) => r matches Ok(p) && is_peer(p, id, host@, port, m),
            },
        },
{
    match received {
        Received::TimedOut => Err(Error::Handshake("timeout".to_owned())),
        Received::Rejected(reason) => Err(Error::Handshake(reason)),
        Received::Other => Err(Error::Handshake("expected ACK".to_owned())),
        Received::Message(m) => match identity {
            Err(e) => Err(e),
            Ok(id) => Ok(
                PeerInfo {
                    node_id: id,
                    host: host.to_owned(),
                    port,
                    cert: m.cert,
                    static_pub: m.static_pub,
                },
            ),
        },
    }
}

/// The node that answers at a peer's address is the peer.
pub open spec fn is_itself(peer: PeerInfo, answered: Option<[u8; 32]>) -> bool {
    answered matches Some(id) && id@ == peer.node_id@
}

/// Whether the node that answers at a peer's address is the peer.
pub fn answers_as_itself(peer: &PeerInfo, answered: Option<[u8; 32]>) -> (r: bool)
    ensures
        r == is_itself(*peer, answered),
{
    match answered {
        Some(id) => bytes_eq(&id, &peer.node_id),
        None => false,
    }
}

/// Those of the peers that answered a probe as themselves, in order. The answers are
/// in the order of the peers; a peer without one did not answer.
pub open spec fn verified(peers: Seq<PeerInfo>, answers: Seq<Option<[u8; 32]>>) -> Seq<PeerInfo>
    decreases peers.len(),
{
    if peers.len() == 0 {
        Seq::empty()
    } else {
        let rest = verified(peers.drop_last(), answers);
        if peers.len() <= answers.len() && is_itself(peers.last(), answers[peers.len() - 1]) {
            rest.push(peers.last())
        } else {
            rest
        }
    }
}

/// The two ends of a handshake share a link: what one seals the other opens.
pub proof fn law_the_two_ends_are_linked(
    a: Session,
    b: Session,
    initiator: EphemeralKeypair,
    responder: EphemeralKeypair,
)
    requires
        initiator.wf(),
        responder.wf(),
        is_session_with(a, initiator, responder.public_half(), true),
        is_session_with(b, responder, initiator.public_half(), false),
    ensures
        a.linked_to(b),
        b.linked_to(a),
{
    let shared = crypto::x25519_of(responder.secret_bytes(), initiator.public_half());
    assert(a.derived_from(shared, true));
    Session::law_one_secret_links_both_ends(a, b, shared);
}

/// The halves of the key exchange survive the wire: what the responder opens with is
/// what the initiator derives its session from, and the other way round.
pub proof fn law_halves_are_read_back(half: Seq<u8>)
    requires
        half.len() == 32,
    ensures
        rotation::id_in(text::hex_of(half)) == Some(half),
{
    text::lemma_hex_roundtrip(half);
}

/// Nobody is let in without a sound certificate and a proof of work that admits it.
pub proof fn law_admission_is_earned(
    r: Result<PeerInfo, Refusal>,
    received: Received<Introduction>,
    presented: Presented,
    host: Seq<char>,
)
    requires
        judged(r, received, presented, host),
        r is Ok,
    ensures
        received matches Received::Message(m) && (presented matches Presented::Sound(cert, id)
            && pow::admits(cert, m.admission_pow) && r->Ok_0.node_id == id),
{
}

/// Two nodes that shake hands are linked: each reads the other's half from its greeting,
/// and what one then sends the other can read.
pub proof fn law_greetings_link_the_nodes(
    initiator: EphemeralKeypair,
    responder: EphemeralKeypair,
    challenge: &[u8; 32],
    opened: PowChallenge,
    hello: ClientHello,
    a: Result<Session, Error>,
    b: Result<Session, Error>,
)
    requires
        initiator.wf(),
        responder.wf(),
        initiator.public_half().len() == 32,
        responder.public_half().len() == 32,
        call_ensures(open_challenge, (challenge, &responder), opened),
        call_ensures(client_hello, (&initiator,), hello),
        call_ensures(accept_challenge, (&initiator, Received::Message(opened)), a),
        call_ensures(accept_hello, (&responder, Received::Message(hello)), b),
    ensures
        a is Ok && b is Ok,
        a->Ok_0.linked_to(b->Ok_0) && b->Ok_0.linked_to(a->Ok_0),
        text::unhex(opened.challenge@) == challenge@,
        opened.min_bits == 256,
{
    law_halves_are_read_back(initiator.public_half());
    law_halves_are_read_back(responder.public_half());
    text::lemma_hex_roundtrip(challenge@);
    law_the_two_ends_are_linked(a->Ok_0, b->Ok_0, initiator, responder);
}

/// A greeting that does not come, or is another message, ends the handshake at either end.
pub proof fn law_no_greeting_no_session(
    e: EphemeralKeypair,
    why: String,
    a: Result<Session, Error>,
    b: Result<Session, Error>,
    c: Result<Session, Error>,
    d: Result<Session, Error>,
)
    requires
        call_ensures(accept_hello, (&e, Received::TimedOut), a),
        call_ensures(accept_hello, (&e, Received::Rejected(why)), b),
        call_ensures(accept_challenge, (&e, Received::TimedOut), c),
        call_ensures(accept_challenge, (&e, Received::Other), d),
    ensures
        a is Err && b is Err && c is Err && d is Err,
        a->Err_0 is Handshake && c->Err_0 is Handshake,
{
}

/// A node that introduces itself with a sound certificate and the work done for it is let
/// in, under the identity of the certificate, at the host it came from and the port and the
/// key it names; any other is refused, and told why where its certificate or its work is at
/// fault.
pub proof fn law_who_is_let_in(
    cert: &str,
    pow: &AdmissionPoW,
    key: &[u8; 32],
    port: u16,
    m: Introduction,
    presented: Presented,
    host: &str,
    r: Result<PeerInfo, Refusal>,
)
    requires
        call_ensures(introduce_self, (cert, pow, key, port), m),
        call_ensures(judge_initiator, (Received::Message(m), presented, host), r),
    ensures
        m.version == 2,
        r is Ok <==> (presented matches Presented::Sound(c, _) && pow::admits(c, *pow)),
        r is Ok ==> r->Ok_0.node_id == presented->Sound_1 && r->Ok_0.host@ == host@ && r->Ok_0.port == port
            && r->Ok_0.cert@ == cert@ && text::unhex(r->Ok_0.static_pub@) == key@,
        r is Err && !(presented is Unreadable) ==> r->Err_0.reason is Some,
        presented is Unreadable ==> r is Err && r->Err_0.reason is None,
{
    text::lemma_hex_roundtrip(key@);
}

/// The node that was dialled is known by the identity of its certificate, at the address
/// that was dialled; one that refuses is not linked, and its reason is handed on.
pub proof fn law_who_was_dialled(
    m: Introduction,
    id: [u8; 32],
    e: Error,
    host: &str,
    port: u16,
    r: Result<PeerInfo, Error>,
    unsound: Result<PeerInfo, Error>,
    why: String,
    refused: Result<PeerInfo, Error>,
)
    requires
        call_ensures(judge_responder, (Received::Message(m), Ok(id), host, port), r),
        call_ensures(judge_responder, (Received::Message(m), Err(e), host, port), unsound),
        call_ensures(judge_responder, (Received::Rejected(why), Ok(id), host, port), refused),
    ensures
        r is Ok && r->Ok_0.node_id == id && r->Ok_0.host@ == host@ && r->Ok_0.port == port && r->Ok_0.static_pub@
            == m.static_pub@,
        unsound == Err::<PeerInfo, Error>(e),
        refused is Err && (refused->Err_0 matches Error::Handshake(t) && t@ == why@),
{
}

/// A peer answers as itself exactly where the identity that answered is its own.
pub proof fn law_peers_answer_as_themselves(peer: &PeerInfo, id: [u8; 32], r: bool, silent: bool)
    requires
        call_ensures(answers_as_itself, (peer, Some(id)), r),
        call_ensures(answers_as_itself, (peer, None), silent),
    ensures
        r <==> id@ == peer.node_id@,
        !silent,
{
}

/// A node that is not let in is told whether its certificate or its work was at fault.
pub proof fn law_what_a_refused_node_is_told(
    m: Introduction,
    cert: PhiCert,
    id: [u8; 32],
    host: &str,
    unsound: Result<PeerInfo, Refusal>,
    idle: Result<PeerInfo, Refusal>,
)
    requires
        call_ensures(judge_initiator, (Received::Message(m), Presented::Unsound(cert), host), unsound),
        !pow::admits(cert, m.admission_pow),
        call_ensures(judge_initiator, (Received::Message(m), Presented::Sound(cert, id), host), idle),
    ensures
        unsound is Err && (unsound->Err_0.reason matches Some(s) && s@ == "invalid cert"@),
        idle is Err && (idle->Err_0.reason matches Some(s) && s@ == "invalid pow"@),
{
}

} // verus!
