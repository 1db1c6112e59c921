//! How clients and hidden services meet at a rendezvous point.

use crate::bytes;
use crate::circuit::LinkSpec;
use crate::crypto;
use crate::crypto::{random_32, x25519_public};
use crate::errors;
use crate::errors::Error;
use crate::node::{HsRendezvousIntent, MAX_PENDING_RENDEZVOUS, PendingRendezvous, PhiNode};
use crate::peers::PeerConn;
use crate::rendezvous;
use crate::rendezvous::{E2EKeys, INTRO1_PLAINTEXT_LEN, Introduce, IntroducePlaintext, Rendezvous1, Rendezvous2, client_finalize, fresh_cookie, hs_finalize};
use crate::rotation;
use crate::rotation::parse_id;
use crate::timing::ct_eq_20;
use crate::text;
use vstd::prelude::*;
use vstd::string::*;
use vstd::utf8::*;

verus! {

/// What the introduction in `data` says to the service with the key pair.
pub open spec fn introduction_text(data: Seq<u8>, b_secret: Seq<u8>, b: Seq<u8>) -> Option<Seq<u8>> {
    match rendezvous::introduce_parsed(data) {
        Ok((key, x, sealed, mac)) => {
            let keys = rendezvous::intro_keys(crypto::x25519_of(b_secret, x), x, b);
            if mac == rendezvous::intro_mac(keys, key, x, sealed) {
                let t = rendezvous::intro_sealed(keys, sealed);
                if t.len() >= INTRO1_PLAINTEXT_LEN {
                    Some(t)
                } else {
                    None
                }
            } else {
                None
            }
        },
        Err(_) => None,
    }
}

/// `i` answers the introduction `text` of the client with the ephemeral key `x`: it
/// names the client's rendezvous point and cookie, and its handshake is one of the
/// service with the key pair.
pub open spec fn answers(
    i: HsRendezvousIntent,
    text: Seq<u8>,
    x: Seq<u8>,
    b_secret: Seq<u8>,
    b: Seq<u8>,
) -> bool {
    &&& exists|p: IntroducePlaintext| #[trigger]
        rendezvous::intro_plaintext_read(text, p) && i.rp_node_id == p.rp_node_id && i.rp_host
            == p.rp_host && i.rp_port == p.rp_port && i.cookie == p.cookie
    &&& exists|y: Seq<u8>|
        y.len() == 32 && #[trigger] rendezvous::hs_result(
            b_secret,
            b,
            x,
            y,
            i.e2e_keys,
            i.server_y@,
            i.auth@,
        )
    &&& rendezvous::e2e_agrees(b_secret, b, x, i.server_y@, i.auth@, i.e2e_keys)
}

impl PhiNode {
    /// Takes an introduction as the service that it is for: opens it, makes the
    /// service's half of the handshake and queues the rendezvous. Introductions that
    /// cannot be opened, and those that the queue has no room for, are dropped.
    pub fn handle_introduce2(&mut self, data: &[u8]) -> (r: bool)
        requires
            old(self).wf(),
        ensures
            final(self).wf(),
            *final(self) == (PhiNode {
                hs_pending_rendezvous: final(self).hs_pending_rendezvous,
                ..*old(self)
            }),
            ({
                let t = introduction_text(
                    data@,
                    old(self).keypair.secret@,
                    old(self).keypair.public@,
                );
                let before = old(self).hs_pending_rendezvous@;
                let after = final(self).hs_pending_rendezvous@;
                &&& r == (t is Some && before.len() < MAX_PENDING_RENDEZVOUS)
                &&& if r {
                    after.len() == before.len() + 1 && after.drop_last() == before && answers(
                        after.last(),
                        t->0,
                        data@.subrange(32, 64),
                        old(self).keypair.secret@,
                        old(self).keypair.public@,
                    )
                } else {
                    after == before
                }
            }),
            r ==> exists|y: Seq<u8>|
                crypto::is_random(y) && #[trigger] rendezvous::hs_result(
                    old(self).keypair.secret@,
                    old(self).keypair.public@,
                    data@.subrange(32, 64),
                    y,
                    final(self).hs_pending_rendezvous@.last().e2e_keys,
                    final(self).hs_pending_rendezvous@.last().server_y@,
                    final(self).hs_pending_rendezvous@.last().auth@,
                ),
    {
        let intro: Introduce = match Introduce::decode(data) {
            Ok(i) => i,
            Err(_) => return false,
        };
        proof {
            bytes::lemma_pow256();
            bytes::lemma_be_value_bytes(data@.subrange(64, 66));
        }
        let plain: IntroducePlaintext = match intro.open_at_hs(
            &self.keypair.secret,
            &self.keypair.public,
        ) {
            Ok(p) => p,
            Err(_) => return false,
        };
        let ghost text = intro.opened(self.keypair.secret@, self.keypair.public@)->0;
        assert(introduction_text(data@, self.keypair.secret@, self.keypair.public@) == Some(text));
        if self.hs_pending_rendezvous.len() >= MAX_PENDING_RENDEZVOUS {
            return false;
        }
        let (e2e_keys, server_y, auth): (E2EKeys, [u8; 32], [u8; 32]) = hs_finalize(
            &self.keypair.secret,
            &self.keypair.public,
            &intro.client_ntor_x,
        );
        let ghost y = choose|y: Seq<u8>|
            y.len() == 32 && crypto::is_random(y) && #[trigger] rendezvous::hs_result(
                self.keypair.secret@,
                self.keypair.public@,
                intro.client_ntor_x@,
                y,
                e2e_keys,
                server_y@,
                auth@,
            );
        let ghost p0 = plain;
        let ghost before = self.hs_pending_rendezvous@;
        let intent: HsRendezvousIntent = HsRendezvousIntent {
            rp_node_id: plain.rp_node_id,
            rp_host: plain.rp_host,
            rp_port: plain.rp_port,
            cookie: plain.cookie,
            server_y,
            auth,
            e2e_keys,
        };
        assert(rendezvous::intro_plaintext_read(text, p0));
        assert(intro.client_ntor_x@ == data@.subrange(32, 64));
        assert(rendezvous::hs_result(
            self.keypair.secret@,
            self.keypair.public@,
            data@.subrange(32, 64),
            y,
            intent.e2e_keys,
            intent.server_y@,
            intent.auth@,
        ));
        assert(answers(
            intent,
            text,
            data@.subrange(32, 64),
            self.keypair.secret@,
            self.keypair.public@,
        ));
        let ghost i0 = intent;
        self.hs_pending_rendezvous.push(intent);
        assert(self.hs_pending_rendezvous@.last() == i0);
        assert(self.hs_pending_rendezvous@.drop_last() =~= before);
        true
    }

    /// The rendezvous that has waited longest.
    pub fn next_rendezvous(&mut self) -> (r: Option<HsRendezvousIntent>)
        requires
            old(self).wf(),
        ensures
            final(self).wf(),
            *final(self) == (PhiNode {
                hs_pending_rendezvous: final(self).hs_pending_rendezvous,
                ..*old(self)
            }),
            match r {
                Some(i) => old(self).hs_pending_rendezvous@.len() > 0 && i
                    == old(self).hs_pending_rendezvous@[0] && final(self).hs_pending_rendezvous@
                    == old(self).hs_pending_rendezvous@.skip(1),
                None => old(self).hs_pending_rendezvous@.len() == 0
                    && final(self).hs_pending_rendezvous@ == old(self).hs_pending_rendezvous@,
            },
    {
        if self.hs_pending_rendezvous.len() == 0 {
            return None;
        }
        let ghost before = self.hs_pending_rendezvous@;
        let i: HsRendezvousIntent = self.hs_pending_rendezvous.remove(0);
        assert(self.hs_pending_rendezvous@ =~= before.skip(1));
        Some(i)
    }
}

/// How many milliseconds a service pauses when no rendezvous waits.
pub const IDLE_MILLIS: u64 = 1000;

/// How many milliseconds a service pauses around a dial.
pub const DIAL_MILLIS: u64 = 500;

/// What a service does next for a rendezvous.
#[derive(Debug)]
pub enum MeetStep {
    /// Dial the rendezvous point.
    Dial,
    /// Give up, after a pause of so many milliseconds.
    GiveUp(u64),
    /// Build a circuit to the rendezvous point.
    Build(LinkSpec),
}

/// The key that the peer with the identifier presented.
pub open spec fn peer_key(peers: Map<Seq<u8>, PeerConn>, id: Seq<u8>) -> Option<Seq<u8>> {
    if peers.contains_key(id) {
        rotation::id_in(peers[id].info.static_pub@)
    } else {
        None
    }
}

/// `r` is what a service does next for the rendezvous `i`: a rendezvous point that is
/// not linked is dialled once, and the circuit goes to it with the key that it
/// presented.
pub open spec fn meets(
    r: MeetStep,
    i: HsRendezvousIntent,
    peers: Map<Seq<u8>, PeerConn>,
    dialled: Option<bool>,
) -> bool {
    if peers.contains_key(i.rp_node_id@) && dialled != Some(false) {
        match peer_key(peers, i.rp_node_id@) {
            Some(k) => r matches MeetStep::Build(l) && l.host@ == i.rp_host@ && l.port == i.rp_port
                && l.node_id == i.rp_node_id && l.static_pub@ == k,
            None => r == MeetStep::GiveUp(0),
        }
    } else {
        match dialled {
            None => r is Dial,
            Some(false) => r == MeetStep::GiveUp(DIAL_MILLIS),
            Some(true) => r == MeetStep::GiveUp(0),
        }
    }
}

impl PhiNode {
    /// What a service does next for a rendezvous. `dialled` says whether the dial
    /// succeeded, if one was made.
    pub fn meet_step(&self, i: &HsRendezvousIntent, dialled: Option<bool>) -> (r: MeetStep)
        requires
            self.wf(),
        ensures
            meets(r, *i, self.peers@, dialled),
    {
        match dialled {
            Some(false) => return MeetStep::GiveUp(DIAL_MILLIS),
            _ => {},
        }
        match self.peers.get(&i.rp_node_id) {
            Some(c) => match parse_id(c.info.static_pub.as_str()) {
                Some(static_pub) => MeetStep::Build(
                    LinkSpec {
                        host: i.rp_host.clone(),
                        port: i.rp_port,
                        node_id: i.rp_node_id,
                        static_pub,
                    },
                ),
                None => MeetStep::GiveUp(0),
            },
            None => match dialled {
                None => MeetStep::Dial,
                Some(_) => MeetStep::GiveUp(0),
            },
        }
    }
}

/// What a service sends to the rendezvous point.
pub fn rendezvous1_data(i: &HsRendezvousIntent) -> (r: Vec<u8>)
    ensures
        r@ == i.cookie@ + i.server_y@ + i.auth@,
{
    let m: Rendezvous1 = Rendezvous1 { cookie: i.cookie, server_y: i.server_y, auth: i.auth };
    m.encode()
}

/// `p` waits on the circuit for the service with the key.
pub open spec fn waits_for(p: PendingRendezvous, cid: u32, hs_static_pub: Seq<u8>) -> bool {
    p.cid == cid && p.hs_static_pub@ == hs_static_pub && p.client_x@ == crypto::x25519_public_of(
        p.client_sk@,
    )
}

/// Where the wait with the cookie stands in the list, its length when there is none.
pub open spec fn cookie_at(l: Seq<PendingRendezvous>, cookie: Seq<u8>) -> int
    decreases l.len(),
{
    if l.len() == 0 {
        0
    } else if l[0].cookie@ == cookie {
        0
    } else {
        1 + cookie_at(l.skip(1), cookie)
    }
}

/// Where the wait on the circuit stands in the list, its length when there is none.
pub open spec fn circuit_at(l: Seq<PendingRendezvous>, cid: u32) -> int
    decreases l.len(),
{
    if l.len() == 0 {
        0
    } else if l[0].cid == cid {
        0
    } else {
        1 + circuit_at(l.skip(1), cid)
    }
}

fn find_cookie(l: &[PendingRendezvous], cookie: &[u8; 20]) -> (r: usize)
    ensures
        r == cookie_at(l@, cookie@),
        r <= l@.len(),
{
    let mut i: usize = 0;
    assert(l@.skip(0) =~= l@);
    while i < l.len()
        invariant
            i <= l@.len(),
            cookie_at(l@, cookie@) == i + cookie_at(l@.skip(i as int), cookie@),
        decreases l@.len() - i,
    {
        assert(l@.skip(i as int)[0] == l@[i as int]);
        assert(l@.skip(i as int).skip(1) =~= l@.skip(i + 1));
        if ct_eq_20(&l[i].cookie, cookie) {
            return i;
        }
        i += 1;
    }
    i
}

fn find_circuit(l: &[PendingRendezvous], cid: u32) -> (r: usize)
    ensures
        r == circuit_at(l@, cid),
        r <= l@.len(),
        r < l@.len() ==> l@[r as int].cid == cid,
{
    let mut i: usize = 0;
    assert(l@.skip(0) =~= l@);
    while i < l.len()
        invariant
            i <= l@.len(),
            circuit_at(l@, cid) == i + circuit_at(l@.skip(i as int), cid),
        decreases l@.len() - i,
    {
        assert(l@.skip(i as int)[0] == l@[i as int]);
        assert(l@.skip(i as int).skip(1) =~= l@.skip(i + 1));
        if l[i].cid == cid {
            return i;
        }
        i += 1;
    }
    i
}

/// What a client does when the service's half of the handshake arrives.
pub enum Met {
    /// Nothing.
    Ignored,
    /// Use these keys on the circuit.
    Ready(E2EKeys),
    /// Tear the circuit down: the service did not prove who it is.
    Refused(Error),
}

/// `r` is what the client makes of the service's half of the handshake `data` on the
/// circuit, and `after` what it then waits for.
pub open spec fn met(
    r: Met,
    before: Seq<PendingRendezvous>,
    after: Seq<PendingRendezvous>,
    cid: u32,
    data: Seq<u8>,
) -> bool {
    let k = circuit_at(before, cid);
    if data.len() < 64 || k >= before.len() {
        r is Ignored && after == before
    } else {
        let p = before[k];
        &&& after == before.remove(k)
        &&& match rendezvous::client_e2e_result(
            p.client_sk@,
            p.client_x@,
            p.hs_static_pub@,
            data.subrange(0, 32),
            data.subrange(32, 64),
        ) {
            Some(km) => r matches Met::Ready(keys) && keys.cut_from(km),
            None => r matches Met::Refused(e) && e == Error::AuthFailed,
        }
    }
}

impl PhiNode {
    /// Starts to wait for a service at the end of a circuit: draws a cookie and an
    /// ephemeral key, and gives the cookie. The message to the rendezvous point is the
    /// cookie.
    pub fn await_service(&mut self, cid: u32, hs_static_pub: [u8; 32]) -> (r: [u8; 20])
        requires
            old(self).wf(),
        ensures
            final(self).wf(),
            *final(self) == (PhiNode {
                pending_rendezvous: final(self).pending_rendezvous,
                ..*old(self)
            }),
            final(self).pending_rendezvous@.len() == old(self).pending_rendezvous@.len() + 1,
            final(self).pending_rendezvous@.drop_last() == old(self).pending_rendezvous@,
            final(self).pending_rendezvous@.last().cookie == r,
            waits_for(final(self).pending_rendezvous@.last(), cid, hs_static_pub@),
            crypto::is_random(r@),
            crypto::is_random(final(self).pending_rendezvous@.last().client_sk@),
    {
        let cookie: [u8; 20] = fresh_cookie();
        let client_sk: [u8; 32] = random_32();
        let client_x: [u8; 32] = x25519_public(&client_sk);
        let ghost before = self.pending_rendezvous@;
        self.pending_rendezvous.push(
            PendingRendezvous { cookie, cid, client_sk, client_x, hs_static_pub },
        );
        assert(self.pending_rendezvous@.drop_last() =~= before);
        cookie
    }

    /// The introduction to a service, under the ephemeral key of the wait with the
    /// cookie.
    pub fn introduce1_data(
        &self,
        hs_static_pub: &[u8; 32],
        auth_key_pub: &[u8; 32],
        rp_node_id: [u8; 32],
        rp_host: String,
        rp_port: u16,
        cookie: [u8; 20],
    ) -> (r: Result<Vec<u8>, Error>)
        ensures
            ({
                let l = self.pending_rendezvous@;
                let k = cookie_at(l, cookie@);
                if k < l.len() {
                    r matches Ok(b) && introduces(
                        b@,
                        hs_static_pub@,
                        auth_key_pub@,
                        (IntroducePlaintext { rp_node_id, rp_host, rp_port, cookie }),
                        l[k].client_sk@,
                    )
                } else {
                    errors::is_handshake(
                        r,
                        "send_introduce1: no pending_rendezvous for this cookie — call establish_rendezvous_on first"@,
                    )
                }
            }),
    {
        let k: usize = find_cookie(&self.pending_rendezvous, &cookie);
        if k >= self.pending_rendezvous.len() {
            return Err(
                Error::Handshake(
                    "send_introduce1: no pending_rendezvous for this cookie — call establish_rendezvous_on first".to_owned(),
                ),
            );
        }
        let sk: [u8; 32] = self.pending_rendezvous[k].client_sk;
        let plain: IntroducePlaintext = IntroducePlaintext { rp_node_id, rp_host, rp_port, cookie };
        let (intro, _): (Introduce, [u8; 32]) = Introduce::build_for_hs_with_ephemeral(
            hs_static_pub,
            auth_key_pub,
            &plain,
            sk,
        );
        let b: Vec<u8> = intro.encode();
        assert(introduces(b@, hs_static_pub@, auth_key_pub@, plain, sk@)) by {
            assert(intro.built(hs_static_pub@, auth_key_pub@, plain.bytes(), sk@));
        }
        Ok(b)
    }

    /// Takes the service's half of the handshake on a circuit: the wait is over, and
    /// there are keys if the service proved who it is.
    pub fn handle_rendezvous2(&mut self, cid: u32, data: &[u8]) -> (r: Met)
        requires
            old(self).wf(),
        ensures
            final(self).wf(),
            *final(self) == (PhiNode {
                pending_rendezvous: final(self).pending_rendezvous,
                ..*old(self)
            }),
            met(
                r,
                old(self).pending_rendezvous@,
                final(self).pending_rendezvous@,
                cid,
                data@,
            ),
    {
        let m: Rendezvous2 = match Rendezvous2::decode(data) {
            Ok(m) => m,
            Err(_) => return Met::Ignored,
        };
        assert(m.server_y@ =~= data@.subrange(0, 32)) by {
            assert((m.server_y@ + m.auth@).subrange(0, 32) =~= m.server_y@);
            assert(data@.take(64).subrange(0, 32) =~= data@.subrange(0, 32));
        }
        assert(m.auth@ =~= data@.subrange(32, 64)) by {
            assert((m.server_y@ + m.auth@).subrange(32, 64) =~= m.auth@);
            assert(data@.take(64).subrange(32, 64) =~= data@.subrange(32, 64));
        }
        let k: usize = find_circuit(&self.pending_rendezvous, cid);
        if k >= self.pending_rendezvous.len() {
            return Met::Ignored;
        }
        let p: PendingRendezvous = self.pending_rendezvous.remove(k);
        match client_finalize(&p.client_sk, &p.client_x, &p.hs_static_pub, &m.server_y, &m.auth) {
            Ok(keys) => Met::Ready(keys),
            Err(e) => Met::Refused(e),
        }
    }
}

/// `b` is the introduction with the plaintext to the service with the key `hs`, under
/// the introduction key `auth_key` and the ephemeral secret `x`.
pub open spec fn introduces(
    b: Seq<u8>,
    hs: Seq<u8>,
    auth_key: Seq<u8>,
    p: IntroducePlaintext,
    x: Seq<u8>,
) -> bool {
    exists|i: Introduce| #[trigger]
        i.built(hs, auth_key, p.bytes(), x) && i.opens_to(hs, p.bytes()) && b
            == rendezvous::introduce_bytes(
            i.auth_key_pub@,
            i.client_ntor_x@,
            i.enc_payload@,
            i.mac@,
        )
}

/// A wait is over after one answer, whatever it was: a forged answer cannot be followed
/// by another try on the same cookie.
pub proof fn law_a_cookie_is_good_for_one_answer(
    r: Met,
    before: Seq<PendingRendezvous>,
    after: Seq<PendingRendezvous>,
    cid: u32,
    data: Seq<u8>,
)
    requires
        met(r, before, after, cid, data),
        forall|i: int, j: int|
            0 <= i < j < before.len() ==> (#[trigger] before[i]).cid != (#[trigger] before[j]).cid,
        !(r is Ignored),
    ensures
        forall|i: int| 0 <= i < after.len() ==> (#[trigger] after[i]).cid != cid,
{
    let k = circuit_at(before, cid);
    lemma_circuit_at(before, cid);
    assert forall|i: int| 0 <= i < after.len() implies (#[trigger] after[i]).cid != cid by {
        if i < k {
            assert(after[i] == before[i]);
        } else {
            assert(after[i] == before[i + 1]);
            assert(before[k].cid != before[i + 1].cid);
        }
    }
}

proof fn lemma_circuit_at(l: Seq<PendingRendezvous>, cid: u32)
    ensures
        0 <= circuit_at(l, cid) <= l.len(),
        circuit_at(l, cid) < l.len() ==> l[circuit_at(l, cid)].cid == cid,
        forall|i: int| 0 <= i < circuit_at(l, cid) ==> (#[trigger] l[i]).cid != cid,
    decreases l.len(),
{
    if l.len() > 0 && l[0].cid != cid {
        let t = l.skip(1);
        lemma_circuit_at(t, cid);
        assert forall|i: int| 0 <= i < circuit_at(l, cid) implies (#[trigger] l[i]).cid != cid by {
            if i > 0 {
                assert(t[i - 1] == l[i]);
            }
        }
    }
}

/// A service that answers an introduction is met by the client that made it: the client
/// accepts the handshake, and both have the same keys.
pub proof fn law_client_and_service_share_keys(
    i: HsRendezvousIntent,
    text: Seq<u8>,
    b_secret: Seq<u8>,
    b: Seq<u8>,
    r: Met,
    before: Seq<PendingRendezvous>,
    after: Seq<PendingRendezvous>,
    cid: u32,
)
    requires
        b == crypto::x25519_public_of(b_secret),
        circuit_at(before, cid) < before.len(),
        waits_for(before[circuit_at(before, cid)], cid, b),
        answers(i, text, before[circuit_at(before, cid)].client_x@, b_secret, b),
        met(r, before, after, cid, i.server_y@ + i.auth@),
    ensures
        r matches Met::Ready(k) && k.client_to_hs_key@ == i.e2e_keys.client_to_hs_key@
            && k.hs_to_client_key@ == i.e2e_keys.hs_to_client_key@ && k.c2h_digest_seed@
            == i.e2e_keys.c2h_digest_seed@ && k.h2c_digest_seed@ == i.e2e_keys.h2c_digest_seed@,
{
    let data = i.server_y@ + i.auth@;
    let p = before[circuit_at(before, cid)];
    lemma_circuit_at(before, cid);
    assert(data.subrange(0, 32) =~= i.server_y@);
    assert(data.subrange(32, 64) =~= i.auth@);
    assert(rendezvous::e2e_agrees(b_secret, b, p.client_x@, i.server_y@, i.auth@, i.e2e_keys));
}

/// A client that waits on a circuit and a service that answers its introduction meet: what
/// the service sends to the rendezvous point is its cookie and its half of the handshake,
/// and with that half the client has the service's keys.
pub proof fn law_a_meeting_gives_both_the_same_keys(
    client: PhiNode,
    met: PhiNode,
    i: HsRendezvousIntent,
    sent: Vec<u8>,
    half: &[u8],
    cid: u32,
    r: Met,
    text: Seq<u8>,
    b_secret: Seq<u8>,
)
    requires
        call_ensures(rendezvous1_data, (&i,), sent),
        half@ == sent@.skip(20),
        exists|n: &mut PhiNode|
            *n == client && *final(n) == met && #[trigger] call_ensures(
                PhiNode::handle_rendezvous2,
                (n, cid, half),
                r,
            ),
        circuit_at(client.pending_rendezvous@, cid) < client.pending_rendezvous@.len(),
        waits_for(
            client.pending_rendezvous@[circuit_at(client.pending_rendezvous@, cid)],
            cid,
            crypto::x25519_public_of(b_secret),
        ),
        answers(
            i,
            text,
            client.pending_rendezvous@[circuit_at(client.pending_rendezvous@, cid)].client_x@,
            b_secret,
            crypto::x25519_public_of(b_secret),
        ),
    ensures
        sent@.take(20) == i.cookie@,
        r matches Met::Ready(k) && k.client_to_hs_key@ == i.e2e_keys.client_to_hs_key@ && k.hs_to_client_key@
            == i.e2e_keys.hs_to_client_key@,
        met.pending_rendezvous@.len() + 1 == client.pending_rendezvous@.len(),
{
    assert(sent@.take(20) =~= i.cookie@);
    assert(half@ =~= i.server_y@ + i.auth@);
    let before = client.pending_rendezvous@;
    lemma_circuit_at(before, cid);
    law_client_and_service_share_keys(
        i,
        text,
        b_secret,
        crypto::x25519_public_of(b_secret),
        r,
        before,
        met.pending_rendezvous@,
        cid,
    );
}

/// Introductions are answered in the order in which they came, and no more than the node
/// keeps room for wait at once.
pub proof fn law_introductions_are_answered_in_turn(
    n: PhiNode,
    taken: PhiNode,
    data: &[u8],
    r: bool,
    after: PhiNode,
    next: Option<HsRendezvousIntent>,
)
    requires
        exists|x: &mut PhiNode|
            *x == n && *final(x) == taken && #[trigger] call_ensures(PhiNode::handle_introduce2, (x, data), r),
        exists|x: &mut PhiNode|
            *x == taken && *final(x) == after && #[trigger] call_ensures(PhiNode::next_rendezvous, (x,), next),
    ensures
        !r ==> taken.hs_pending_rendezvous@ == n.hs_pending_rendezvous@,
        r ==> taken.hs_pending_rendezvous@.len() == n.hs_pending_rendezvous@.len() + 1,
        n.hs_pending_rendezvous@.len() > 0 ==> next == Some(n.hs_pending_rendezvous@[0]),
        n.hs_pending_rendezvous@.len() == 0 && r ==> next == Some(taken.hs_pending_rendezvous@[0])
            && after.hs_pending_rendezvous@.len() == 0,
        n.hs_pending_rendezvous@.len() == 0 && !r ==> next is None,
        n.hs_pending_rendezvous@.len() >= MAX_PENDING_RENDEZVOUS ==> !r,
{
    if r && n.hs_pending_rendezvous@.len() > 0 {
        assert(taken.hs_pending_rendezvous@.drop_last()[0] == taken.hs_pending_rendezvous@[0]);
    }
}

/// A rendezvous point that is linked, with a key that can be read, is met there; one that
/// is not is dialled once. After a dial that failed half a second passes before the next
/// meeting, after one that reached somebody else none does.
pub proof fn law_rendezvous_points_are_dialled_once(
    n: PhiNode,
    i: &HsRendezvousIntent,
    dialled: Option<bool>,
    r: MeetStep,
)
    requires
        call_ensures(PhiNode::meet_step, (&n, i, dialled), r),
    ensures
        r is Dial <==> dialled is None && !n.peers@.contains_key(i.rp_node_id@),
        dialled == Some(false) ==> r == MeetStep::GiveUp(500),
        dialled == Some(true) && !n.peers@.contains_key(i.rp_node_id@) ==> r == MeetStep::GiveUp(0),
        r is Build <==> n.peers@.contains_key(i.rp_node_id@) && dialled != Some(false) && rotation::id_in(
            n.peers@[i.rp_node_id@].info.static_pub@,
        ) is Some,
        r is Build ==> r->Build_0.node_id@ == i.rp_node_id@ && r->Build_0.host@ == i.rp_host@ && r->Build_0.port
            == i.rp_port && text::hex_of(r->Build_0.static_pub@) == text::lowered(
            n.peers@[i.rp_node_id@].info.static_pub@,
        ),
{
    if r is Build {
        text::lemma_unhex_lowered(n.peers@[i.rp_node_id@].info.static_pub@);
    }
}

/// A client waits under a cookie and a key that were drawn for it, on the circuit it named,
/// and the waits before it stay; its introduction is then made with that key.
pub proof fn law_a_client_waits_under_fresh_secrets(n: PhiNode, after: PhiNode, cid: u32, key: [u8; 32], cookie: [u8; 20])
    requires
        exists|x: &mut PhiNode|
            *x == n && *final(x) == after && #[trigger] call_ensures(PhiNode::await_service, (x, cid, key), cookie),
    ensures
        crypto::is_random(cookie@),
        ({
            let p = after.pending_rendezvous@.last();
            &&& p.cookie@ == cookie@
            &&& p.cid == cid
            &&& p.hs_static_pub@ == key@
            &&& crypto::is_random(p.client_sk@)
            &&& p.client_x@ == crypto::x25519_public_of(p.client_sk@)
        }),
        after.pending_rendezvous@.len() == n.pending_rendezvous@.len() + 1,
        forall|i: int|
            0 <= i < n.pending_rendezvous@.len() ==> #[trigger] after.pending_rendezvous@[i]
                == n.pending_rendezvous@[i],
{
    assert forall|i: int| 0 <= i < n.pending_rendezvous@.len() implies #[trigger] after.pending_rendezvous@[i]
        == n.pending_rendezvous@[i] by {
        assert(after.pending_rendezvous@.drop_last()[i] == n.pending_rendezvous@[i]);
    }
}

/// From the client's wait to the keys of both ends: the introduction that the client makes
/// for its cookie is taken by the service, as long as it has room, and answered for the
/// rendezvous point and the cookie that the client named.
pub proof fn law_an_introduction_is_answered(
    client: PhiNode,
    service: PhiNode,
    after: PhiNode,
    k: int,
    node: [u8; 32],
    host: String,
    port: u16,
    data: Vec<u8>,
    buf: &[u8],
    r: bool,
)
    requires
        service.wf(),
        0 <= k < client.pending_rendezvous@.len(),
        cookie_at(client.pending_rendezvous@, client.pending_rendezvous@[k].cookie@) == k,
        waits_for(client.pending_rendezvous@[k], client.pending_rendezvous@[k].cid, service.keypair.public@),
        encode_utf8(host@).len() <= 20,
        forall|i: int| 0 <= i < encode_utf8(host@).len() ==> encode_utf8(host@)[i] != 0,
        call_ensures(
            PhiNode::introduce1_data,
            (
                &client,
                &service.keypair.public,
                &service.keypair.public,
                node,
                host,
                port,
                client.pending_rendezvous@[k].cookie,
            ),
            Ok(data),
        ),
        buf@ == data@,
        exists|x: &mut PhiNode|
            *x == service && *final(x) == after && #[trigger] call_ensures(PhiNode::handle_introduce2, (x, buf), r),
    ensures
        r <==> service.hs_pending_rendezvous@.len() < 64,
        r ==> ({
            let i = after.hs_pending_rendezvous@.last();
            &&& i.cookie@ == client.pending_rendezvous@[k].cookie@
            &&& i.rp_node_id@ == node@
            &&& i.rp_host@ == host@
            &&& i.rp_port == port
            &&& rendezvous::e2e_agrees(
                service.keypair.secret@,
                service.keypair.public@,
                client.pending_rendezvous@[k].client_x@,
                i.server_y@,
                i.auth@,
                i.e2e_keys,
            )
        }),
{
    let w = client.pending_rendezvous@[k];
    let hs = service.keypair.public@;
    let p = IntroducePlaintext { rp_node_id: node, rp_host: host, rp_port: port, cookie: w.cookie };
    assert(introduces(data@, hs, hs, p, w.client_sk@));
    let m = choose|m: Introduce| #[trigger]
        m.built(hs, hs, p.bytes(), w.client_sk@) && m.opens_to(hs, p.bytes()) && data@ == rendezvous::introduce_bytes(
            m.auth_key_pub@,
            m.client_ntor_x@,
            m.enc_payload@,
            m.mac@,
        );
    bytes::lemma_be_bytes_len(port as nat, 2);
    assert(p.bytes().len() == 74);
    rendezvous::law_introduce_roundtrip(m.auth_key_pub@, m.client_ntor_x@, m.enc_payload@, m.mac@, Seq::empty());
    assert(data@ + Seq::<u8>::empty() =~= data@);
    let secret = service.keypair.secret@;
    assert(m.opened(secret, hs) == Some(p.bytes()));
    assert(introduction_text(buf@, secret, hs) == Some(p.bytes()));
    assert(buf@.subrange(32, 64) =~= m.client_ntor_x@);
    if r {
        let i = after.hs_pending_rendezvous@.last();
        let q = choose|q: IntroducePlaintext| #[trigger]
            rendezvous::intro_plaintext_read(p.bytes(), q) && i.rp_node_id == q.rp_node_id && i.rp_host == q.rp_host
                && i.rp_port == q.rp_port && i.cookie == q.cookie;
        rendezvous::law_intro_plaintext_roundtrip(p, q);
    }
}

/// An introduction is made only under a cookie that somebody waits with.
pub proof fn law_introductions_need_a_wait(
    n: PhiNode,
    hs: &[u8; 32],
    auth: &[u8; 32],
    node: [u8; 32],
    host: String,
    port: u16,
    cookie: [u8; 20],
    r: Result<Vec<u8>, Error>,
)
    requires
        call_ensures(PhiNode::introduce1_data, (&n, hs, auth, node, host, port, cookie), r),
        forall|i: int| 0 <= i < n.pending_rendezvous@.len() ==> (#[trigger] n.pending_rendezvous@[i]).cookie@ != cookie@,
    ensures
        r is Err && r->Err_0 is Handshake,
{
    lemma_no_cookie(n.pending_rendezvous@, cookie@);
}

proof fn lemma_no_cookie(l: Seq<PendingRendezvous>, cookie: Seq<u8>)
    requires
        forall|i: int| 0 <= i < l.len() ==> (#[trigger] l[i]).cookie@ != cookie,
    ensures
        cookie_at(l, cookie) == l.len(),
    decreases l.len(),
{
    if l.len() > 0 {
        assert(l[0].cookie@ != cookie);
        assert forall|i: int| 0 <= i < l.skip(1).len() implies (#[trigger] l.skip(1)[i]).cookie@ != cookie by {
            assert(l.skip(1)[i] == l[i + 1]);
        }
        lemma_no_cookie(l.skip(1), cookie);
    }
}

/// What comes on a circuit that nobody waits on, or is too short, is ignored, and every wait
/// stays.
pub proof fn law_unexpected_answers_are_ignored(n: PhiNode, after: PhiNode, cid: u32, data: &[u8], r: Met)
    requires
        exists|x: &mut PhiNode|
            *x == n && *final(x) == after && #[trigger] call_ensures(PhiNode::handle_rendezvous2, (x, cid, data), r),
        data@.len() < 64 || forall|i: int|
            0 <= i < n.pending_rendezvous@.len() ==> (#[trigger] n.pending_rendezvous@[i]).cid != cid,
    ensures
        r is Ignored,
        after.pending_rendezvous@ == n.pending_rendezvous@,
{
    if data@.len() >= 64 {
        lemma_no_circuit(n.pending_rendezvous@, cid);
    }
}

proof fn lemma_no_circuit(l: Seq<PendingRendezvous>, cid: u32)
    requires
        forall|i: int| 0 <= i < l.len() ==> (#[trigger] l[i]).cid != cid,
    ensures
        circuit_at(l, cid) == l.len(),
    decreases l.len(),
{
    if l.len() > 0 {
        assert(l[0].cid != cid);
        assert forall|i: int| 0 <= i < l.skip(1).len() implies (#[trigger] l.skip(1)[i]).cid != cid by {
            assert(l.skip(1)[i] == l[i + 1]);
        }
        lemma_no_circuit(l.skip(1), cid);
    }
}

} // verus!
