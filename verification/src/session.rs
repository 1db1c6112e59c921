//! Sessions between two linked peers, and padding cells.

use crate::bytes;
use crate::bytes::{append, array_16, array_32, bytes_before};
use crate::crypto;
use crate::crypto::{aead_decrypt, aead_encrypt, fresh_bytes, hkdf_derive, random_32, x25519, x25519_public};
use crate::errors::Error;
use vstd::prelude::*;
use vstd::string::*;

verus! {

/// Length of a padding cell.
pub const CELL_SIZE: usize = 512;

/// One end of an encrypted link. Each direction has its own key and counter;
/// every message is bound to the session and to the end that sent it.
pub struct Session {
    send_key: [u8; 32],
    recv_key: [u8; 32],
    send_nonce: u64,
    recv_nonce: u64,
    session_id: [u8; 16],
    is_initiator: bool,
}

/// The key material of a session: the initiator's sending key, then its
/// receiving key.
pub open spec fn session_keys(shared: Seq<u8>) -> Seq<u8> {
    crypto::hkdf_of(shared, "phinet-session-v2".spec_bytes(), "keys".spec_bytes(), 64)
}

/// The identifier of the session with the shared secret `shared`.
pub open spec fn session_id_of(shared: Seq<u8>) -> Seq<u8> {
    crypto::hkdf_of(shared, "phinet-session-v2".spec_bytes(), "session-id".spec_bytes(), 16)
}

/// The associated data of a message: the session, and 0 when the initiator sent
/// it, 1 when the responder did.
pub open spec fn message_aad(id: Seq<u8>, from_initiator: bool) -> Seq<u8> {
    id.push(if from_initiator { 0u8 } else { 1u8 })
}

/// The nonce counter of a message: the 63 low-order bits count, the top bit
/// tells who sent it.
pub open spec fn message_nonce(counter: u64, from_initiator: bool) -> u64 {
    if from_initiator {
        (counter % 0x8000_0000_0000_0000) as u64
    } else {
        (counter % 0x8000_0000_0000_0000 + 0x8000_0000_0000_0000) as u64
    }
}

/// The counter after `n`, which begins again behind the last.
pub open spec fn counted(n: u64) -> u64 {
    if n == u64::MAX {
        0
    } else {
        (n + 1) as u64
    }
}

/// Messages of the two directions never share a nonce, whatever their counters.
pub proof fn law_directions_never_share_a_nonce(m: u64, n: u64)
    ensures
        message_nonce(m, true) != message_nonce(n, false),
{
}

/// The key under which linked peers authenticate a certificate rotation: from
/// both directions' keys, the smaller first.
pub open spec fn link_key_of(a: Seq<u8>, b: Seq<u8>) -> Seq<u8> {
    crypto::hkdf_of(
        if bytes::bytes_lt(a, b) { a + b } else { b + a },
        "phinet-cert-rotate-v1".spec_bytes(),
        "link".spec_bytes(),
        32,
    )
}

impl Session {
    /// The key of the messages this end sends.
    pub closed spec fn sending(self) -> Seq<u8> {
        self.send_key@
    }

    /// The key of the messages this end receives.
    pub closed spec fn receiving(self) -> Seq<u8> {
        self.recv_key@
    }

    /// How many messages this end has sent.
    pub closed spec fn sent(self) -> u64 {
        self.send_nonce
    }

    /// How many messages this end has tried to open.
    pub closed spec fn received(self) -> u64 {
        self.recv_nonce
    }

    /// The session's identifier.
    pub closed spec fn id(self) -> Seq<u8> {
        self.session_id@
    }

    /// This end opened the link.
    pub closed spec fn initiates(self) -> bool {
        self.is_initiator
    }

    /// This end's keys and identifier are those of the shared secret `shared`.
    pub open spec fn derived_from(self, shared: Seq<u8>, initiator: bool) -> bool {
        let km = session_keys(shared);
        &&& self.initiates() == initiator
        &&& self.id() == session_id_of(shared)
        &&& self.sending() == if initiator { km.subrange(0, 32) } else { km.subrange(32, 64) }
        &&& self.receiving() == if initiator { km.subrange(32, 64) } else { km.subrange(0, 32) }
    }

    /// `other` is the far end of this session.
    pub open spec fn linked_to(self, other: Session) -> bool {
        &&& self.sending() == other.receiving()
        &&& self.receiving() == other.sending()
        &&& self.id() == other.id()
        &&& self.initiates() != other.initiates()
    }

    /// What this end's next message would be sealed to.
    pub open spec fn sealed(self, text: Seq<u8>) -> Seq<u8> {
        crypto::seal_of(
            self.sending(),
            crypto::nonce_of(message_nonce(self.sent(), self.initiates())),
            message_aad(self.id(), self.initiates()),
            text,
        )
    }

    /// What this end makes of the next message it receives.
    pub open spec fn opened(self, sealed: Seq<u8>) -> Option<Seq<u8>> {
        crypto::open_of(
            self.receiving(),
            crypto::nonce_of(message_nonce(self.received(), !self.initiates())),
            message_aad(self.id(), !self.initiates()),
            sealed,
        )
    }

    /// This end and `other` differ in their counters alone.
    pub open spec fn same_link(self, other: Session) -> bool {
        &&& self.sending() == other.sending()
        &&& self.receiving() == other.receiving()
        &&& self.id() == other.id()
        &&& self.initiates() == other.initiates()
    }

    /// This end seals `text` to `message` and is then `after`. The far end, if it has tried
    /// as many messages as this end had sent, opens it to the same text.
    pub open spec fn sends(self, text: Seq<u8>, message: Seq<u8>, after: Session) -> bool {
        &&& message == self.sealed(text)
        &&& after.same_link(self)
        &&& after.sent() == counted(self.sent())
        &&& after.received() == self.received()
        &&& forall|far: Session|
            self.linked_to(far) && far.received() == self.sent() ==> #[trigger] far.opened(message)
                == Some(text)
    }

    /// This end makes `r` of `message` and is then `after`.
    pub open spec fn receives(
        self,
        message: Seq<u8>,
        r: Result<Vec<u8>, Error>,
        after: Session,
    ) -> bool {
        &&& match self.opened(message) {
            Some(text) => r matches Ok(t) && t@ == text,
            None => r == Err::<Vec<u8>, Error>(Error::AuthFailed),
        }
        &&& after.same_link(self)
        &&& after.received() == counted(self.received())
        &&& after.sent() == self.sent()
    }

    /// One end seals the texts one after the other, and the other end opens the messages in
    /// the same order. `a` and `b` are the two ends before each message, `a2` and `b2` after
    /// it; from one message to the next only what goes the other way may change them.
    pub open spec fn one_way(
        a: Seq<Session>,
        a2: Seq<Session>,
        b: Seq<Session>,
        b2: Seq<Session>,
        texts: Seq<Seq<u8>>,
        messages: Seq<Seq<u8>>,
        results: Seq<Result<Vec<u8>, Error>>,
    ) -> bool {
        &&& forall|i: int|
            0 <= i < texts.len() ==> (#[trigger] a[i]).sends(texts[i], messages[i], a2[i])
        &&& forall|i: int|
            0 <= i < texts.len() ==> (#[trigger] b[i]).receives(messages[i], results[i], b2[i])
        &&& forall|i: int|
            0 < i < texts.len() ==> (#[trigger] a[i]).same_link(a2[i - 1]) && a[i].sent()
                == a2[i - 1].sent()
        &&& forall|i: int|
            0 < i < texts.len() ==> (#[trigger] b[i]).same_link(b2[i - 1]) && b[i].received()
                == b2[i - 1].received()
    }

    /// Messages arrive as they were sent, in order: where the two ends of a session seal and
    /// open one message after the other, each text comes back, in either direction and
    /// whatever goes the other way meanwhile.
    pub proof fn law_messages_arrive_in_order(
        a: Seq<Session>,
        a2: Seq<Session>,
        b: Seq<Session>,
        b2: Seq<Session>,
        texts: Seq<Seq<u8>>,
        messages: Seq<Seq<u8>>,
        results: Seq<Result<Vec<u8>, Error>>,
        k: int,
    )
        requires
            0 <= k < texts.len(),
            a[0].linked_to(b[0]),
            b[0].received() == a[0].sent(),
            Self::one_way(a, a2, b, b2, texts, messages, results),
        ensures
            results[k] matches Ok(t) && t@ == texts[k],
    {
        Self::lemma_in_step(a, a2, b, b2, texts, messages, results, k);
        assert(a[k].sends(texts[k], messages[k], a2[k]));
        assert(b[k].receives(messages[k], results[k], b2[k]));
        assert(b[k].opened(messages[k]) == Some(texts[k]));
    }

    proof fn lemma_in_step(
        a: Seq<Session>,
        a2: Seq<Session>,
        b: Seq<Session>,
        b2: Seq<Session>,
        texts: Seq<Seq<u8>>,
        messages: Seq<Seq<u8>>,
        results: Seq<Result<Vec<u8>, Error>>,
        k: int,
    )
        requires
            0 <= k < texts.len(),
            a[0].linked_to(b[0]),
            b[0].received() == a[0].sent(),
            Self::one_way(a, a2, b, b2, texts, messages, results),
        ensures
            a[k].linked_to(b[k]),
            b[k].received() == a[k].sent(),
        decreases k,
    {
        if k > 0 {
            Self::lemma_in_step(a, a2, b, b2, texts, messages, results, k - 1);
            assert(a[k - 1].sends(texts[k - 1], messages[k - 1], a2[k - 1]));
            assert(b[k - 1].receives(messages[k - 1], results[k - 1], b2[k - 1]));
            assert(a[k].same_link(a2[k - 1]));
            assert(b[k].same_link(b2[k - 1]));
        }
    }

    /// What is needed to open a message: the key, the nonce and the associated data.
    pub open spec fn opening(self) -> (Seq<u8>, Seq<u8>, Seq<u8>) {
        (
            self.receiving(),
            crypto::nonce_of(message_nonce(self.received(), !self.initiates())),
            message_aad(self.id(), !self.initiates()),
        )
    }

    /// What the next message is sealed with: the key, the nonce and the associated data.
    pub open spec fn sealing(self) -> (Seq<u8>, Seq<u8>, Seq<u8>) {
        (
            self.sending(),
            crypto::nonce_of(message_nonce(self.sent(), self.initiates())),
            message_aad(self.id(), self.initiates()),
        )
    }

    /// A repeated message is refused: the far end, once it has tried a message that was sent
    /// before or after this one, opens it only if what was sealed with one nonce opens with
    /// another. The counters are those of fewer than 2^63 messages.
    pub proof fn law_repeated_messages_are_refused(
        a: Session,
        after: Session,
        text: Seq<u8>,
        message: Seq<u8>,
        b: Session,
        later: Session,
        r: Result<Vec<u8>, Error>,
    )
        requires
            a.linked_to(b),
            a.sends(text, message, after),
            b.receives(message, r, later),
            a.sent() % 0x8000_0000_0000_0000 != b.received() % 0x8000_0000_0000_0000,
        ensures
            b.opening().1 != a.sealing().1,
            r is Ok ==> crypto::open_of(
                b.opening().0,
                b.opening().1,
                b.opening().2,
                crypto::seal_of(a.sealing().0, a.sealing().1, a.sealing().2, text),
            ) is Some,
    {
        crypto::lemma_nonces_differ(
            message_nonce(a.sent(), a.initiates()),
            message_nonce(b.received(), !b.initiates()),
        );
    }

    /// A message of another session is refused: an end that was derived from another secret
    /// opens it only if what was sealed with one key, nonce and associated data opens with
    /// others, or if both secrets give the same key and identifier.
    pub proof fn law_other_secrets_open_nothing(
        a: Session,
        after: Session,
        text: Seq<u8>,
        message: Seq<u8>,
        b: Session,
        later: Session,
        r: Result<Vec<u8>, Error>,
        shared: Seq<u8>,
        other: Seq<u8>,
        initiator: bool,
    )
        requires
            shared != other,
            session_id_of(shared).len() == 16,
            session_id_of(other).len() == 16,
            a.derived_from(shared, initiator),
            b.derived_from(other, !initiator),
            a.sends(text, message, after),
            b.receives(message, r, later),
        ensures
            r is Ok ==> crypto::open_of(
                b.opening().0,
                b.opening().1,
                b.opening().2,
                crypto::seal_of(a.sealing().0, a.sealing().1, a.sealing().2, text),
            ) is Some,
            b.opening() == a.sealing() ==> {
                let half = |k: Seq<u8>| if initiator { k.subrange(0, 32) } else { k.subrange(32, 64) };
                session_id_of(shared) == session_id_of(other) && half(session_keys(shared)) == half(
                    session_keys(other),
                )
            },
    {
        if b.opening() == a.sealing() {
            let (x, y) = (a.sealing().2, b.opening().2);
            assert(x.drop_last() =~= session_id_of(shared));
            assert(y.drop_last() =~= session_id_of(other));
        }
    }

    /// The link keys of both ends of a session are the same.
    pub proof fn law_link_key_is_shared(a: Session, b: Session)
        requires
            a.linked_to(b),
        ensures
            link_key_of(a.sending(), a.receiving()) == link_key_of(b.sending(), b.receiving()),
    {
        bytes::lemma_bytes_lt_total(a.sending(), a.receiving());
    }

    /// The two ends that one shared secret gives are linked to each other.
    pub proof fn law_one_secret_links_both_ends(a: Session, b: Session, shared: Seq<u8>)
        requires
            a.derived_from(shared, true),
            b.derived_from(shared, false),
        ensures
            a.linked_to(b),
            b.linked_to(a),
    {
    }

    /// Derives one end of a session from the shared secret of a handshake.
    pub fn new(shared: &[u8], initiator: bool) -> (r: Self)
        ensures
            r.derived_from(shared@, initiator),
            r.sent() == 0,
            r.received() == 0,
    {
        let km: Vec<u8> = hkdf_derive(
            shared,
            "phinet-session-v2".as_bytes(),
            "keys".as_bytes(),
            64,
        );
        let id: Vec<u8> = hkdf_derive(
            shared,
            "phinet-session-v2".as_bytes(),
            "session-id".as_bytes(),
            16,
        );
        let session_id: [u8; 16] = array_16(&id, 0);
        assert(session_id@ =~= id@);
        let first: [u8; 32] = array_32(&km, 0);
        let second: [u8; 32] = array_32(&km, 32);
        let (send_key, recv_key) = if initiator {
            (first, second)
        } else {
            (second, first)
        };
        Session {
            send_key,
            recv_key,
            send_nonce: 0,
            recv_nonce: 0,
            session_id,
            is_initiator: initiator,
        }
    }

    /// The session's identifier.
    pub fn session_id(&self) -> (r: [u8; 16])
        ensures
            r@ == self.id(),
    {
        self.session_id
    }

    /// Seals a message. The far end, if it has opened as many messages as this
    /// end had sent, opens it to the same text.
    pub fn encrypt(&mut self, plaintext: &[u8]) -> (r: Vec<u8>)
        requires
            plaintext@.len() <= crypto::cipher_limit(),
        ensures
            old(self).sends(plaintext@, r@, *final(self)),
            r@.len() == plaintext@.len() + 16,
    {
        let n: u64 = self.send_nonce;
        self.send_nonce = n.wrapping_add(1);
        let aad: [u8; 17] = self.aad_send();
        aead_encrypt(&self.send_key, self.nonce_ctr_send(n), aad.as_slice(), plaintext)
    }

    /// Opens a message. The counter advances whether or not it opens.
    pub fn decrypt(&mut self, ciphertext: &[u8]) -> (r: Result<Vec<u8>, Error>)
        requires
            ciphertext@.len() <= crypto::cipher_limit(),
        ensures
            old(self).receives(ciphertext@, r, *final(self)),
    {
        let n: u64 = self.recv_nonce;
        self.recv_nonce = n.wrapping_add(1);
        let aad: [u8; 17] = self.aad_recv();
        aead_decrypt(&self.recv_key, self.nonce_ctr_recv(n), aad.as_slice(), ciphertext)
    }

    /// The associated data of the messages this end sends.
    fn aad_send(&self) -> (r: [u8; 17])
        ensures
            r@ == message_aad(self.id(), self.initiates()),
    {
        self.aad(if self.is_initiator { 0 } else { 1 })
    }

    /// The associated data of the messages this end receives.
    fn aad_recv(&self) -> (r: [u8; 17])
        ensures
            r@ == message_aad(self.id(), !self.initiates()),
    {
        self.aad(if self.is_initiator { 1 } else { 0 })
    }

    /// The identifier with a role byte behind it.
    fn aad(&self, role: u8) -> (r: [u8; 17])
        ensures
            r@ == self.id().push(role),
    {
        let mut a: [u8; 17] = [0u8; 17];
        let mut i: usize = 0;
        while i < 16
            invariant
                i <= 16,
                forall|j: int| 0 <= j < i ==> a@[j] == self.session_id@[j],
            decreases 16 - i,
        {
            a[i] = self.session_id[i];
            i += 1;
        }
        a[16] = role;
        assert(a@ =~= self.id().push(role));
        a
    }

    /// The nonce counter of the `ctr`-th message this end sends.
    pub fn nonce_ctr_send(&self, ctr: u64) -> (r: u64)
        ensures
            r == message_nonce(ctr, self.initiates()),
    {
        Self::nonce_ctr(ctr, self.is_initiator)
    }

    /// The nonce counter of the `ctr`-th message this end receives.
    pub fn nonce_ctr_recv(&self, ctr: u64) -> (r: u64)
        ensures
            r == message_nonce(ctr, !self.initiates()),
    {
        Self::nonce_ctr(ctr, !self.is_initiator)
    }

    /// The 63 low-order bits of `ctr`, with the sender's role in the top bit.
    fn nonce_ctr(ctr: u64, from_initiator: bool) -> (r: u64)
        ensures
            r == message_nonce(ctr, from_initiator),
    {
        let role: u64 = if from_initiator { 0 } else { 0x8000_0000_0000_0000 };
        let low: u64 = ctr & 0x7fff_ffff_ffff_ffff;
        assert(ctr & 0x7fff_ffff_ffff_ffff == ctr % 0x8000_0000_0000_0000) by (bit_vector);
        assert(low | 0 == low) by (bit_vector);
        assert(low < 0x8000_0000_0000_0000 ==> low | 0x8000_0000_0000_0000 == low
            + 0x8000_0000_0000_0000) by (bit_vector);
        low | role
    }

    /// The key that authenticates certificate rotations on this link. Both ends
    /// derive the same.
    pub fn rotation_link_key(&self) -> (r: [u8; 32])
        ensures
            r@ == link_key_of(self.sending(), self.receiving()),
    {
        let mut material: Vec<u8> = Vec::new();
        let a: &[u8] = self.send_key.as_slice();
        let b: &[u8] = self.recv_key.as_slice();
        if bytes_before(a, b) {
            append(&mut material, a);
            append(&mut material, b);
            assert(material@ =~= a@ + b@);
        } else {
            append(&mut material, b);
            append(&mut material, a);
            assert(material@ =~= b@ + a@);
        }
        let out: Vec<u8> = hkdf_derive(
            &material,
            "phinet-cert-rotate-v1".as_bytes(),
            "link".as_bytes(),
            32,
        );
        let k: [u8; 32] = array_32(&out, 0);
        assert(k@ =~= out@);
        k
    }
}

/// A one-time X25519 key pair.
pub struct EphemeralKeypair {
    secret: [u8; 32],
    pub public: [u8; 32],
}

impl EphemeralKeypair {
    /// The secret half.
    pub closed spec fn secret_bytes(self) -> Seq<u8> {
        self.secret@
    }

    /// The public half.
    pub closed spec fn public_half(self) -> Seq<u8> {
        self.public@
    }

    /// The public half belongs to the secret half.
    pub open spec fn wf(self) -> bool {
        self.public_half() == crypto::x25519_public_of(self.secret_bytes())
    }

    /// A fresh key pair.
    pub fn generate() -> (r: Self)
        ensures
            r.wf(),
            r.secret_bytes().len() == 32,
            crypto::is_random(r.secret_bytes()),
    {
        let secret: [u8; 32] = random_32();
        let public: [u8; 32] = x25519_public(&secret);
        EphemeralKeypair { secret, public }
    }

    /// The public half.
    pub fn public_bytes(&self) -> (r: [u8; 32])
        ensures
            r@ == self.public_half(),
    {
        self.public
    }

    /// The shared secret with a peer. A peer that does the same with this
    /// pair's public half gets the same value.
    pub fn dh(&self, peer: &[u8; 32]) -> (r: [u8; 32])
        ensures
            r@ == crypto::x25519_of(self.secret_bytes(), peer@),
            forall|other: EphemeralKeypair|
                self.wf() && #[trigger] other.wf() && other.public_half() == peer@ ==> r@ == crypto::x25519_of(
                    other.secret_bytes(),
                    self.public_half(),
                ),
    {
        x25519(&self.secret, peer)
    }
}

/// Padding cells, which carry nothing.
pub struct TrafficPadder;

impl TrafficPadder {
    /// A padding cell: the marker, then random bytes.
    pub fn dummy_cell() -> (r: Vec<u8>)
        ensures
            r@.len() == CELL_SIZE,
            r@[0] == 0xFF,
            crypto::is_random(r@.skip(1)),
    {
        let mut cell: Vec<u8> = Vec::new();
        cell.push(0xFF);
        let rest: Vec<u8> = fresh_bytes(CELL_SIZE - 1);
        append(&mut cell, &rest);
        assert(cell@.skip(1) =~= rest@);
        cell
    }

    /// Whether a payload is a padding cell: its first byte is the marker.
    pub fn is_dummy(payload: &[u8]) -> (r: bool)
        ensures
            r == (payload@.len() > 0 && payload@[0] == 0xFF),
    {
        payload.len() > 0 && payload[0] == 0xFF
    }
}

/// A message that one end sends, the other end reads, and each end is then ready for the
/// next; the same message does not count as the next one.
pub proof fn law_what_one_end_sends_the_other_reads(
    shared: &[u8],
    a: Session,
    b: Session,
    text: &[u8],
    sent: Session,
    message: Vec<u8>,
    sealed: &[u8],
    read: Session,
    r: Result<Vec<u8>, Error>,
)
    requires
        call_ensures(Session::new, (shared, true), a),
        call_ensures(Session::new, (shared, false), b),
        exists|s: &mut Session|
            *s == a && *final(s) == sent && #[trigger] call_ensures(Session::encrypt, (s, text), message),
        sealed@ == message@,
        exists|s: &mut Session|
            *s == b && *final(s) == read && #[trigger] call_ensures(Session::decrypt, (s, sealed), r),
    ensures
        r matches Ok(t) && t@ == text@,
        message@.len() == text@.len() + 16,
        sent.linked_to(read),
        read.received() == sent.sent() && sent.sent() == 1,
{
    Session::law_one_secret_links_both_ends(a, b, shared@);
    assert(a.sends(text@, message@, sent));
    assert(b.receives(sealed@, r, read));
    assert(b.opened(message@) == Some(text@));
}

/// The keys of a session come from the shared secret by the labels of this protocol, and
/// the two directions have a half each.
pub proof fn law_session_keys_come_from_the_secret(shared: &[u8], initiator: bool, s: Session, id: [u8; 16])
    requires
        call_ensures(Session::new, (shared, initiator), s),
        call_ensures(Session::session_id, (&s,), id),
    ensures
        ({
            let km = crypto::hkdf_of(shared@, "phinet-session-v2".spec_bytes(), "keys".spec_bytes(), 64);
            &&& initiator ==> s.sending() == km.subrange(0, 32) && s.receiving() == km.subrange(32, 64)
            &&& !initiator ==> s.sending() == km.subrange(32, 64) && s.receiving() == km.subrange(0, 32)
        }),
        id@ == crypto::hkdf_of(shared@, "phinet-session-v2".spec_bytes(), "session-id".spec_bytes(), 16),
{
}

/// The number of a message tells its direction by its highest bit and its place by the
/// rest.
pub proof fn law_numbers_tell_direction_and_place(s: Session, m: u64, n: u64, a: u64, b: u64, c: u64)
    requires
        call_ensures(Session::nonce_ctr_send, (&s, m), a),
        call_ensures(Session::nonce_ctr_recv, (&s, m), b),
        call_ensures(Session::nonce_ctr_send, (&s, n), c),
    ensures
        a >= 0x8000_0000_0000_0000 <==> b < 0x8000_0000_0000_0000,
        s.initiates() <==> a < 0x8000_0000_0000_0000,
        m % 0x8000_0000_0000_0000 != n % 0x8000_0000_0000_0000 ==> a != c,
        m < 0x8000_0000_0000_0000 && s.initiates() ==> a == m,
{
}

/// Both ends of a session have the same key for certificates.
pub proof fn law_both_ends_have_the_link_key(shared: &[u8], a: Session, b: Session, x: [u8; 32], y: [u8; 32])
    requires
        call_ensures(Session::new, (shared, true), a),
        call_ensures(Session::new, (shared, false), b),
        call_ensures(Session::rotation_link_key, (&a,), x),
        call_ensures(Session::rotation_link_key, (&b,), y),
    ensures
        x@ == y@,
{
    Session::law_one_secret_links_both_ends(a, b, shared@);
    Session::law_link_key_is_shared(a, b);
}

/// Two fresh key pairs agree on a secret.
pub proof fn law_key_pairs_agree(a: EphemeralKeypair, b: EphemeralKeypair, pa: [u8; 32], pb: [u8; 32], x: [u8; 32], y: [u8; 32])
    requires
        call_ensures(EphemeralKeypair::generate, (), a),
        call_ensures(EphemeralKeypair::generate, (), b),
        call_ensures(EphemeralKeypair::public_bytes, (&a,), pa),
        call_ensures(EphemeralKeypair::public_bytes, (&b,), pb),
        call_ensures(EphemeralKeypair::dh, (&a, &pb), x),
        call_ensures(EphemeralKeypair::dh, (&b, &pa), y),
    ensures
        x@ == y@,
        crypto::is_random(a.secret_bytes()),
{
    assert(b.wf() && b.public_half() == pb@);
}

/// Padding is told from what is not: every padding cell is, it is as long as a cell, and
/// what it holds behind its mark is random.
pub proof fn law_padding_is_told_apart(cell: Vec<u8>, payload: &[u8], r: bool, other: &[u8], o: bool)
    requires
        call_ensures(TrafficPadder::dummy_cell, (), cell),
        payload@ == cell@,
        call_ensures(TrafficPadder::is_dummy, (payload,), r),
        call_ensures(TrafficPadder::is_dummy, (other,), o),
    ensures
        r,
        cell@.len() == 512,
        crypto::is_random(cell@.skip(1)),
        o <==> other@.len() > 0 && other@[0] == 255,
{
}

/// A message is sealed under the key of its direction, with a number that counts the
/// messages of that direction, and bound to the session and to the end that sent it: zero
/// for the one that opened the session, one for the other.
pub proof fn law_messages_are_bound_to_their_session(s: Session, after: Session, text: &[u8], message: Vec<u8>)
    requires
        s.sent() < 0x8000_0000_0000_0000,
        exists|x: &mut Session|
            *x == s && *final(x) == after && #[trigger] call_ensures(Session::encrypt, (x, text), message),
    ensures
        s.initiates() ==> message@ == crypto::seal_of(
            s.sending(),
            crypto::nonce_of(s.sent()),
            s.id().push(0),
            text@,
        ),
        !s.initiates() ==> message@ == crypto::seal_of(
            s.sending(),
            crypto::nonce_of((s.sent() + 0x8000_0000_0000_0000) as u64),
            s.id().push(1),
            text@,
        ),
        after.sent() == s.sent() + 1,
        after.received() == s.received(),
{
}

/// The key for certificates comes from both directions' keys, the smaller first, under the
/// labels of this protocol.
pub proof fn law_the_link_key_comes_from_both_directions(s: Session, r: [u8; 32])
    requires
        call_ensures(Session::rotation_link_key, (&s,), r),
    ensures
        bytes::bytes_lt(s.sending(), s.receiving()) ==> r@ == crypto::hkdf_of(
            s.sending() + s.receiving(),
            "phinet-cert-rotate-v1".spec_bytes(),
            "link".spec_bytes(),
            32,
        ),
        bytes::bytes_lt(s.receiving(), s.sending()) ==> r@ == crypto::hkdf_of(
            s.receiving() + s.sending(),
            "phinet-cert-rotate-v1".spec_bytes(),
            "link".spec_bytes(),
            32,
        ),
{
    bytes::lemma_bytes_lt_total(s.sending(), s.receiving());
}

/// Every message that is tried counts, whether it opens or not, so that both ends go on in
/// step; one that does not open gives nothing away but that.
pub proof fn law_every_message_counts(s: Session, after: Session, sealed: &[u8], r: Result<Vec<u8>, Error>)
    requires
        s.received() < 0x8000_0000_0000_0000,
        exists|x: &mut Session|
            *x == s && *final(x) == after && #[trigger] call_ensures(Session::decrypt, (x, sealed), r),
    ensures
        after.received() == s.received() + 1,
        after.sent() == s.sent(),
        after.sending() == s.sending() && after.receiving() == s.receiving() && after.id() == s.id(),
        r is Err ==> r->Err_0 == Error::AuthFailed,
        s.initiates() ==> (r is Ok <==> crypto::open_of(
            s.receiving(),
            crypto::nonce_of((s.received() + 0x8000_0000_0000_0000) as u64),
            s.id().push(1),
            sealed@,
        ) is Some),
        !s.initiates() ==> (r is Ok <==> crypto::open_of(
            s.receiving(),
            crypto::nonce_of(s.received()),
            s.id().push(0),
            sealed@,
        ) is Some),
{
}

} // verus!
