//! One-way authenticated key agreement between a client and a circuit hop.
//!
//! The client knows the hop's identity and static key `B`; both sides
//! contribute a fresh ephemeral (`X`, `Y`), so the keys are forward secret. The
//! hop proves possession of the secret of `B`; the client stays anonymous.

use crate::bytes::{append, array_20, array_32, bytes_eq};
use crate::crypto;
use crate::crypto::{hkdf_expand, hkdf_extract, hmac_sha256, random_32, wipe, x25519, x25519_public};
use crate::errors;
use crate::errors::Error;
use crate::timing::ct_eq_32;
use vstd::prelude::*;
use vstd::string::*;

verus! {

/// Mixed into every derived value, so that no key of this protocol coincides
/// with one of another protocol on the same primitives.
pub const PROTOID: &'static str = "ntor-x25519-chacha20-phinet-v1";

/// The salt that extracts the key seed.
pub const T_KEY: &'static str = "phinet:ntor:t_key";

/// The tag that expands the verification key.
pub const T_VERIFY: &'static str = "phinet:ntor:t_verify";

/// The tag that expands the key material.
pub const T_EXPAND: &'static str = "phinet:ntor:t_expand";

/// Names the side that authenticates itself.
pub const M_SERVER: &'static str = "Server";

/// Bytes of key material of one handshake.
pub const NTOR_KEYS_BYTES: usize = 104;

/// Length of the client's message: identity, `B`, `X`.
pub const CLIENT_HANDSHAKE_LEN: usize = 96;

/// Length of the reply: `Y` and the authentication tag.
pub const SERVER_HANDSHAKE_LEN: usize = 64;

/// The keys that both ends of a hop install.
#[derive(Clone)]
pub struct NtorKeys {
    pub forward_digest_seed: [u8; 20],
    pub backward_digest_seed: [u8; 20],
    pub forward_key: [u8; 32],
    pub backward_key: [u8; 32],
}

impl NtorKeys {
    /// These are the keys that the key material `km` is cut into.
    pub open spec fn cut_from(self, km: Seq<u8>) -> bool {
        &&& km.len() == NTOR_KEYS_BYTES
        &&& self.forward_digest_seed@ == km.subrange(0, 20)
        &&& self.backward_digest_seed@ == km.subrange(20, 40)
        &&& self.forward_key@ == km.subrange(40, 72)
        &&& self.backward_key@ == km.subrange(72, 104)
    }

    /// Cuts the key material into the keys.
    fn from_bytes(km: &Vec<u8>) -> (r: Self)
        requires
            km@.len() == NTOR_KEYS_BYTES,
        ensures
            r.cut_from(km@),
    {
        NtorKeys {
            forward_digest_seed: array_20(km, 0),
            backward_digest_seed: array_20(km, 20),
            forward_key: array_32(km, 40),
            backward_key: array_32(km, 72),
        }
    }
}

/// What the seed is extracted from: the shared secrets and the transcript.
pub open spec fn seed_input(
    ss_ephem: Seq<u8>,
    ss_static: Seq<u8>,
    id: Seq<u8>,
    b: Seq<u8>,
    x: Seq<u8>,
    y: Seq<u8>,
) -> Seq<u8> {
    ss_ephem + ss_static + id + b + x + y + PROTOID.spec_bytes()
}

/// The seed of both the verification key and the key material.
pub open spec fn key_seed(
    ss_ephem: Seq<u8>,
    ss_static: Seq<u8>,
    id: Seq<u8>,
    b: Seq<u8>,
    x: Seq<u8>,
    y: Seq<u8>,
) -> Seq<u8> {
    crypto::hkdf_extract_of(T_KEY.spec_bytes(), seed_input(ss_ephem, ss_static, id, b, x, y))
}

/// The key of the tag.
pub open spec fn tag_key(seed: Seq<u8>) -> Seq<u8> {
    crypto::hkdf_expand_of(seed, T_VERIFY.spec_bytes(), 32)
}

/// What the tag is over.
pub open spec fn tag_input(id: Seq<u8>, b: Seq<u8>, y: Seq<u8>, x: Seq<u8>) -> Seq<u8> {
    id + b + y + x + PROTOID.spec_bytes() + M_SERVER.spec_bytes()
}

/// The tag by which the hop authenticates itself.
pub open spec fn auth_tag(seed: Seq<u8>, id: Seq<u8>, b: Seq<u8>, y: Seq<u8>, x: Seq<u8>) -> Seq<
    u8,
> {
    crypto::hmac_of(tag_key(seed), tag_input(id, b, y, x))
}

/// The key material of a seed.
pub open spec fn key_material(seed: Seq<u8>) -> Seq<u8> {
    crypto::hkdf_expand_of(seed, T_EXPAND.spec_bytes(), NTOR_KEYS_BYTES as nat)
}

/// The seed as the client computes it from its ephemeral secret.
pub open spec fn client_seed(secret: Seq<u8>, id: Seq<u8>, b: Seq<u8>, y: Seq<u8>) -> Seq<u8> {
    key_seed(crypto::x25519_of(secret, y), crypto::x25519_of(secret, b), id, b, crypto::x25519_public_of(secret), y)
}

/// The key material that the client takes from a reply; nothing when the reply's
/// tag is not the one that the hop with `id` and `b` would have sent.
pub open spec fn client_result(secret: Seq<u8>, id: Seq<u8>, b: Seq<u8>, reply: Seq<u8>) -> Option<
    Seq<u8>,
> {
    let y = reply.subrange(0, 32);
    let seed = client_seed(secret, id, b, y);
    if reply.subrange(32, 64) == auth_tag(seed, id, b, y, crypto::x25519_public_of(secret)) {
        Some(key_material(seed))
    } else {
        None
    }
}

/// A handshake that the client has begun and not yet finished.
pub struct ClientHandshake {
    x_priv: [u8; 32],
    x_pub: [u8; 32],
    server_id: [u8; 32],
    server_b: [u8; 32],
}

impl ClientHandshake {
    /// The client's ephemeral secret.
    pub closed spec fn secret(self) -> Seq<u8> {
        self.x_priv@
    }

    /// The identity that the handshake is addressed to.
    pub closed spec fn id(self) -> Seq<u8> {
        self.server_id@
    }

    /// The static key that the handshake is addressed to.
    pub closed spec fn b(self) -> Seq<u8> {
        self.server_b@
    }

    #[verifier::type_invariant]
    spec fn wf(self) -> bool {
        self.x_pub@ == crypto::x25519_public_of(self.x_priv@)
    }
}

/// Begins a handshake with a fresh ephemeral. Returns the state to keep and the
/// message to send.
pub fn client_handshake_start(server_id: &[u8; 32], server_b: &[u8; 32]) -> (r: (
    ClientHandshake,
    [u8; 96],
))
    ensures
        r.0.id() == server_id@,
        r.0.b() == server_b@,
        r.0.secret().len() == 32,
        crypto::is_random(r.0.secret()),
        r.1@ == server_id@ + server_b@ + crypto::x25519_public_of(r.0.secret()),
{
    let x_priv: [u8; 32] = random_32();
    client_handshake_with(server_id, server_b, x_priv)
}

/// Begins a handshake with the ephemeral secret `x_priv`.
pub fn client_handshake_with(server_id: &[u8; 32], server_b: &[u8; 32], x_priv: [u8; 32]) -> (r: (
    ClientHandshake,
    [u8; 96],
))
    ensures
        r.0.id() == server_id@,
        r.0.b() == server_b@,
        r.0.secret() == x_priv@,
        r.1@ == server_id@ + server_b@ + crypto::x25519_public_of(x_priv@),
{
    let x_pub: [u8; 32] = x25519_public(&x_priv);
    let mut msg: [u8; 96] = [0u8; 96];
    let mut i: usize = 0;
    while i < 32
        invariant
            i <= 32,
            forall|j: int| 0 <= j < i ==> msg@[j] == server_id@[j],
            forall|j: int| 0 <= j < i ==> msg@[32 + j] == server_b@[j],
            forall|j: int| 0 <= j < i ==> msg@[64 + j] == x_pub@[j],
        decreases 32 - i,
    {
        msg[i] = server_id[i];
        msg[32 + i] = server_b[i];
        msg[64 + i] = x_pub[i];
        i += 1;
    }
    assert(msg@ =~= server_id@ + server_b@ + x_pub@);
    (ClientHandshake { x_priv, x_pub, server_id: *server_id, server_b: *server_b }, msg)
}

/// Finishes a handshake with the hop's reply. The keys are returned only when
/// the reply's tag proves that the hop holds the secret of `B`.
pub fn client_handshake_finish(hs: ClientHandshake, server_msg: &[u8; 64]) -> (r: Result<
    NtorKeys,
    Error,
>)
    ensures
        r is Ok == client_result(hs.secret(), hs.id(), hs.b(), server_msg@) is Some,
        r matches Ok(k) ==> k.cut_from(
            client_result(hs.secret(), hs.id(), hs.b(), server_msg@)->0,
        ),
        r matches Err(e) ==> e == Error::AuthFailed,
{
    proof {
        use_type_invariant(&hs);
    }
    let y_pub: [u8; 32] = array_32(server_msg.as_slice(), 0);
    let auth_recv: [u8; 32] = array_32(server_msg.as_slice(), 32);
    let mut ss_yx: [u8; 32] = x25519(&hs.x_priv, &y_pub);
    let mut ss_bx: [u8; 32] = x25519(&hs.x_priv, &hs.server_b);
    let mut seed: [u8; 32] = derive_seed(
        &ss_yx,
        &ss_bx,
        &hs.server_id,
        &hs.server_b,
        &hs.x_pub,
        &y_pub,
    );
    wipe(&mut ss_yx);
    wipe(&mut ss_bx);
    let auth_expect: [u8; 32] = compute_auth(&seed, &hs.server_id, &hs.server_b, &y_pub, &hs.x_pub);
    if !ct_eq_32(&auth_recv, &auth_expect) {
        return Err(Error::AuthFailed);
    }
    let km: Vec<u8> = hkdf_expand(&seed, T_EXPAND.as_bytes(), NTOR_KEYS_BYTES);
    wipe(&mut seed);
    Ok(NtorKeys::from_bytes(&km))
}

/// Answers a client's message with a fresh ephemeral. Returns the keys to
/// install and the reply to send.
///
/// A message for another identity or static key is refused. A client whose
/// message carries the public key of its ephemeral secret accepts the reply and
/// gets the same keys.
pub fn server_handshake(
    server_id: &[u8; 32],
    server_b_pub: &[u8; 32],
    server_b_secret: &[u8; 32],
    client_msg: &[u8; 96],
) -> (r: Result<(NtorKeys, [u8; 64]), Error>)
    ensures
        r is Ok == (client_msg@.subrange(0, 32) == server_id@ && client_msg@.subrange(32, 64)
            == server_b_pub@),
        r is Err ==> errors::is_handshake(r, "ntor: wrong server_id or B"@),
        r matches Ok((k, reply)) ==> exists|y: Seq<u8>|
            y.len() == 32 && crypto::is_random(y) && #[trigger] server_reply(
                server_id@,
                server_b_pub@,
                server_b_secret@,
                client_msg@.subrange(64, 96),
                y,
                reply@,
                k,
            ),
        r matches Ok((k, reply)) ==> agrees_with_client(
            server_id@,
            server_b_pub@,
            server_b_secret@,
            client_msg@.subrange(64, 96),
            reply@,
            k,
        ),
{
    let y_priv: [u8; 32] = random_32();
    server_handshake_with(server_id, server_b_pub, server_b_secret, client_msg, y_priv)
}

/// `reply` and `k` are what a hop with the ephemeral secret `y` answers to the
/// client's public ephemeral `x`.
pub open spec fn server_reply(
    id: Seq<u8>,
    b: Seq<u8>,
    b_secret: Seq<u8>,
    x: Seq<u8>,
    y: Seq<u8>,
    reply: Seq<u8>,
    k: NtorKeys,
) -> bool {
    let y_pub = crypto::x25519_public_of(y);
    let seed = key_seed(crypto::x25519_of(y, x), crypto::x25519_of(b_secret, x), id, b, x, y_pub);
    &&& reply == y_pub + auth_tag(seed, id, b, y_pub, x)
    &&& k.cut_from(key_material(seed))
}

/// Every client whose public ephemeral is `x` accepts the reply and cuts the
/// same keys, where `b` is the public key of `b_secret`.
pub open spec fn agrees_with_client(
    id: Seq<u8>,
    b: Seq<u8>,
    b_secret: Seq<u8>,
    x: Seq<u8>,
    reply: Seq<u8>,
    k: NtorKeys,
) -> bool {
    b == crypto::x25519_public_of(b_secret) ==> forall|secret: Seq<u8>|
        secret.len() == 32 && x == #[trigger] crypto::x25519_public_of(secret) ==> client_result(
            secret,
            id,
            b,
            reply,
        ) is Some && k.cut_from(client_result(secret, id, b, reply)->0)
}

/// Client and hop install the same keys: where a hop has answered the client's message with
/// its own secret, the client accepts the reply, and the keys that it cuts are the hop's.
pub proof fn law_both_ends_install_the_same_keys(
    secret: Seq<u8>,
    id: Seq<u8>,
    b_secret: Seq<u8>,
    reply: Seq<u8>,
    server: NtorKeys,
    client: NtorKeys,
)
    requires
        secret.len() == 32,
        agrees_with_client(
            id,
            crypto::x25519_public_of(b_secret),
            b_secret,
            crypto::x25519_public_of(secret),
            reply,
            server,
        ),
    ensures
        client_result(secret, id, crypto::x25519_public_of(b_secret), reply) is Some,
        client.cut_from(
            client_result(secret, id, crypto::x25519_public_of(b_secret), reply)->0,
        ) ==> {
            &&& client.forward_key@ == server.forward_key@
            &&& client.backward_key@ == server.backward_key@
            &&& client.forward_digest_seed@ == server.forward_digest_seed@
            &&& client.backward_digest_seed@ == server.backward_digest_seed@
        },
{
}

/// A reply cannot be changed on its way: with another tag it is refused, and with another
/// public ephemeral the same tag fits only if the tags over two different inputs are the
/// same.
pub proof fn law_changed_replies_are_refused(
    secret: Seq<u8>,
    id: Seq<u8>,
    b: Seq<u8>,
    reply: Seq<u8>,
    changed: Seq<u8>,
)
    requires
        reply.len() == SERVER_HANDSHAKE_LEN,
        changed.len() == SERVER_HANDSHAKE_LEN,
        client_result(secret, id, b, reply) is Some,
    ensures
        ({
            let (y, z) = (reply.subrange(0, 32), changed.subrange(0, 32));
            let x = crypto::x25519_public_of(secret);
            if z == y {
                changed != reply ==> client_result(secret, id, b, changed) is None
            } else {
                &&& tag_input(id, b, z, x) != tag_input(id, b, y, x)
                &&& changed.skip(32) == reply.skip(32) && client_result(
                    secret,
                    id,
                    b,
                    changed,
                ) is Some ==> crypto::hmac_of(
                    tag_key(client_seed(secret, id, b, z)),
                    tag_input(id, b, z, x),
                ) == crypto::hmac_of(
                    tag_key(client_seed(secret, id, b, y)),
                    tag_input(id, b, y, x),
                )
            }
        }),
{
    let (y, z) = (reply.subrange(0, 32), changed.subrange(0, 32));
    let x = crypto::x25519_public_of(secret);
    assert(reply.skip(32) =~= reply.subrange(32, 64));
    assert(changed.skip(32) =~= changed.subrange(32, 64));
    if z == y {
        if changed != reply {
            assert(changed.subrange(32, 64) != reply.subrange(32, 64)) by {
                if changed.subrange(32, 64) == reply.subrange(32, 64) {
                    assert(changed =~= z + changed.subrange(32, 64));
                    assert(reply =~= y + reply.subrange(32, 64));
                }
            }
        }
    } else {
        let n = (id + b).len() as int;
        assert(tag_input(id, b, z, x).subrange(n, n + 32) =~= z);
        assert(tag_input(id, b, y, x).subrange(n, n + 32) =~= y);
    }
}

/// Nobody answers for a hop without its secret: where the secret of whoever replied gives
/// another shared value with the client than the hop's key does, the client accepts the
/// reply only by a collision: two inputs with one seed, two seeds with one key of the tag,
/// or one message with one tag under two keys.
pub proof fn law_other_secrets_are_refused(
    secret: Seq<u8>,
    id: Seq<u8>,
    b: Seq<u8>,
    other: Seq<u8>,
    y: Seq<u8>,
    reply: Seq<u8>,
    k: NtorKeys,
)
    requires
        server_reply(id, b, other, crypto::x25519_public_of(secret), y, reply, k),
        crypto::x25519_public_of(y).len() == 32,
        reply.len() == SERVER_HANDSHAKE_LEN,
        crypto::x25519_of(y, crypto::x25519_public_of(secret)).len() == 32,
        crypto::x25519_of(secret, crypto::x25519_public_of(y)).len() == 32,
        crypto::x25519_of(other, crypto::x25519_public_of(secret)).len() == 32,
        crypto::x25519_of(secret, b).len() == 32,
        crypto::x25519_of(other, crypto::x25519_public_of(secret)) != crypto::x25519_of(secret, b),
        client_result(secret, id, b, reply) is Some,
    ensures
        ({
            let (x, z) = (crypto::x25519_public_of(secret), crypto::x25519_public_of(y));
            let p = seed_input(crypto::x25519_of(y, x), crypto::x25519_of(other, x), id, b, x, z);
            let q = seed_input(
                crypto::x25519_of(secret, z),
                crypto::x25519_of(secret, b),
                id,
                b,
                x,
                z,
            );
            let s = crypto::hkdf_extract_of(T_KEY.spec_bytes(), p);
            let t = crypto::hkdf_extract_of(T_KEY.spec_bytes(), q);
            let m = tag_input(id, b, z, x);
            &&& p != q
            &&& {
                ||| s == t
                ||| s != t && tag_key(s) == tag_key(t)
                ||| tag_key(s) != tag_key(t) && crypto::hmac_of(tag_key(s), m) == crypto::hmac_of(
                    tag_key(t),
                    m,
                )
            }
        }),
{
    let (x, z) = (crypto::x25519_public_of(secret), crypto::x25519_public_of(y));
    let p = seed_input(crypto::x25519_of(y, x), crypto::x25519_of(other, x), id, b, x, z);
    let q = seed_input(crypto::x25519_of(secret, z), crypto::x25519_of(secret, b), id, b, x, z);
    assert(p.subrange(32, 64) =~= crypto::x25519_of(other, x));
    assert(q.subrange(32, 64) =~= crypto::x25519_of(secret, b));
    assert(reply.subrange(0, 32) =~= z);
    assert(reply.subrange(32, 64) =~= reply.skip(32));
    let seed = key_seed(crypto::x25519_of(y, x), crypto::x25519_of(other, x), id, b, x, z);
    assert(reply.skip(32) =~= auth_tag(seed, id, b, z, x));
}

/// Answers a client's message with the ephemeral secret `y_priv`.
pub fn server_handshake_with(
    server_id: &[u8; 32],
    server_b_pub: &[u8; 32],
    server_b_secret: &[u8; 32],
    client_msg: &[u8; 96],
    y_priv: [u8; 32],
) -> (r: Result<(NtorKeys, [u8; 64]), Error>)
    ensures
        r is Ok == (client_msg@.subrange(0, 32) == server_id@ && client_msg@.subrange(32, 64)
            == server_b_pub@),
        r is Err ==> errors::is_handshake(r, "ntor: wrong server_id or B"@),
        r matches Ok((k, reply)) ==> server_reply(
            server_id@,
            server_b_pub@,
            server_b_secret@,
            client_msg@.subrange(64, 96),
            y_priv@,
            reply@,
            k,
        ),
        r matches Ok((k, reply)) ==> agrees_with_client(
            server_id@,
            server_b_pub@,
            server_b_secret@,
            client_msg@.subrange(64, 96),
            reply@,
            k,
        ),
{
    let id_sent: [u8; 32] = array_32(client_msg.as_slice(), 0);
    let b_sent: [u8; 32] = array_32(client_msg.as_slice(), 32);
    if !bytes_eq(id_sent.as_slice(), server_id.as_slice()) || !bytes_eq(
        b_sent.as_slice(),
        server_b_pub.as_slice(),
    ) {
        return Err(Error::Handshake("ntor: wrong server_id or B".to_owned()));
    }
    let x_pub: [u8; 32] = array_32(client_msg.as_slice(), 64);
    let y_pub: [u8; 32] = x25519_public(&y_priv);
    let mut ss_xy: [u8; 32] = x25519(&y_priv, &x_pub);
    let mut ss_xb: [u8; 32] = x25519(server_b_secret, &x_pub);
    let ghost g_xy = ss_xy@;
    let ghost g_xb = ss_xb@;
    let mut seed: [u8; 32] = derive_seed(&ss_xy, &ss_xb, server_id, server_b_pub, &x_pub, &y_pub);
    let ghost g_seed = seed@;
    wipe(&mut ss_xy);
    wipe(&mut ss_xb);
    let auth: [u8; 32] = compute_auth(&seed, server_id, server_b_pub, &y_pub, &x_pub);
    let mut reply: [u8; 64] = [0u8; 64];
    let mut i: usize = 0;
    while i < 32
        invariant
            i <= 32,
            forall|j: int| 0 <= j < i ==> reply@[j] == y_pub@[j],
            forall|j: int| 0 <= j < i ==> reply@[32 + j] == auth@[j],
        decreases 32 - i,
    {
        reply[i] = y_pub[i];
        reply[32 + i] = auth[i];
        i += 1;
    }
    assert(reply@ =~= y_pub@ + auth@);
    let km: Vec<u8> = hkdf_expand(&seed, T_EXPAND.as_bytes(), NTOR_KEYS_BYTES);
    wipe(&mut seed);
    let keys: NtorKeys = NtorKeys::from_bytes(&km);
    proof {
        assert(reply@.subrange(0, 32) =~= y_pub@);
        assert(reply@.subrange(32, 64) =~= auth@);
        if server_b_pub@ == crypto::x25519_public_of(server_b_secret@) {
            assert forall|secret: Seq<u8>|
                secret.len() == 32 && x_pub@ == #[trigger] crypto::x25519_public_of(
                    secret,
                ) implies client_result(secret, server_id@, server_b_pub@, reply@) is Some
                && keys.cut_from(
                client_result(secret, server_id@, server_b_pub@, reply@)->0,
            ) by {
                assert(g_xy == crypto::x25519_of(secret, y_pub@));
                assert(g_xb == crypto::x25519_of(secret, server_b_pub@));
                assert(client_seed(secret, server_id@, server_b_pub@, y_pub@) == g_seed);
            }
        }
    }
    Ok((keys, reply))
}

/// Extracts the seed from the two shared secrets and the transcript.
fn derive_seed(
    ss_ephem: &[u8; 32],
    ss_static: &[u8; 32],
    server_id: &[u8; 32],
    server_b: &[u8; 32],
    x_pub: &[u8; 32],
    y_pub: &[u8; 32],
) -> (r: [u8; 32])
    ensures
        r@ == key_seed(ss_ephem@, ss_static@, server_id@, server_b@, x_pub@, y_pub@),
{
    let mut secret: Vec<u8> = Vec::new();
    append(&mut secret, ss_ephem.as_slice());
    append(&mut secret, ss_static.as_slice());
    append(&mut secret, server_id.as_slice());
    append(&mut secret, server_b.as_slice());
    append(&mut secret, x_pub.as_slice());
    append(&mut secret, y_pub.as_slice());
    append(&mut secret, PROTOID.as_bytes());
    assert(secret@ =~= ss_ephem@ + ss_static@ + server_id@ + server_b@ + x_pub@ + y_pub@
        + PROTOID.spec_bytes());
    hkdf_extract(T_KEY.as_bytes(), &secret)
}

/// The tag over identity, `B`, `Y` and `X`, under the key expanded from the seed.
fn compute_auth(
    seed: &[u8; 32],
    server_id: &[u8; 32],
    server_b: &[u8; 32],
    y_pub: &[u8; 32],
    x_pub: &[u8; 32],
) -> (r: [u8; 32])
    ensures
        r@ == auth_tag(seed@, server_id@, server_b@, y_pub@, x_pub@),
{
    let verify: Vec<u8> = hkdf_expand(seed, T_VERIFY.as_bytes(), 32);
    let mut data: Vec<u8> = Vec::new();
    append(&mut data, server_id.as_slice());
    append(&mut data, server_b.as_slice());
    append(&mut data, y_pub.as_slice());
    append(&mut data, x_pub.as_slice());
    append(&mut data, PROTOID.as_bytes());
    append(&mut data, M_SERVER.as_bytes());
    assert(data@ =~= server_id@ + server_b@ + y_pub@ + x_pub@ + PROTOID.spec_bytes()
        + M_SERVER.spec_bytes());
    hmac_sha256(&verify, &data)
}

/// A handshake gives both ends the same keys: the hop accepts what the client sends it, and
/// the client what the hop answers.
pub proof fn law_a_handshake_agrees(
    id: &[u8; 32],
    b_secret: &[u8; 32],
    b: &[u8; 32],
    hs: ClientHandshake,
    sent: [u8; 96],
    r: Result<(NtorKeys, [u8; 64]), Error>,
    k: NtorKeys,
    reply: [u8; 64],
    f: Result<NtorKeys, Error>,
)
    requires
        b@ == crypto::x25519_public_of(b_secret@),
        call_ensures(client_handshake_start, (id, b), (hs, sent)),
        call_ensures(server_handshake, (id, b, b_secret, &sent), r),
        r == Ok::<(NtorKeys, [u8; 64]), Error>((k, reply)) || r is Err,
        call_ensures(client_handshake_finish, (hs, &reply), f),
    ensures
        r is Ok,
        f is Ok && f->Ok_0.forward_key@ == k.forward_key@ && f->Ok_0.backward_key@ == k.backward_key@
            && f->Ok_0.forward_digest_seed@ == k.forward_digest_seed@ && f->Ok_0.backward_digest_seed@
            == k.backward_digest_seed@,
{
    assert(sent@.len() == 96);
    assert(sent@.subrange(0, 32) =~= id@);
    assert(sent@.subrange(32, 64) =~= b@);
    assert(sent@.subrange(64, 96) =~= crypto::x25519_public_of(hs.secret()));
}

/// A hop answers nobody who means another: neither another identity nor another key.
pub proof fn law_hops_answer_for_themselves(
    id: &[u8; 32],
    b: &[u8; 32],
    b_secret: &[u8; 32],
    other_id: &[u8; 32],
    other_b: &[u8; 32],
    hs: ClientHandshake,
    sent: [u8; 96],
    r: Result<(NtorKeys, [u8; 64]), Error>,
)
    requires
        call_ensures(client_handshake_start, (other_id, other_b), (hs, sent)),
        call_ensures(server_handshake, (id, b, b_secret, &sent), r),
    ensures
        r is Ok <==> other_id@ == id@ && other_b@ == b@,
        r is Err ==> r->Err_0 is Handshake,
{
    assert(sent@.subrange(0, 32) =~= other_id@);
    assert(sent@.subrange(32, 64) =~= other_b@);
}

/// What a client accepts is tagged with the secrets that only it and the hop share, and the
/// keys are cut from these secrets, the identity and the three public keys, in this order
/// and under the labels of this protocol.
pub proof fn law_keys_come_from_both_secrets(hs: ClientHandshake, reply: &[u8; 64], k: NtorKeys)
    requires
        call_ensures(client_handshake_finish, (hs, reply), Ok(k)),
    ensures
        ({
            let y = reply@.subrange(0, 32);
            let x = crypto::x25519_public_of(hs.secret());
            let seed = crypto::hkdf_extract_of(
                "phinet:ntor:t_key".spec_bytes(),
                crypto::x25519_of(hs.secret(), y) + crypto::x25519_of(hs.secret(), hs.b()) + hs.id() + hs.b() + x + y
                    + "ntor-x25519-chacha20-phinet-v1".spec_bytes(),
            );
            let km = crypto::hkdf_expand_of(seed, "phinet:ntor:t_expand".spec_bytes(), 104);
            &&& reply@.subrange(32, 64) == crypto::hmac_of(
                crypto::hkdf_expand_of(seed, "phinet:ntor:t_verify".spec_bytes(), 32),
                hs.id() + hs.b() + y + x + "ntor-x25519-chacha20-phinet-v1".spec_bytes() + "Server".spec_bytes(),
            )
            &&& k.forward_digest_seed@ == km.subrange(0, 20)
            &&& k.backward_digest_seed@ == km.subrange(20, 40)
            &&& k.forward_key@ == km.subrange(40, 72)
            &&& k.backward_key@ == km.subrange(72, 104)
        }),
{
}

/// The handshake with given secrets agrees as the one with fresh secrets does.
pub proof fn law_given_secrets_agree(
    id: &[u8; 32],
    b_secret: &[u8; 32],
    b: &[u8; 32],
    x: [u8; 32],
    y: [u8; 32],
    hs: ClientHandshake,
    sent: [u8; 96],
    k: NtorKeys,
    reply: [u8; 64],
    f: Result<NtorKeys, Error>,
)
    requires
        b@ == crypto::x25519_public_of(b_secret@),
        call_ensures(client_handshake_with, (id, b, x), (hs, sent)),
        call_ensures(server_handshake_with, (id, b, b_secret, &sent, y), Ok((k, reply))),
        call_ensures(client_handshake_finish, (hs, &reply), f),
    ensures
        sent@.subrange(0, 32) == id@,
        sent@.subrange(32, 64) == b@,
        sent@.subrange(64, 96) == crypto::x25519_public_of(x@),
        f is Ok && f->Ok_0.forward_key@ == k.forward_key@ && f->Ok_0.backward_key@ == k.backward_key@,
{
    assert(sent@.len() == 96);
    assert(sent@.subrange(0, 32) =~= id@);
    assert(sent@.subrange(32, 64) =~= b@);
    assert(sent@.subrange(64, 96) =~= crypto::x25519_public_of(x@));
}

} // verus!
