//! How a node tells its peers that it has a new certificate.
//!
//! A node's identifier comes from its certificate. When it takes a new one, it
//! announces both identifiers over every link, with a tag under a key that only the
//! two ends of that link share.

use crate::bytes;
use crate::bytes::{append, array_32, bytes_eq, push_be};
use crate::crypto;
use crate::crypto::hmac_sha256;
use crate::errors;
use crate::errors::Error;
use crate::text;
use crate::text::{hex_decode, hex_encode};
use crate::timing::ct_eq_32;
use vstd::prelude::*;
use vstd::string::*;
use vstd::utf8::*;

verus! {

/// The announcement of a new certificate.
#[derive(Debug, Clone)]
pub struct CertRotate {
    /// The identifier so far, in hexadecimal.
    pub old_node_id: String,
    /// The new identifier, in hexadecimal.
    pub new_node_id: String,
    /// The new certificate.
    pub new_cert_json: String,
    /// Counts the node's announcements.
    pub seq: u64,
    /// When it was made, in Unix seconds.
    pub ts: u64,
    /// The tag under the link's key, in hexadecimal.
    pub link_sig: String,
}

/// What the new certificate turns out to be.
#[derive(Debug)]
pub enum CertFinding {
    /// Its text cannot be read, for this reason.
    Unreadable(Error),
    /// Its numbers do not satisfy the certificate's equations.
    Unsound,
    /// A sound certificate of the node with this identifier.
    Sound([u8; 32]),
}

/// What the tag of an announcement is made over.
pub open spec fn rotation_message(
    old_id: Seq<u8>,
    new_id: Seq<u8>,
    json: Seq<char>,
    seq: u64,
    ts: u64,
) -> Seq<u8> {
    "phinet-cert-rotate-v1:".spec_bytes() + old_id + new_id + encode_utf8(json) + bytes::be_bytes(
        seq as nat,
        8,
    ) + bytes::be_bytes(ts as nat, 8)
}

/// The tag of an announcement.
pub open spec fn rotation_tag(
    key: Seq<u8>,
    old_id: Seq<u8>,
    new_id: Seq<u8>,
    json: Seq<char>,
    seq: u64,
    ts: u64,
) -> Seq<u8> {
    crypto::hmac_of(key, rotation_message(old_id, new_id, json, seq, ts))
}

/// The tag that binds the step from one identifier to another to a link.
pub fn compute_rotation_sig(
    link_key: &[u8; 32],
    old_node_id: &[u8; 32],
    new_node_id: &[u8; 32],
    new_cert_json: &str,
    seq: u64,
    ts: u64,
) -> (r: [u8; 32])
    ensures
        r@ == rotation_tag(link_key@, old_node_id@, new_node_id@, new_cert_json@, seq, ts),
{
    let mut m: Vec<u8> = Vec::new();
    append(&mut m, "phinet-cert-rotate-v1:".as_bytes());
    append(&mut m, old_node_id);
    append(&mut m, new_node_id);
    append(&mut m, new_cert_json.as_bytes());
    push_be(&mut m, seq, 8);
    push_be(&mut m, ts, 8);
    assert(m@ =~= rotation_message(old_node_id@, new_node_id@, new_cert_json@, seq, ts));
    hmac_sha256(link_key, &m)
}

/// A field of 32 bytes in hexadecimal.
pub enum Field {
    /// It is no hexadecimal.
    NoHex,
    /// It holds more or fewer bytes.
    NoId,
    /// These bytes.
    Id([u8; 32]),
}

/// `f` is what the text `s` holds.
pub open spec fn is_field(f: Field, s: Seq<char>) -> bool {
    match f {
        Field::NoHex => !text::is_hex(s),
        Field::NoId => text::is_hex(s) && text::unhex(s).len() != 32,
        Field::Id(b) => text::is_hex(s) && text::unhex(s).len() == 32 && b@ == text::unhex(s),
    }
}

/// Reads a field of 32 bytes.
pub fn read_field(s: &str) -> (r: Field)
    ensures
        is_field(r, s@),
{
    match hex_decode(s) {
        Ok(b) => {
            if b.len() == 32 {
                let a: [u8; 32] = array_32(&b, 0);
                assert(b@.subrange(0, 32) =~= b@);
                Field::Id(a)
            } else {
                Field::NoId
            }
        },
        Err(_) => Field::NoHex,
    }
}

/// The identifier that a field of 32 bytes in hexadecimal holds.
pub open spec fn id_in(s: Seq<char>) -> Option<Seq<u8>> {
    if text::is_hex(s) && text::unhex(s).len() == 32 {
        Some(text::unhex(s))
    } else {
        None
    }
}

/// Reads an identifier in hexadecimal.
pub fn parse_id(s: &str) -> (r: Option<[u8; 32]>)
    ensures
        r is Some == id_in(s@) is Some,
        r matches Some(b) ==> Some(b@) == id_in(s@),
{
    match read_field(s) {
        Field::Id(b) => Some(b),
        _ => None,
    }
}

/// The tag of the announcement fits the key.
pub open spec fn tag_fits(key: Seq<u8>, m: CertRotate) -> bool {
    text::unhex(m.link_sig@) == rotation_tag(
        key,
        text::unhex(m.old_node_id@),
        text::unhex(m.new_node_id@),
        m.new_cert_json@,
        m.seq,
        m.ts,
    )
}

/// The announcement is well-formed and its tag fits the key.
pub open spec fn is_announced(key: Seq<u8>, m: CertRotate) -> bool {
    id_in(m.old_node_id@) is Some && id_in(m.new_node_id@) is Some && id_in(m.link_sig@) is Some
        && tag_fits(key, m)
}

/// What is wrong with the form of an announcement.
pub open spec fn form_fault(m: CertRotate) -> Option<Seq<char>> {
    if !text::is_hex(m.old_node_id@) {
        Some("cert rotate: bad old_node_id hex"@)
    } else if text::unhex(m.old_node_id@).len() != 32 {
        Some("cert rotate: old_node_id not 32 bytes"@)
    } else if !text::is_hex(m.new_node_id@) {
        Some("cert rotate: bad new_node_id hex"@)
    } else if text::unhex(m.new_node_id@).len() != 32 {
        Some("cert rotate: new_node_id not 32 bytes"@)
    } else if !text::is_hex(m.link_sig@) {
        Some("cert rotate: bad sig hex"@)
    } else if text::unhex(m.link_sig@).len() != 32 {
        Some("cert rotate: sig not 32 bytes"@)
    } else {
        None
    }
}

/// `r` is the verdict on an announcement with a certificate of which `cert` was
/// found: the new identifier, or what is wrong first.
pub open spec fn rotation_verdict(
    r: Result<[u8; 32], Error>,
    key: Seq<u8>,
    m: CertRotate,
    cert: CertFinding,
) -> bool {
    match form_fault(m) {
        Some(t) => errors::is_crypto(r, t),
        None => if !tag_fits(key, m) {
            r == Err::<[u8; 32], Error>(Error::AuthFailed)
        } else {
            match cert {
                CertFinding::Unreadable(e) => r == Err::<[u8; 32], Error>(e),
                CertFinding::Unsound => errors::is_crypto(r, "cert rotate: math failed"@),
                CertFinding::Sound(id) => if id@ == text::unhex(m.new_node_id@) {
                    r == Ok::<[u8; 32], Error>(id)
                } else {
                    errors::is_crypto(r, "cert rotate: node_id binding mismatch"@)
                },
            }
        },
    }
}

/// Reads the two identifiers and the tag of an announcement.
fn read_announcement(m: &CertRotate) -> (r: Result<([u8; 32], [u8; 32], [u8; 32]), Error>)
    ensures
        match form_fault(*m) {
            Some(t) => errors::is_crypto(r, t),
            None => r matches Ok(x) && x.0@ == text::unhex(m.old_node_id@) && x.1@ == text::unhex(
                m.new_node_id@,
            ) && x.2@ == text::unhex(m.link_sig@),
        },
{
    let old_id: [u8; 32] = match read_field(m.old_node_id.as_str()) {
        Field::NoHex => return Err(
            Error::Crypto("cert rotate: bad old_node_id hex".to_owned()),
        ),
        Field::NoId => return Err(
            Error::Crypto("cert rotate: old_node_id not 32 bytes".to_owned()),
        ),
        Field::Id(b) => b,
    };
    let new_id: [u8; 32] = match read_field(m.new_node_id.as_str()) {
        Field::NoHex => return Err(
            Error::Crypto("cert rotate: bad new_node_id hex".to_owned()),
        ),
        Field::NoId => return Err(
            Error::Crypto("cert rotate: new_node_id not 32 bytes".to_owned()),
        ),
        Field::Id(b) => b,
    };
    let sig: [u8; 32] = match read_field(m.link_sig.as_str()) {
        Field::NoHex => return Err(Error::Crypto("cert rotate: bad sig hex".to_owned())),
        Field::NoId => return Err(Error::Crypto("cert rotate: sig not 32 bytes".to_owned())),
        Field::Id(b) => b,
    };
    Ok((old_id, new_id, sig))
}

/// Checks an announcement that came over a link with the key `link_key`, with a
/// certificate of which `cert` was found.
pub fn verify_rotation(link_key: &[u8; 32], msg: &CertRotate, cert: CertFinding) -> (r: Result<
    [u8; 32],
    Error,
>)
    ensures
        rotation_verdict(r, link_key@, *msg, cert),
{
    let (old_id, new_id, sig): ([u8; 32], [u8; 32], [u8; 32]) = match read_announcement(msg) {
        Ok(x) => x,
        Err(e) => return Err(e),
    };
    let expect: [u8; 32] = compute_rotation_sig(
        link_key,
        &old_id,
        &new_id,
        msg.new_cert_json.as_str(),
        msg.seq,
        msg.ts,
    );
    if !ct_eq_32(&sig, &expect) {
        return Err(Error::AuthFailed);
    }
    match cert {
        CertFinding::Unreadable(e) => Err(e),
        CertFinding::Unsound => Err(Error::Crypto("cert rotate: math failed".to_owned())),
        CertFinding::Sound(id) => {
            if bytes_eq(&id, &new_id) {
                Ok(id)
            } else {
                Err(Error::Crypto("cert rotate: node_id binding mismatch".to_owned()))
            }
        },
    }
}

/// `m` announces the step from `old_id` to `new_id` over a link with the key `key`.
pub open spec fn announces(
    m: CertRotate,
    key: Seq<u8>,
    old_id: Seq<u8>,
    new_id: Seq<u8>,
    json: Seq<char>,
    seq: u64,
    ts: u64,
) -> bool {
    &&& m.old_node_id@ == text::hex_of(old_id)
    &&& m.new_node_id@ == text::hex_of(new_id)
    &&& m.new_cert_json@ == json
    &&& m.seq == seq
    &&& m.ts == ts
    &&& m.link_sig@ == text::hex_of(rotation_tag(key, old_id, new_id, json, seq, ts))
}

/// The announcement for one link.
pub fn announce_rotation(
    link_key: &[u8; 32],
    old_node_id: &[u8; 32],
    new_node_id: &[u8; 32],
    new_cert_json: &str,
    seq: u64,
    ts: u64,
) -> (r: CertRotate)
    ensures
        announces(r, link_key@, old_node_id@, new_node_id@, new_cert_json@, seq, ts),
        is_announced(link_key@, r),
{
    let sig: [u8; 32] = compute_rotation_sig(
        link_key,
        old_node_id,
        new_node_id,
        new_cert_json,
        seq,
        ts,
    );
    proof {
        text::lemma_hex_roundtrip(old_node_id@);
        text::lemma_hex_roundtrip(new_node_id@);
        text::lemma_hex_roundtrip(sig@);
    }
    CertRotate {
        old_node_id: hex_encode(old_node_id),
        new_node_id: hex_encode(new_node_id),
        new_cert_json: new_cert_json.to_owned(),
        seq,
        ts,
        link_sig: hex_encode(&sig),
    }
}

/// What a node announces over a link, the other end of the link accepts, if the
/// certificate is sound and of the new identifier.
pub proof fn law_an_announcement_is_accepted(
    r: Result<[u8; 32], Error>,
    m: CertRotate,
    key: Seq<u8>,
    old_id: Seq<u8>,
    new_id: [u8; 32],
    json: Seq<char>,
    seq: u64,
    ts: u64,
)
    requires
        old_id.len() == 32,
        rotation_tag(key, old_id, new_id@, json, seq, ts).len() == 32,
        announces(m, key, old_id, new_id@, json, seq, ts),
        rotation_verdict(r, key, m, CertFinding::Sound(new_id)),
    ensures
        r == Ok::<[u8; 32], Error>(new_id),
{
    text::lemma_hex_roundtrip(old_id);
    text::lemma_hex_roundtrip(new_id@);
    text::lemma_hex_roundtrip(rotation_tag(key, old_id, new_id@, json, seq, ts));
}

/// An accepted announcement is one whose tag fits the link, and whose certificate
/// is sound and of the identifier that it claims.
pub proof fn law_acceptance_is_earned(
    r: Result<[u8; 32], Error>,
    key: Seq<u8>,
    m: CertRotate,
    cert: CertFinding,
)
    requires
        rotation_verdict(r, key, m, cert),
    ensures
        r matches Ok(id) ==> is_announced(key, m) && cert == CertFinding::Sound(id) && Some(id@)
            == id_in(m.new_node_id@),
        is_announced(key, m) && (cert matches CertFinding::Sound(id) && Some(id@) == id_in(
            m.new_node_id@,
        )) ==> r is Ok,
{
}

/// The tag is over the identifiers, the certificate's text, the count and the time:
/// two announcements with one message agree in each.
pub proof fn law_the_message_fixes_the_announcement(
    o1: Seq<u8>,
    n1: Seq<u8>,
    j1: Seq<char>,
    s1: u64,
    t1: u64,
    o2: Seq<u8>,
    n2: Seq<u8>,
    j2: Seq<char>,
    s2: u64,
    t2: u64,
)
    requires
        o1.len() == 32 && n1.len() == 32,
        o2.len() == 32 && n2.len() == 32,
        rotation_message(o1, n1, j1, s1, t1) == rotation_message(o2, n2, j2, s2, t2),
    ensures
        o1 == o2,
        n1 == n2,
        j1 == j2,
        s1 == s2,
        t1 == t2,
{
    let a = rotation_message(o1, n1, j1, s1, t1);
    let b = rotation_message(o2, n2, j2, s2, t2);
    let p = "phinet-cert-rotate-v1:".spec_bytes().len() as int;
    let e1 = encode_utf8(j1);
    let e2 = encode_utf8(j2);
    bytes::lemma_be_bytes_len(s1 as nat, 8);
    bytes::lemma_be_bytes_len(s2 as nat, 8);
    bytes::lemma_be_bytes_len(t1 as nat, 8);
    bytes::lemma_be_bytes_len(t2 as nat, 8);
    assert(a.len() == p + 80 + e1.len());
    assert(b.len() == p + 80 + e2.len());
    let l = e1.len() as int;
    assert(a.subrange(p, p + 32) =~= o1);
    assert(b.subrange(p, p + 32) =~= o2);
    assert(a.subrange(p + 32, p + 64) =~= n1);
    assert(b.subrange(p + 32, p + 64) =~= n2);
    assert(a.subrange(p + 64, p + 64 + l) =~= e1);
    assert(b.subrange(p + 64, p + 64 + l) =~= e2);
    encode_utf8_decode_utf8(j1);
    encode_utf8_decode_utf8(j2);
    assert(a.subrange(p + 64 + l, p + 72 + l) =~= bytes::be_bytes(s1 as nat, 8));
    assert(b.subrange(p + 64 + l, p + 72 + l) =~= bytes::be_bytes(s2 as nat, 8));
    assert(a.subrange(p + 72 + l, p + 80 + l) =~= bytes::be_bytes(t1 as nat, 8));
    assert(b.subrange(p + 72 + l, p + 80 + l) =~= bytes::be_bytes(t2 as nat, 8));
    bytes::lemma_pow256();
    bytes::lemma_be_injective(s1 as nat, s2 as nat, 8);
    bytes::lemma_be_injective(t1 as nat, t2 as nat, 8);
}

/// A node that announces a new certificate over a link is believed by the other end of
/// that link, where the certificate is sound and of the identifier announced; over a link
/// with another key only where the tags are the same.
pub proof fn law_announcements_are_believed(
    key: &[u8; 32],
    other: &[u8; 32],
    old_id: &[u8; 32],
    new_id: &[u8; 32],
    json: &str,
    seq: u64,
    ts: u64,
    m: CertRotate,
    r: Result<[u8; 32], Error>,
    wrong: Result<[u8; 32], Error>,
    id: [u8; 32],
)
    requires
        id@ == new_id@,
        call_ensures(announce_rotation, (key, old_id, new_id, json, seq, ts), m),
        call_ensures(verify_rotation, (key, &m, CertFinding::Sound(id)), r),
        call_ensures(verify_rotation, (other, &m, CertFinding::Sound(id)), wrong),
    ensures
        r == Ok::<[u8; 32], Error>(id),
        wrong is Ok <==> rotation_tag(other@, old_id@, new_id@, json@, seq, ts) == rotation_tag(
            key@,
            old_id@,
            new_id@,
            json@,
            seq,
            ts,
        ),
        wrong is Err ==> wrong->Err_0 == Error::AuthFailed,
{
    text::lemma_hex_roundtrip(old_id@);
    text::lemma_hex_roundtrip(new_id@);
    text::lemma_hex_roundtrip(rotation_tag(key@, old_id@, new_id@, json@, seq, ts));
}

/// No certificate is taken over that is unsound, that cannot be read, or that belongs to
/// another identifier than the one announced.
pub proof fn law_unsound_certificates_are_refused(
    key: &[u8; 32],
    m: &CertRotate,
    e: Error,
    id: [u8; 32],
    unreadable: Result<[u8; 32], Error>,
    unsound: Result<[u8; 32], Error>,
    other: Result<[u8; 32], Error>,
)
    requires
        call_ensures(verify_rotation, (key, m, CertFinding::Unreadable(e)), unreadable),
        call_ensures(verify_rotation, (key, m, CertFinding::Unsound), unsound),
        call_ensures(verify_rotation, (key, m, CertFinding::Sound(id)), other),
        text::hex_of(id@) != text::lowered(m.new_node_id@),
    ensures
        unreadable is Err && unsound is Err && other is Err,
{
    if text::is_hex(m.new_node_id@) {
        text::lemma_unhex_lowered(m.new_node_id@);
    }
}

/// An identifier is read from the text that spells it, in either case, and from no text of
/// another length.
pub proof fn law_identifiers_are_read(id: &[u8; 32], s: &str, r: Option<[u8; 32]>, other: &str, o: Option<[u8; 32]>)
    requires
        s@ == text::hex_of(id@),
        call_ensures(parse_id, (s,), r),
        call_ensures(parse_id, (other,), o),
    ensures
        r is Some && r->0@ == id@,
        o is Some ==> other@.len() == 64 && text::hex_of(o->0@) == text::lowered(other@),
{
    text::lemma_hex_roundtrip(id@);
    if o is Some {
        text::lemma_unhex_lowered(other@);
    }
}

/// The tag of an announcement is over the label, both identifiers, the certificate, the
/// count and the time, in this order.
pub proof fn law_what_the_tag_is_over(
    key: &[u8; 32],
    old_id: &[u8; 32],
    new_id: &[u8; 32],
    json: &str,
    seq: u64,
    ts: u64,
    r: [u8; 32],
)
    requires
        call_ensures(compute_rotation_sig, (key, old_id, new_id, json, seq, ts), r),
    ensures
        r@ == crypto::hmac_of(
            key@,
            "phinet-cert-rotate-v1:".spec_bytes() + old_id@ + new_id@ + encode_utf8(json@) + bytes::be_bytes(
                seq as nat,
                8,
            ) + bytes::be_bytes(ts as nat, 8),
        ),
{
}

} // verus!
