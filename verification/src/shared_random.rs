//! A value per period that no single authority can predict or choose.
//!
//! Every authority first publishes a commitment to its contribution and reveals
//! the contribution only when all commitments are in. The shared value hashes
//! the contributions in the order of the authorities' identifiers.

use crate::bytes;
use crate::bytes::{append, bytes_before, bytes_eq, push_be};
use crate::crypto;
use crate::crypto::{random_32, sha256};
use crate::text;
use crate::text::{hex_encode, str_eq};
use vstd::prelude::*;
use vstd::string::*;
use vstd::utf8::*;

verus! {

/// Bytes that each authority contributes.
pub const CONTRIBUTION_LEN: usize = 32;

/// The commitment of an authority to a contribution for a period.
pub open spec fn commitment(authority: Seq<char>, value: Seq<u8>, period: u64) -> Seq<char> {
    text::hex_of(
        crypto::sha256_of(
            "phinet-srv-commit-v1".spec_bytes() + encode_utf8(authority) + bytes::be_bytes(
                period as nat,
                8,
            ) + value,
        ),
    )
}

/// Commits to a contribution without revealing it.
pub fn commit(authority_id: &str, value: &[u8; 32], period: u64) -> (r: String)
    ensures
        r@ == commitment(authority_id@, value@, period),
{
    let mut data: Vec<u8> = Vec::new();
    append(&mut data, "phinet-srv-commit-v1".as_bytes());
    append(&mut data, authority_id.as_bytes());
    push_be(&mut data, period, 8);
    append(&mut data, value.as_slice());
    assert(data@ =~= "phinet-srv-commit-v1".spec_bytes() + encode_utf8(authority_id@) + bytes::be_bytes(
        period as nat,
        8,
    ) + value@);
    let digest: [u8; 32] = sha256(&data);
    hex_encode(digest.as_slice())
}

/// Whether a revealed contribution is the one committed to.
pub fn check_reveal(authority_id: &str, value: &[u8; 32], period: u64, commitment: &str) -> (r:
    bool)
    ensures
        r == (commitment@ == self::commitment(authority_id@, value@, period)),
{
    let expected: String = commit(authority_id, value, period);
    str_eq(expected.as_str(), commitment)
}

/// A contribution that matched its commitment.
#[derive(Clone, Debug, PartialEq)]
pub struct Reveal {
    pub authority_id: String,
    pub value: [u8; 32],
}

/// The contributions by the bytes of the authorities' identifiers. Of several
/// reveals of one authority the least value counts, whichever came first.
pub open spec fn contributions(reveals: Seq<Reveal>) -> Map<Seq<u8>, Seq<u8>>
    decreases reveals.len(),
{
    if reveals.len() == 0 {
        Map::empty()
    } else {
        let before = contributions(reveals.drop_last());
        let id = encode_utf8(reveals.last().authority_id@);
        let value = reveals.last().value@;
        if before.contains_key(id) && !bytes::bytes_lt(value, before[id]) {
            before
        } else {
            before.insert(id, value)
        }
    }
}

/// The keys of `l` ascend in byte order.
pub open spec fn ascends(l: Seq<(Seq<u8>, Seq<u8>)>) -> bool {
    forall|i: int, j: int|
        0 <= i < j < l.len() ==> bytes::bytes_lt((#[trigger] l[i]).0, (#[trigger] l[j]).0)
}

/// `l` lists the entries of `m` in the byte order of the keys.
pub open spec fn listing(l: Seq<(Seq<u8>, Seq<u8>)>, m: Map<Seq<u8>, Seq<u8>>) -> bool {
    &&& ascends(l)
    &&& forall|i: int| 0 <= i < l.len() ==> m.contains_key((#[trigger] l[i]).0) && m[l[i].0] == l[i].1
    &&& forall|k: Seq<u8>| #[trigger]
        m.contains_key(k) ==> exists|i: int| 0 <= i < l.len() && (#[trigger] l[i]).0 == k
}

/// The listed contributions as they are hashed: the length of the identifier,
/// the identifier, the value.
pub open spec fn transcript(l: Seq<(Seq<u8>, Seq<u8>)>) -> Seq<u8>
    decreases l.len(),
{
    if l.len() == 0 {
        Seq::empty()
    } else {
        transcript(l.drop_last()) + bytes::be_bytes(l.last().0.len(), 4) + l.last().0 + l.last().1
    }
}

/// The contributions in the order in which they are hashed.
pub open spec fn ordered(m: Map<Seq<u8>, Seq<u8>>) -> Seq<(Seq<u8>, Seq<u8>)> {
    choose|l: Seq<(Seq<u8>, Seq<u8>)>| listing(l, m)
}

/// What is hashed into the shared value of the contributions `m` for a period.
pub open spec fn hashed(m: Map<Seq<u8>, Seq<u8>>, period: u64) -> Seq<u8> {
    "phinet-srv-v1".spec_bytes() + bytes::be_bytes(period as nat, 8) + transcript(ordered(m))
}

/// The shared value of the contributions `m` for a period.
pub open spec fn shared_value(m: Map<Seq<u8>, Seq<u8>>, period: u64) -> Seq<char> {
    text::hex_of(crypto::sha256_of(hashed(m, period)))
}

/// The shared value of reveals, where enough authorities contributed.
pub open spec fn srv_of(reveals: Seq<Reveal>, period: u64, min_reveals: usize) -> Option<Seq<char>> {
    if contributions(reveals).dom().len() < min_reveals {
        None
    } else {
        Some(shared_value(contributions(reveals), period))
    }
}

proof fn lemma_listing_unique(
    a: Seq<(Seq<u8>, Seq<u8>)>,
    b: Seq<(Seq<u8>, Seq<u8>)>,
    m: Map<Seq<u8>, Seq<u8>>,
)
    requires
        listing(a, m),
        listing(b, m),
    ensures
        a == b,
    decreases a.len(),
{
    if a.len() == 0 {
        if b.len() > 0 {
            assert(m.contains_key(b[0].0));
            let i = choose|i: int| 0 <= i < a.len() && (#[trigger] a[i]).0 == b[0].0;
            assert(false);
        }
        assert(a =~= b);
    } else {
        let ka = a.last().0;
        assert(m.contains_key(a[a.len() - 1].0));
        let ib = choose|i: int| 0 <= i < b.len() && (#[trigger] b[i]).0 == ka;
        let kb = b.last().0;
        assert(m.contains_key(b[b.len() - 1].0));
        let ia = choose|i: int| 0 <= i < a.len() && (#[trigger] a[i]).0 == kb;
        bytes::lemma_bytes_lt_total(ka, kb);
        if ka != kb {
            assert(ib < b.len() - 1);
            assert(bytes::bytes_lt(b[ib].0, b[b.len() - 1].0));
            assert(ia < a.len() - 1);
            assert(bytes::bytes_lt(a[ia].0, a[a.len() - 1].0));
            assert(false);
        }
        assert(m[a[a.len() - 1].0] == a.last().1);
        assert(m[b[b.len() - 1].0] == b.last().1);
        assert(a.last() == b.last());
        let m2 = m.remove(ka);
        lemma_listing_shorter(a, m);
        lemma_listing_shorter(b, m);
        lemma_listing_unique(a.drop_last(), b.drop_last(), m2);
        assert(a =~= a.drop_last().push(a.last()));
        assert(b =~= b.drop_last().push(b.last()));
    }
}

proof fn lemma_listing_shorter(a: Seq<(Seq<u8>, Seq<u8>)>, m: Map<Seq<u8>, Seq<u8>>)
    requires
        listing(a, m),
        a.len() > 0,
    ensures
        listing(a.drop_last(), m.remove(a.last().0)),
{
    let t = a.drop_last();
    let m2 = m.remove(a.last().0);
    assert forall|i: int, j: int| 0 <= i < j < t.len() implies bytes::bytes_lt(
        (#[trigger] t[i]).0,
        (#[trigger] t[j]).0,
    ) by {
        assert(bytes::bytes_lt(a[i].0, a[j].0));
    }
    assert forall|i: int| 0 <= i < t.len() implies m2.contains_key((#[trigger] t[i]).0) && m2[t[i].0]
        == t[i].1 by {
        assert(bytes::bytes_lt(a[i].0, a[a.len() - 1].0));
        bytes::lemma_bytes_lt_total(a[i].0, a[i].0);
        assert(m.contains_key(a[i].0));
    }
    assert forall|k: Seq<u8>| #[trigger] m2.contains_key(k) implies exists|i: int|
        0 <= i < t.len() && (#[trigger] t[i]).0 == k by {
        assert(m.contains_key(k));
        let i = choose|i: int| 0 <= i < a.len() && (#[trigger] a[i]).0 == k;
        assert(t[i].0 == k);
    }
}

proof fn lemma_ordered(l: Seq<(Seq<u8>, Seq<u8>)>, m: Map<Seq<u8>, Seq<u8>>)
    requires
        listing(l, m),
    ensures
        ordered(m) == l,
{
    lemma_listing_unique(ordered(m), l, m);
}

proof fn lemma_listing_len(l: Seq<(Seq<u8>, Seq<u8>)>, m: Map<Seq<u8>, Seq<u8>>)
    requires
        listing(l, m),
    ensures
        m.dom().finite(),
        m.dom().len() == l.len(),
    decreases l.len(),
{
    if l.len() == 0 {
        assert(m.dom() =~= Set::empty()) by {
            assert forall|k: Seq<u8>| !m.dom().contains(k) by {
                if m.contains_key(k) {
                    let i = choose|i: int| 0 <= i < l.len() && (#[trigger] l[i]).0 == k;
                }
            }
        }
    } else {
        let k = l.last().0;
        lemma_listing_shorter(l, m);
        lemma_listing_len(l.drop_last(), m.remove(k));
        assert(m.contains_key(l[l.len() - 1].0));
        assert(m.dom() =~= m.remove(k).dom().insert(k));
    }
}

/// The authorities that contribute are those that revealed something, and each
/// contributes the least of its values.
proof fn lemma_contributions(a: Seq<Reveal>)
    ensures
        forall|i: int|
            0 <= i < a.len() ==> contributions(a).contains_key(
                encode_utf8((#[trigger] a[i]).authority_id@),
            ) && !bytes::bytes_lt(
                a[i].value@,
                contributions(a)[encode_utf8(a[i].authority_id@)],
            ),
        forall|k: Seq<u8>| #[trigger]
            contributions(a).contains_key(k) ==> exists|i: int|
                0 <= i < a.len() && encode_utf8((#[trigger] a[i]).authority_id@) == k && a[i].value@
                    == contributions(a)[k],
    decreases a.len(),
{
    if a.len() > 0 {
        let t = a.drop_last();
        lemma_contributions(t);
        let n = a.len() - 1;
        let before = contributions(t);
        let after = contributions(a);
        let id = encode_utf8(a[n].authority_id@);
        let value = a[n].value@;
        bytes::lemma_bytes_lt_total(value, value);
        assert forall|i: int| 0 <= i < a.len() implies after.contains_key(
            encode_utf8((#[trigger] a[i]).authority_id@),
        ) && !bytes::bytes_lt(a[i].value@, after[encode_utf8(a[i].authority_id@)]) by {
            if i < n {
                assert(t[i] == a[i]);
                if encode_utf8(a[i].authority_id@) == id && bytes::bytes_lt(a[i].value@, value)
                    && bytes::bytes_lt(value, before[id]) {
                    bytes::lemma_bytes_lt_trans(a[i].value@, value, before[id]);
                }
            }
        }
        assert forall|k: Seq<u8>| #[trigger] after.contains_key(k) implies exists|i: int|
            0 <= i < a.len() && encode_utf8((#[trigger] a[i]).authority_id@) == k && a[i].value@
                == after[k] by {
            if k == id && after[k] == value {
                assert(encode_utf8(a[n].authority_id@) == k);
            } else {
                assert(before.contains_key(k));
                let i = choose|i: int|
                    0 <= i < t.len() && encode_utf8((#[trigger] t[i]).authority_id@) == k
                        && t[i].value@ == before[k];
                assert(a[i] == t[i]);
            }
        }
    }
}

/// The reveal `r` is one of `s`.
pub open spec fn is_among(r: Reveal, s: Seq<Reveal>) -> bool {
    exists|i: int|
        0 <= i < s.len() && (#[trigger] s[i]).authority_id@ == r.authority_id@ && s[i].value@
            == r.value@
}

/// `a` and `b` hold the same reveals, in whatever order and however often.
pub open spec fn same_reveals(a: Seq<Reveal>, b: Seq<Reveal>) -> bool {
    &&& forall|i: int| 0 <= i < a.len() ==> is_among(#[trigger] a[i], b)
    &&& forall|i: int| 0 <= i < b.len() ==> is_among(#[trigger] b[i], a)
}

proof fn lemma_contributions_within(a: Seq<Reveal>, b: Seq<Reveal>, k: Seq<u8>)
    requires
        same_reveals(a, b),
        contributions(a).contains_key(k),
    ensures
        contributions(b).contains_key(k),
        contributions(b)[k] == contributions(a)[k],
{
    lemma_contributions(a);
    lemma_contributions(b);
    let (ma, mb) = (contributions(a), contributions(b));
    let i = choose|i: int|
        0 <= i < a.len() && encode_utf8((#[trigger] a[i]).authority_id@) == k && a[i].value@ == ma[k];
    assert(is_among(a[i], b));
    let x = choose|x: int|
        0 <= x < b.len() && (#[trigger] b[x]).authority_id@ == a[i].authority_id@ && b[x].value@
            == a[i].value@;
    assert(mb.contains_key(encode_utf8(b[x].authority_id@)));
    let j = choose|j: int|
        0 <= j < b.len() && encode_utf8((#[trigger] b[j]).authority_id@) == k && b[j].value@ == mb[k];
    assert(is_among(b[j], a));
    let y = choose|y: int|
        0 <= y < a.len() && (#[trigger] a[y]).authority_id@ == b[j].authority_id@ && a[y].value@
            == b[j].value@;
    assert(!bytes::bytes_lt(a[y].value@, ma[encode_utf8(a[y].authority_id@)]));
    bytes::lemma_bytes_lt_total(ma[k], mb[k]);
}

/// Only which reveals arrived matters, not how often each of them did: the same
/// reveals give the same value, or none alike.
pub proof fn law_repeated_reveals_change_nothing(
    a: Seq<Reveal>,
    b: Seq<Reveal>,
    period: u64,
    min_reveals: usize,
)
    requires
        same_reveals(a, b),
    ensures
        contributions(a) == contributions(b),
        srv_of(a, period, min_reveals) == srv_of(b, period, min_reveals),
{
    let (ma, mb) = (contributions(a), contributions(b));
    assert forall|k: Seq<u8>| #[trigger] ma.contains_key(k) implies mb.contains_key(k) && ma[k]
        == mb[k] by {
        lemma_contributions_within(a, b, k);
    }
    assert forall|k: Seq<u8>| #[trigger] mb.contains_key(k) implies ma.contains_key(k) by {
        lemma_contributions_within(b, a, k);
    }
    assert(ma =~= mb);
}

/// The order in which reveals arrive does not matter: in any other order they give
/// the same value, or none alike.
pub proof fn law_arrival_order_does_not_matter(
    a: Seq<Reveal>,
    b: Seq<Reveal>,
    period: u64,
    min_reveals: usize,
)
    requires
        a.to_multiset() == b.to_multiset(),
    ensures
        contributions(a) == contributions(b),
        srv_of(a, period, min_reveals) == srv_of(b, period, min_reveals),
{
    a.to_multiset_ensures();
    b.to_multiset_ensures();
    assert forall|i: int| 0 <= i < a.len() implies is_among(#[trigger] a[i], b) by {
        assert(a.to_multiset().count(a[i]) > 0);
        assert(b.contains(a[i]));
    }
    assert forall|i: int| 0 <= i < b.len() implies is_among(#[trigger] b[i], a) by {
        assert(b.to_multiset().count(b[i]) > 0);
        assert(a.contains(b[i]));
    }
    law_repeated_reveals_change_nothing(a, b, period, min_reveals);
}

/// One authority cannot flood the input: the authorities that count are those of
/// which a reveal arrived, each once. A further reveal of one that is already counted
/// leaves every other authority's contribution as it is.
pub proof fn law_one_authority_counts_once(reveals: Seq<Reveal>, extra: Reveal)
    ensures
        forall|k: Seq<u8>| #[trigger]
            contributions(reveals).contains_key(k) <==> exists|i: int|
                0 <= i < reveals.len() && encode_utf8((#[trigger] reveals[i]).authority_id@) == k,
        contributions(reveals.push(extra)).dom() == contributions(reveals).dom().insert(
            encode_utf8(extra.authority_id@),
        ),
        forall|k: Seq<u8>|
            k != encode_utf8(extra.authority_id@) && contributions(reveals).contains_key(k)
                ==> #[trigger] contributions(reveals.push(extra))[k] == contributions(reveals)[k],
{
    lemma_contributions(reveals);
    assert(reveals.push(extra).drop_last() =~= reveals);
    assert(contributions(reveals.push(extra)).dom() =~= contributions(reveals).dom().insert(
        encode_utf8(extra.authority_id@),
    ));
}

/// Where the key `k` is in an ascending list, or where it belongs.
proof fn lemma_place(l: Seq<(Seq<u8>, Seq<u8>)>, k: Seq<u8>) -> (r: (int, bool))
    requires
        ascends(l),
    ensures
        0 <= r.0 <= l.len(),
        forall|i: int| 0 <= i < r.0 ==> bytes::bytes_lt((#[trigger] l[i]).0, k),
        r.1 ==> r.0 < l.len() && l[r.0].0 == k,
        !r.1 ==> forall|i: int| r.0 <= i < l.len() ==> bytes::bytes_lt(k, (#[trigger] l[i]).0),
    decreases l.len(),
{
    if l.len() == 0 {
        (0, false)
    } else {
        let n = l.len() - 1;
        bytes::lemma_bytes_lt_total(l[n].0, k);
        if bytes::bytes_lt(l[n].0, k) {
            assert forall|i: int| 0 <= i < l.len() implies bytes::bytes_lt((#[trigger] l[i]).0, k) by {
                if i < n {
                    bytes::lemma_bytes_lt_trans(l[i].0, l[n].0, k);
                }
            }
            (n + 1, false)
        } else if l[n].0 == k {
            (n, true)
        } else {
            let t = l.drop_last();
            assert(ascends(t)) by {
                assert forall|i: int, j: int| 0 <= i < j < t.len() implies bytes::bytes_lt(
                    (#[trigger] t[i]).0,
                    (#[trigger] t[j]).0,
                ) by {
                    assert(bytes::bytes_lt(l[i].0, l[j].0));
                }
            }
            let (q, found) = lemma_place(t, k);
            assert forall|i: int| 0 <= i < q implies bytes::bytes_lt((#[trigger] l[i]).0, k) by {
                assert(l[i] == t[i]);
            }
            if !found {
                assert forall|i: int| q <= i < l.len() implies bytes::bytes_lt(
                    k,
                    (#[trigger] l[i]).0,
                ) by {
                    if i < n {
                        assert(l[i] == t[i]);
                    }
                }
            }
            (q, found)
        }
    }
}

/// Contributions can be listed in order.
proof fn lemma_listing_exists(a: Seq<Reveal>) -> (l: Seq<(Seq<u8>, Seq<u8>)>)
    ensures
        listing(l, contributions(a)),
    decreases a.len(),
{
    if a.len() == 0 {
        Seq::empty()
    } else {
        let m = contributions(a.drop_last());
        let l = lemma_listing_exists(a.drop_last());
        let k = encode_utf8(a.last().authority_id@);
        let v = a.last().value@;
        let (p, found) = lemma_place(l, k);
        if found {
            assert(m.contains_key(l[p].0));
            if bytes::bytes_lt(v, m[k]) {
                lemma_replace_entry(l, m, p, v);
                l.update(p, (k, v))
            } else {
                l
            }
        } else {
            assert(!m.contains_key(k)) by {
                if m.contains_key(k) {
                    let i = choose|i: int| 0 <= i < l.len() && (#[trigger] l[i]).0 == k;
                    bytes::lemma_bytes_lt_total(k, k);
                }
            }
            lemma_insert_entry(l, m, p, k, v);
            l.insert(p, (k, v))
        }
    }
}

/// One contribution as it is hashed.
spec fn entry_bytes(e: (Seq<u8>, Seq<u8>)) -> Seq<u8> {
    bytes::be_bytes(e.0.len(), 4) + e.0 + e.1
}

proof fn lemma_transcript_front(l: Seq<(Seq<u8>, Seq<u8>)>)
    requires
        l.len() > 0,
    ensures
        transcript(l) == entry_bytes(l[0]) + transcript(l.skip(1)),
    decreases l.len(),
{
    let t = l.drop_last();
    if t.len() == 0 {
        assert(transcript(t) =~= Seq::empty());
        assert(transcript(l.skip(1)) =~= Seq::empty());
    } else {
        lemma_transcript_front(t);
        assert(l.skip(1).drop_last() =~= t.skip(1));
        assert(l.skip(1).last() == l.last());
    }
    assert(transcript(l) =~= entry_bytes(l[0]) + transcript(l.skip(1)));
}

/// Every identifier is shorter than 4 GiB and every value has its length.
spec fn entries_fit(l: Seq<(Seq<u8>, Seq<u8>)>) -> bool {
    forall|i: int|
        0 <= i < l.len() ==> (#[trigger] l[i]).0.len() < 0x1_0000_0000 && l[i].1.len()
            == CONTRIBUTION_LEN
}

proof fn lemma_transcript_injective(a: Seq<(Seq<u8>, Seq<u8>)>, b: Seq<(Seq<u8>, Seq<u8>)>)
    requires
        entries_fit(a),
        entries_fit(b),
        transcript(a) == transcript(b),
    ensures
        a == b,
    decreases a.len() + b.len(),
{
    bytes::lemma_pow256();
    if a.len() > 0 {
        lemma_transcript_front(a);
        bytes::lemma_be_bytes_len(a[0].0.len(), 4);
    }
    if b.len() > 0 {
        lemma_transcript_front(b);
        bytes::lemma_be_bytes_len(b[0].0.len(), 4);
    }
    if a.len() > 0 && b.len() > 0 {
        let t = transcript(a);
        let (x, y) = (a[0], b[0]);
        assert(bytes::be_bytes(x.0.len(), 4) =~= t.take(4));
        assert(bytes::be_bytes(y.0.len(), 4) =~= t.take(4));
        bytes::lemma_be_injective(x.0.len(), y.0.len(), 4);
        let n = x.0.len() as int;
        assert(x.0 =~= t.subrange(4, 4 + n));
        assert(y.0 =~= t.subrange(4, 4 + n));
        assert(x.1 =~= t.subrange(4 + n, 36 + n));
        assert(y.1 =~= t.subrange(4 + n, 36 + n));
        assert(transcript(a.skip(1)) =~= t.skip(36 + n));
        assert(transcript(b.skip(1)) =~= t.skip(36 + n));
        assert(entries_fit(a.skip(1))) by {
            assert forall|i: int| 0 <= i < a.skip(1).len() implies (#[trigger] a.skip(1)[i]).0.len()
                < 0x1_0000_0000 && a.skip(1)[i].1.len() == CONTRIBUTION_LEN by {
                assert(a.skip(1)[i] == a[i + 1]);
            }
        }
        assert(entries_fit(b.skip(1))) by {
            assert forall|i: int| 0 <= i < b.skip(1).len() implies (#[trigger] b.skip(1)[i]).0.len()
                < 0x1_0000_0000 && b.skip(1)[i].1.len() == CONTRIBUTION_LEN by {
                assert(b.skip(1)[i] == b[i + 1]);
            }
        }
        lemma_transcript_injective(a.skip(1), b.skip(1));
        assert(a =~= seq![a[0]] + a.skip(1));
        assert(b =~= seq![b[0]] + b.skip(1));
    } else {
        assert(a.len() > 0 ==> transcript(a).len() >= entry_bytes(a[0]).len() > 0);
        assert(b.len() > 0 ==> transcript(b).len() >= entry_bytes(b[0]).len() > 0);
        assert(a =~= b);
    }
}

/// Contributions of the same authorities are listed in the same order.
proof fn lemma_same_authorities(
    a: Seq<Reveal>,
    b: Seq<Reveal>,
    la: Seq<(Seq<u8>, Seq<u8>)>,
    lb: Seq<(Seq<u8>, Seq<u8>)>,
)
    requires
        listing(la, contributions(a)),
        listing(lb, contributions(b)),
        contributions(a).dom() == contributions(b).dom(),
    ensures
        la.len() == lb.len(),
        forall|i: int|
            0 <= i < la.len() ==> (#[trigger] la[i]).0 == lb[i].0 && la[i].1.len() == CONTRIBUTION_LEN
                && lb[i].1.len() == CONTRIBUTION_LEN,
{
    let (ma, mb) = (contributions(a), contributions(b));
    let l = Seq::new(la.len(), |i: int| (la[i].0, mb[la[i].0]));
    assert(listing(l, mb)) by {
        assert forall|i: int, j: int| 0 <= i < j < l.len() implies bytes::bytes_lt(
            (#[trigger] l[i]).0,
            (#[trigger] l[j]).0,
        ) by {
            assert(bytes::bytes_lt(la[i].0, la[j].0));
        }
        assert forall|i: int| 0 <= i < l.len() implies mb.contains_key((#[trigger] l[i]).0)
            && mb[l[i].0] == l[i].1 by {
            assert(ma.dom().contains(la[i].0));
            assert(mb.dom().contains(la[i].0));
        }
        assert forall|k: Seq<u8>| #[trigger] mb.contains_key(k) implies exists|i: int|
            0 <= i < l.len() && (#[trigger] l[i]).0 == k by {
            assert(mb.dom().contains(k));
            assert(ma.contains_key(k));
            let i = choose|i: int| 0 <= i < la.len() && (#[trigger] la[i]).0 == k;
            assert(l[i].0 == k);
        }
    }
    lemma_listing_unique(l, lb, mb);
    lemma_contributions(a);
    lemma_contributions(b);
    assert forall|i: int| 0 <= i < la.len() implies (#[trigger] la[i]).0 == lb[i].0
        && la[i].1.len() == CONTRIBUTION_LEN && lb[i].1.len() == CONTRIBUTION_LEN by {
        assert(l[i] == lb[i]);
        assert(ma.contains_key(la[i].0));
        assert(mb.contains_key(lb[i].0));
        let x = choose|x: int|
            0 <= x < a.len() && encode_utf8((#[trigger] a[x]).authority_id@) == la[i].0
                && a[x].value@ == ma[la[i].0];
        let y = choose|y: int|
            0 <= y < b.len() && encode_utf8((#[trigger] b[y]).authority_id@) == lb[i].0
                && b[y].value@ == mb[lb[i].0];
    }
}

/// The values are in the transcript, one for each identifier.
proof fn lemma_transcript_values(a: Seq<(Seq<u8>, Seq<u8>)>, b: Seq<(Seq<u8>, Seq<u8>)>)
    requires
        a.len() == b.len(),
        forall|i: int|
            0 <= i < a.len() ==> (#[trigger] a[i]).0 == b[i].0 && a[i].1.len() == CONTRIBUTION_LEN
                && b[i].1.len() == CONTRIBUTION_LEN,
        transcript(a) == transcript(b),
    ensures
        a == b,
    decreases a.len(),
{
    if a.len() > 0 {
        let n = a.len() - 1;
        let (s, t) = (a.drop_last(), b.drop_last());
        assert(a[n].0 == b[n].0);
        let x = transcript(a);
        let k = x.len() - CONTRIBUTION_LEN;
        assert(a.last().1 =~= x.skip(k));
        assert(b.last().1 =~= x.skip(k));
        let m = k - a[n].0.len() - bytes::be_bytes(a[n].0.len(), 4).len();
        assert(transcript(s) =~= x.take(m));
        assert(transcript(t) =~= x.take(m));
        assert forall|i: int| 0 <= i < s.len() implies (#[trigger] s[i]).0 == t[i].0 && s[i].1.len()
            == CONTRIBUTION_LEN && t[i].1.len() == CONTRIBUTION_LEN by {
            assert(a[i].0 == b[i].0);
        }
        lemma_transcript_values(s, t);
        assert(a =~= s.push(a.last()));
        assert(b =~= t.push(b.last()));
    } else {
        assert(a =~= b);
    }
}

/// No identifier of an authority is as long as 4 GiB.
pub open spec fn short_ids(s: Seq<Reveal>) -> bool {
    forall|i: int| 0 <= i < s.len() ==> encode_utf8((#[trigger] s[i]).authority_id@).len() < 0x1_0000_0000
}

proof fn lemma_entries_fit(a: Seq<Reveal>, l: Seq<(Seq<u8>, Seq<u8>)>)
    requires
        short_ids(a),
        listing(l, contributions(a)),
    ensures
        entries_fit(l),
{
    lemma_contributions(a);
    assert forall|i: int| 0 <= i < l.len() implies (#[trigger] l[i]).0.len() < 0x1_0000_0000
        && l[i].1.len() == CONTRIBUTION_LEN by {
        assert(contributions(a).contains_key(l[i].0));
        let j = choose|j: int|
            0 <= j < a.len() && encode_utf8((#[trigger] a[j]).authority_id@) == l[i].0
                && a[j].value@ == contributions(a)[l[i].0];
    }
}

/// Every contribution and the period count: where the contributions or the periods
/// differ, different bytes are hashed, and values that are nevertheless the same
/// are a collision of the hash function. That holds of the same authorities, and of
/// others whose identifiers are shorter than 4 GiB, as their lengths are written.
pub proof fn law_every_contribution_counts(a: Seq<Reveal>, b: Seq<Reveal>, pa: u64, pb: u64)
    requires
        contributions(a).dom() == contributions(b).dom() || (short_ids(a) && short_ids(b)),
        pa != pb || contributions(a) != contributions(b),
    ensures
        hashed(contributions(a), pa) != hashed(contributions(b), pb),
        shared_value(contributions(a), pa) == shared_value(contributions(b), pb)
            ==> crypto::sha256_of(hashed(contributions(a), pa)) == crypto::sha256_of(
            hashed(contributions(b), pb),
        ),
{
    let (ma, mb) = (contributions(a), contributions(b));
    let (x, y) = (hashed(ma, pa), hashed(mb, pb));
    text::lemma_hex_roundtrip(crypto::sha256_of(x));
    text::lemma_hex_roundtrip(crypto::sha256_of(y));
    let la = lemma_listing_exists(a);
    let lb = lemma_listing_exists(b);
    lemma_ordered(la, ma);
    lemma_ordered(lb, mb);
    if x == y {
        let n = "phinet-srv-v1".spec_bytes().len() as int;
        bytes::lemma_be_bytes_len(pa as nat, 8);
        bytes::lemma_be_bytes_len(pb as nat, 8);
        bytes::lemma_pow256();
        assert(bytes::be_bytes(pa as nat, 8) =~= x.subrange(n, n + 8));
        assert(bytes::be_bytes(pb as nat, 8) =~= x.subrange(n, n + 8));
        bytes::lemma_be_injective(pa as nat, pb as nat, 8);
        assert(transcript(la) =~= x.skip(n + 8));
        assert(transcript(lb) =~= x.skip(n + 8));
        if ma.dom() == mb.dom() {
            lemma_same_authorities(a, b, la, lb);
            lemma_transcript_values(la, lb);
        } else {
            lemma_entries_fit(a, la);
            lemma_entries_fit(b, lb);
            lemma_transcript_injective(la, lb);
        }
        assert forall|k: Seq<u8>| #[trigger] ma.contains_key(k) implies mb.contains_key(k) && ma[k]
            == mb[k] by {
            let i = choose|i: int| 0 <= i < la.len() && (#[trigger] la[i]).0 == k;
            assert(mb.contains_key(lb[i].0));
        }
        assert forall|k: Seq<u8>| #[trigger] mb.contains_key(k) implies ma.contains_key(k) by {
            let i = choose|i: int| 0 <= i < lb.len() && (#[trigger] lb[i]).0 == k;
            assert(ma.contains_key(la[i].0));
        }
        assert(ma =~= mb);
    }
}

/// Where `id` is in the list sorted by identifier, or where it belongs.
fn find_place(sorted: &Vec<usize>, reveals: &[Reveal], id: &[u8]) -> (r: (usize, bool))
    requires
        forall|i: int| 0 <= i < sorted@.len() ==> #[trigger] sorted@[i] < reveals@.len(),
        ascends(entries(sorted@, reveals@)),
    ensures
        r.0 <= sorted@.len(),
        r.1 ==> r.0 < sorted@.len() && entries(sorted@, reveals@)[r.0 as int].0 == id@,
        forall|i: int|
            0 <= i < r.0 ==> bytes::bytes_lt((#[trigger] entries(sorted@, reveals@)[i]).0, id@),
        !r.1 ==> forall|i: int|
            r.0 <= i < sorted@.len() ==> bytes::bytes_lt(
                id@,
                (#[trigger] entries(sorted@, reveals@)[i]).0,
            ),
{
    let ghost l = entries(sorted@, reveals@);
    let mut p: usize = 0;
    while p < sorted.len() && bytes_before(
        reveals[sorted[p]].authority_id.as_str().as_bytes(),
        id,
    )
        invariant
            l == entries(sorted@, reveals@),
            forall|i: int| 0 <= i < sorted@.len() ==> #[trigger] sorted@[i] < reveals@.len(),
            p <= sorted@.len(),
            forall|i: int| 0 <= i < p ==> bytes::bytes_lt((#[trigger] l[i]).0, id@),
        decreases sorted@.len() - p,
    {
        assert(l[p as int].0 == encode_utf8(reveals@[sorted@[p as int] as int].authority_id@));
        p += 1;
    }
    if p < sorted.len() {
        assert(l[p as int].0 == encode_utf8(reveals@[sorted@[p as int] as int].authority_id@));
        let same: bool = bytes_eq(reveals[sorted[p]].authority_id.as_str().as_bytes(), id);
        proof {
            bytes::lemma_bytes_lt_total(l[p as int].0, id@);
            if !same {
                assert forall|i: int| p <= i < sorted@.len() implies bytes::bytes_lt(
                    id@,
                    (#[trigger] l[i]).0,
                ) by {
                    if i > p {
                        bytes::lemma_bytes_lt_trans(id@, l[p as int].0, l[i].0);
                    }
                }
            }
        }
        return (p, same);
    }
    (p, false)
}

/// The identifiers and values of the reveals at the indices `ix`.
spec fn entries(ix: Seq<usize>, reveals: Seq<Reveal>) -> Seq<(Seq<u8>, Seq<u8>)> {
    Seq::new(
        ix.len(),
        |i: int|
            (
                encode_utf8(reveals[ix[i] as int].authority_id@),
                reveals[ix[i] as int].value@,
            ),
    )
}

proof fn lemma_replace_entry(
    l: Seq<(Seq<u8>, Seq<u8>)>,
    m: Map<Seq<u8>, Seq<u8>>,
    p: int,
    v: Seq<u8>,
)
    requires
        listing(l, m),
        0 <= p < l.len(),
    ensures
        listing(l.update(p, (l[p].0, v)), m.insert(l[p].0, v)),
{
    let k = l[p].0;
    let t = l.update(p, (k, v));
    let m2 = m.insert(k, v);
    assert forall|i: int, j: int| 0 <= i < j < t.len() implies bytes::bytes_lt(
        (#[trigger] t[i]).0,
        (#[trigger] t[j]).0,
    ) by {
        assert(bytes::bytes_lt(l[i].0, l[j].0));
    }
    assert forall|i: int| 0 <= i < t.len() implies m2.contains_key((#[trigger] t[i]).0) && m2[t[i].0]
        == t[i].1 by {
        assert(m.contains_key(l[i].0));
        bytes::lemma_bytes_lt_total(k, k);
        if i < p {
            assert(bytes::bytes_lt(l[i].0, l[p].0));
        }
        if i > p {
            assert(bytes::bytes_lt(l[p].0, l[i].0));
        }
    }
    assert forall|c: Seq<u8>| #[trigger] m2.contains_key(c) implies exists|i: int|
        0 <= i < t.len() && (#[trigger] t[i]).0 == c by {
        if c == k {
            assert(t[p].0 == c);
        } else {
            assert(m.contains_key(c));
            let i = choose|i: int| 0 <= i < l.len() && (#[trigger] l[i]).0 == c;
            assert(t[i].0 == c);
        }
    }
}

proof fn lemma_insert_entry(
    l: Seq<(Seq<u8>, Seq<u8>)>,
    m: Map<Seq<u8>, Seq<u8>>,
    p: int,
    k: Seq<u8>,
    v: Seq<u8>,
)
    requires
        listing(l, m),
        0 <= p <= l.len(),
        forall|i: int| 0 <= i < p ==> bytes::bytes_lt((#[trigger] l[i]).0, k),
        forall|i: int| p <= i < l.len() ==> bytes::bytes_lt(k, (#[trigger] l[i]).0),
    ensures
        listing(l.insert(p, (k, v)), m.insert(k, v)),
{
    let t = l.insert(p, (k, v));
    let m2 = m.insert(k, v);
    assert forall|i: int, j: int| 0 <= i < j < t.len() implies bytes::bytes_lt(
        (#[trigger] t[i]).0,
        (#[trigger] t[j]).0,
    ) by {
        let x = if i < p { i } else { i - 1 };
        let y = if j < p { j } else { j - 1 };
        assert(i != p ==> t[i] == l[x]);
        assert(j != p ==> t[j] == l[y]);
    }
    assert forall|i: int| 0 <= i < t.len() implies m2.contains_key((#[trigger] t[i]).0) && m2[t[i].0]
        == t[i].1 by {
        if i != p {
            let x = if i < p { i } else { i - 1 };
            assert(t[i] == l[x]);
            assert(m.contains_key(l[x].0));
            bytes::lemma_bytes_lt_total(k, k);
        }
    }
    assert forall|c: Seq<u8>| #[trigger] m2.contains_key(c) implies exists|i: int|
        0 <= i < t.len() && (#[trigger] t[i]).0 == c by {
        if c == k {
            assert(t[p].0 == c);
        } else {
            assert(m.contains_key(c));
            let i = choose|i: int| 0 <= i < l.len() && (#[trigger] l[i]).0 == c;
            let x = if i < p { i } else { i + 1 };
            assert(t[x] == l[i]);
        }
    }
}

/// The shared value of verified reveals, whatever order they arrived in. Nothing when fewer authorities than
/// `min_reveals` contributed: the choice of a few is no shared randomness.
pub fn compute_srv(reveals: &[Reveal], period: u64, min_reveals: usize) -> (r: Option<String>)
    ensures
        match r {
            Some(s) => srv_of(reveals@, period, min_reveals) == Some(s@),
            None => srv_of(reveals@, period, min_reveals) is None,
        },
{
    let mut sorted: Vec<usize> = Vec::new();
    let mut i: usize = 0;
    assert(reveals@.take(0) =~= Seq::empty());
    assert(listing(entries(sorted@, reveals@), contributions(reveals@.take(0))));
    while i < reveals.len()
        invariant
            i <= reveals@.len(),
            forall|a: int| 0 <= a < sorted@.len() ==> #[trigger] sorted@[a] < reveals@.len(),
            listing(entries(sorted@, reveals@), contributions(reveals@.take(i as int))),
        decreases reveals@.len() - i,
    {
        let ghost l = entries(sorted@, reveals@);
        let ghost m = contributions(reveals@.take(i as int));
        let ghost k = encode_utf8(reveals@[i as int].authority_id@);
        let ghost v = reveals@[i as int].value@;
        assert(reveals@.take(i + 1).drop_last() =~= reveals@.take(i as int));
        let (p, found) = find_place(
            &sorted,
            reveals,
            reveals[i].authority_id.as_str().as_bytes(),
        );
        if found {
            assert(m.contains_key(l[p as int].0));
            assert(m[k] == reveals@[sorted@[p as int] as int].value@);
            if bytes_before(reveals[i].value.as_slice(), reveals[sorted[p]].value.as_slice()) {
                sorted.set(p, i);
                proof {
                    lemma_replace_entry(l, m, p as int, v);
                    assert(entries(sorted@, reveals@) =~= l.update(p as int, (k, v)));
                }
            }
        } else {
            assert(!m.contains_key(k)) by {
                if m.contains_key(k) {
                    let x = choose|x: int| 0 <= x < l.len() && (#[trigger] l[x]).0 == k;
                    bytes::lemma_bytes_lt_total(k, k);
                }
            }
            sorted.insert(p, i);
            proof {
                lemma_insert_entry(l, m, p as int, k, v);
                assert(entries(sorted@, reveals@) =~= l.insert(p as int, (k, v)));
            }
        }
        i += 1;
    }
    assert(reveals@.take(i as int) =~= reveals@);
    let ghost l = entries(sorted@, reveals@);
    proof {
        lemma_ordered(l, contributions(reveals@));
        lemma_listing_len(l, contributions(reveals@));
    }
    if sorted.len() < min_reveals {
        return None;
    }
    let mut data: Vec<u8> = Vec::new();
    append(&mut data, "phinet-srv-v1".as_bytes());
    push_be(&mut data, period, 8);
    let ghost head = data@;
    let mut j: usize = 0;
    assert(l.take(0) =~= Seq::empty());
    assert(data@ =~= head + transcript(l.take(0)));
    while j < sorted.len()
        invariant
            j <= sorted@.len(),
            l == entries(sorted@, reveals@),
            forall|a: int| 0 <= a < sorted@.len() ==> #[trigger] sorted@[a] < reveals@.len(),
            data@ == head + transcript(l.take(j as int)),
        decreases sorted@.len() - j,
    {
        let id: &[u8] = reveals[sorted[j]].authority_id.as_str().as_bytes();
        push_be(&mut data, id.len() as u64, 4);
        append(&mut data, id);
        append(&mut data, reveals[sorted[j]].value.as_slice());
        assert(l.take(j + 1).drop_last() =~= l.take(j as int));
        assert(l.take(j + 1).last() == l[j as int]);
        j += 1;
        assert(data@ =~= head + transcript(l.take(j as int)));
    }
    assert(l.take(j as int) =~= l);
    assert(head =~= "phinet-srv-v1".spec_bytes() + bytes::be_bytes(period as nat, 8));
    assert(data@ == hashed(contributions(reveals@), period));
    let digest: [u8; 32] = sha256(&data);
    Some(hex_encode(digest.as_slice()))
}

/// Fresh randomness for an authority's contribution.
pub fn fresh_contribution() -> (r: [u8; 32])
    ensures
        r@.len() == CONTRIBUTION_LEN,
        crypto::is_random(r@),
{
    random_32()
}

/// An authority can reveal what it committed to, and nothing else under the same
/// commitment unless two contributions hash alike.
pub proof fn law_reveals_match_their_commitments(
    authority: &str,
    value: &[u8; 32],
    period: u64,
    c: String,
    text: &str,
    r: bool,
    other: &[u8; 32],
    o: bool,
)
    requires
        call_ensures(commit, (authority, value, period), c),
        text@ == c@,
        call_ensures(check_reveal, (authority, value, period, text), r),
        call_ensures(check_reveal, (authority, other, period, text), o),
    ensures
        r,
        o <==> commitment(authority@, other@, period) == commitment(authority@, value@, period),
{
}

/// The authorities that count are those that revealed, each once, and each with the
/// smallest of the values it revealed.
pub proof fn law_the_smallest_value_counts(reveals: Seq<Reveal>)
    ensures
        forall|i: int|
            0 <= i < reveals.len() ==> contributions(reveals).contains_key(
                encode_utf8((#[trigger] reveals[i]).authority_id@),
            ) && !bytes::bytes_lt(
                reveals[i].value@,
                contributions(reveals)[encode_utf8(reveals[i].authority_id@)],
            ),
        forall|id: Seq<u8>| #[trigger]
            contributions(reveals).contains_key(id) ==> exists|i: int|
                0 <= i < reveals.len() && encode_utf8((#[trigger] reveals[i]).authority_id@) == id
                    && reveals[i].value@ == contributions(reveals)[id],
{
    lemma_contributions(reveals);
}

/// A shared value comes about exactly where enough authorities revealed, and two nodes that
/// saw the same reveals, in whatever order and however often, have the same one.
pub proof fn law_nodes_agree_on_the_shared_value(
    a: &[Reveal],
    b: &[Reveal],
    period: u64,
    min: usize,
    x: Option<String>,
    y: Option<String>,
)
    requires
        same_reveals(a@, b@),
        call_ensures(compute_srv, (a, period, min), x),
        call_ensures(compute_srv, (b, period, min), y),
    ensures
        x is Some <==> contributions(a@).dom().len() >= min,
        x is Some <==> y is Some,
        x is Some ==> x->0@ == y->0@,
{
    law_repeated_reveals_change_nothing(a@, b@, period, min);
}

/// A commitment hides the contribution behind a hash of the label, the authority, the period
/// and the value.
pub proof fn law_a_commitment_is_a_hash(authority: &str, value: &[u8; 32], period: u64, r: String)
    requires
        call_ensures(commit, (authority, value, period), r),
    ensures
        r@ == text::hex_of(
            crypto::sha256_of(
                "phinet-srv-commit-v1".spec_bytes() + encode_utf8(authority@) + bytes::be_bytes(period as nat, 8)
                    + value@,
            ),
        ),
{
}

/// With one authority the shared value is the hash of the label, the period and what that
/// authority revealed, with the length of its name before it.
pub proof fn law_the_value_of_one_authority(reveals: &[Reveal], period: u64, min: usize, r: Option<String>)
    requires
        reveals@.len() == 1,
        min <= 1,
        call_ensures(compute_srv, (reveals, period, min), r),
    ensures
        ({
            let id = encode_utf8(reveals@[0].authority_id@);
            r is Some && r->0@ == text::hex_of(
                crypto::sha256_of(
                    "phinet-srv-v1".spec_bytes() + bytes::be_bytes(period as nat, 8) + (bytes::be_bytes(id.len(), 4)
                        + id + reveals@[0].value@),
                ),
            )
        }),
{
    let s = reveals@;
    let id = encode_utf8(s[0].authority_id@);
    let v = s[0].value@;
    let m = contributions(s);
    assert(s.drop_last() =~= Seq::empty());
    assert(contributions(s.drop_last()) == Map::<Seq<u8>, Seq<u8>>::empty());
    assert(m =~= Map::<Seq<u8>, Seq<u8>>::empty().insert(id, v));
    assert(m.dom() =~= Set::empty().insert(id));
    let l = seq![(id, v)];
    assert(listing(l, m)) by {
        assert(l[0].0 == id);
    }
    lemma_ordered(l, m);
    assert(l.drop_last() =~= Seq::empty());
    assert(transcript(l.drop_last()) =~= Seq::empty());
    assert(transcript(l) =~= bytes::be_bytes(id.len(), 4) + id + v);
}

} // verus!
