//! Layered encryption through a list of hops.
//!
//! Every layer is sealed to one hop and bound to that hop's address. A hop that
//! opens its layer learns the address of the next hop and the layer for it; the
//! last hop learns the payload. Padding hides how many layers are left.

use crate::bytes::{append, array_32, bytes_eq};
use crate::bytes;
use crate::crypto;
use crate::crypto::{aead_decrypt, aead_encrypt, derive_hop_key, fresh_bytes, random_32, random_u64, x25519_public};
use crate::dht::PeerInfo;
use crate::errors;
use crate::errors::Error;
use crate::json;
use crate::json::{read_envelope, read_layer, write_envelope, write_layer};
use crate::session::CELL_SIZE;
use crate::text;
use crate::text::{append_decimal, chars_of, hex_decode, hex_encode, join2, join3, parse_number, split_ranges, str_eq};
use vstd::prelude::*;
use vstd::slice::*;
use vstd::string::*;
use vstd::utf8::*;

verus! {

/// Hops of an ordinary circuit.
pub const DEFAULT_HOPS: usize = 3;

/// Hops of a circuit with more distance between its ends.
pub const HIGH_SECURITY_HOPS: usize = 5;

/// One relay of a circuit.
#[derive(Debug, Clone)]
pub struct Hop {
    pub host: String,
    pub port: u16,
    /// The relay's static key, in hexadecimal.
    pub static_pub: String,
}

/// An onion, ready to send to the first hop.
#[derive(Debug, Clone)]
pub struct OnionCell {
    /// The outermost layer, in hexadecimal.
    pub cell: String,
}

/// The text of the error that a hop's key gives rise to, if any.
pub open spec fn key_fault(static_pub: Seq<char>) -> Option<Seq<char>> {
    if !text::is_hex(static_pub) {
        Some("static_pub hex: "@ + text::hex_error_text(static_pub))
    } else if static_pub.len() != 64 {
        Some("static_pub wrong length"@)
    } else {
        None
    }
}

impl Hop {
    /// The relay's static key.
    pub fn static_pub_bytes(&self) -> (r: Result<[u8; 32], Error>)
        ensures
            match key_fault(self.static_pub@) {
                None => r matches Ok(k) && k@ == text::unhex(self.static_pub@),
                Some(text) => errors::is_onion(r, text),
            },
    {
        match hex_decode(self.static_pub.as_str()) {
            Ok(v) => {
                if v.len() != 32 {
                    return Err(Error::Onion("static_pub wrong length".to_owned()));
                }
                assert(v@.subrange(0, 32) =~= v@);
                Ok(array_32(&v, 0))
            },
            Err(e) => Err(Error::Onion(join2("static_pub hex: ", e.as_str()))),
        }
    }
}

/// The address that a layer is bound to.
pub open spec fn layer_aad(host: Seq<char>, port: u16) -> Seq<char> {
    host + ":"@ + text::decimal(port as nat)
}

/// The address of a hop as a layer is bound to it.
fn aad_text(host: &str, port: u16) -> (r: String)
    ensures
        r@ == layer_aad(host@, port),
{
    let mut r: String = join2(host, ":");
    append_decimal(&mut r, port as u64);
    r
}

/// The length to which an envelope of `n` bytes is padded: one cell, or the next
/// multiple of a cell above it.
pub open spec fn padded_len(n: nat) -> nat {
    if n <= CELL_SIZE {
        CELL_SIZE as nat
    } else {
        (n / 512 + 1) * 512
    }
}

/// Where the JSON value at the start of `buf` ends, read from `i` on with so many
/// open brackets, inside a string or not, behind a backslash or not.
pub open spec fn value_end(buf: Seq<u8>, i: int, depth: int, in_str: bool, escape: bool) -> int
    decreases buf.len() - i,
{
    if i < 0 || i >= buf.len() {
        buf.len() as int
    } else if escape {
        value_end(buf, i + 1, depth, in_str, false)
    } else if buf[i] == 92 && in_str {
        value_end(buf, i + 1, depth, in_str, true)
    } else if buf[i] == 34 {
        value_end(buf, i + 1, depth, !in_str, false)
    } else if (buf[i] == 123 || buf[i] == 91) && !in_str {
        value_end(buf, i + 1, depth + 1, in_str, false)
    } else if (buf[i] == 125 || buf[i] == 93) && !in_str {
        if depth == 1 {
            i + 1
        } else {
            value_end(buf, i + 1, depth - 1, in_str, false)
        }
    } else {
        value_end(buf, i + 1, depth, in_str, false)
    }
}

/// `buf` without what follows the JSON value at its start.
pub open spec fn trimmed(buf: Seq<u8>) -> Seq<u8> {
    buf.take(value_end(buf, 0, 0, false, false))
}

proof fn lemma_value_end_bounds(buf: Seq<u8>, i: int, depth: int, in_str: bool, escape: bool)
    requires
        0 <= i,
    ensures
        0 <= value_end(buf, i, depth, in_str, escape) <= buf.len(),
    decreases buf.len() - i,
{
    if i < buf.len() {
        lemma_value_end_bounds(buf, i + 1, depth, in_str, false);
        lemma_value_end_bounds(buf, i + 1, depth, in_str, true);
        lemma_value_end_bounds(buf, i + 1, depth, !in_str, false);
        lemma_value_end_bounds(buf, i + 1, depth + 1, in_str, false);
        lemma_value_end_bounds(buf, i + 1, depth - 1, in_str, false);
    }
}

/// Cuts what follows the JSON value at the start of `buf`.
pub fn trim_json_padding(buf: &[u8]) -> (r: &[u8])
    ensures
        r@ == trimmed(buf@),
{
    let mut depth: i128 = 0;
    let mut in_str: bool = false;
    let mut escape: bool = false;
    let mut i: usize = 0;
    while i < buf.len()
        invariant
            i <= buf@.len(),
            -(i as int) <= depth <= i,
            value_end(buf@, 0, 0, false, false) == value_end(
                buf@,
                i as int,
                depth as int,
                in_str,
                escape,
            ),
        decreases buf@.len() - i,
    {
        let b: u8 = buf[i];
        if escape {
            escape = false;
        } else if b == 92 && in_str {
            escape = true;
        } else if b == 34 {
            in_str = !in_str;
        } else if (b == 123 || b == 91) && !in_str {
            depth = depth + 1;
        } else if (b == 125 || b == 93) && !in_str {
            depth = depth - 1;
            if depth == 0 {
                let r: &[u8] = slice_subrange(buf, 0, i + 1);
                assert(r@ =~= trimmed(buf@));
                return r;
            }
        }
        i += 1;
    }
    assert(buf@ =~= trimmed(buf@));
    buf
}

/// The reader's state: open brackets, inside a string, behind a backslash.
type Reading = (int, bool, bool);

/// The state after one more byte; nothing when the value ends with it.
spec fn step(s: Reading, b: u8) -> Option<Reading> {
    let (depth, in_str, escape) = s;
    if escape {
        Some((depth, in_str, false))
    } else if b == 92 && in_str {
        Some((depth, in_str, true))
    } else if b == 34 {
        Some((depth, !in_str, false))
    } else if (b == 123 || b == 91) && !in_str {
        Some((depth + 1, in_str, false))
    } else if (b == 125 || b == 93) && !in_str {
        if depth == 1 {
            None
        } else {
            Some((depth - 1, in_str, false))
        }
    } else {
        Some((depth, in_str, false))
    }
}

/// The state after reading `seg`; nothing when the value ends inside it.
spec fn run(s: Reading, seg: Seq<u8>) -> Option<Reading>
    decreases seg.len(),
{
    if seg.len() == 0 {
        Some(s)
    } else {
        match run(s, seg.drop_last()) {
            None => None,
            Some(t) => step(t, seg.last()),
        }
    }
}

proof fn lemma_run_concat(s: Reading, a: Seq<u8>, b: Seq<u8>, t: Reading)
    requires
        run(s, a) == Some(t),
    ensures
        run(s, a + b) == run(t, b),
    decreases b.len(),
{
    if b.len() == 0 {
        assert(a + b =~= a);
    } else {
        lemma_run_concat(s, a, b.drop_last(), t);
        assert((a + b).drop_last() =~= a + b.drop_last());
    }
}

proof fn lemma_run_one(s: Reading, b: u8)
    ensures
        run(s, seq![b]) == step(s, b),
{
    reveal_with_fuel(run, 2);
    assert(seq![b].drop_last() =~= Seq::empty());
}

proof fn lemma_run_end(buf: Seq<u8>, i: int, s: Reading)
    requires
        0 <= i <= buf.len(),
        run((0, false, false), buf.take(i)) == Some(s),
    ensures
        value_end(buf, 0, 0, false, false) == value_end(buf, i, s.0, s.1, s.2),
    decreases i,
{
    if i > 0 {
        assert(buf.take(i).drop_last() =~= buf.take(i - 1));
        assert(buf.take(i).last() == buf[i - 1]);
        let t = run((0, false, false), buf.take(i - 1))->0;
        lemma_run_end(buf, i - 1, t);
    }
}

proof fn lemma_run_inert(depth: int, in_str: bool, seg: Seq<u8>)
    requires
        forall|k: int|
            0 <= k < seg.len() ==> #[trigger] seg[k] != 34 && (in_str ==> seg[k] != 92) && (!in_str
                ==> seg[k] != 123 && seg[k] != 91 && seg[k] != 125 && seg[k] != 93),
    ensures
        run((depth, in_str, false), seg) == Some((depth, in_str, false)),
    decreases seg.len(),
{
    if seg.len() > 0 {
        let t = seg.drop_last();
        assert forall|k: int| 0 <= k < t.len() implies #[trigger] t[k] != 34 && (in_str ==> t[k]
            != 92) && (!in_str ==> t[k] != 123 && t[k] != 91 && t[k] != 125 && t[k] != 93) by {
            assert(t[k] == seg[k]);
        }
        lemma_run_inert(depth, in_str, t);
        assert(seg[seg.len() - 1] != 34);
    }
}

proof fn lemma_run_escaped(depth: int, b: u8)
    ensures
        run((depth, true, false), json::escaped(b)) == Some((depth, true, false)),
{
    let e = json::escaped(b);
    let s = (depth, true, false);
    if e.len() == 2 {
        assert(e =~= seq![e[0]] + seq![e[1]]);
        lemma_run_one(s, e[0]);
        lemma_run_one((depth, true, true), e[1]);
        lemma_run_concat(s, seq![e[0]], seq![e[1]], (depth, true, true));
    } else if e.len() == 6 {
        let rest = seq![e[2], e[3], e[4], e[5]];
        assert(e =~= seq![e[0]] + (seq![e[1]] + rest));
        lemma_run_one(s, e[0]);
        lemma_run_one((depth, true, true), e[1]);
        lemma_run_inert(depth, true, rest);
        lemma_run_concat((depth, true, true), seq![e[1]], rest, s);
        lemma_run_concat(s, seq![e[0]], seq![e[1]] + rest, (depth, true, true));
    } else {
        lemma_run_inert(depth, true, e);
    }
}

proof fn lemma_run_escaped_text(depth: int, x: Seq<u8>)
    ensures
        run((depth, true, false), json::escaped_text(x)) == Some((depth, true, false)),
    decreases x.len(),
{
    if x.len() > 0 {
        lemma_run_escaped_text(depth, x.drop_last());
        lemma_run_escaped(depth, x.last());
        lemma_run_concat(
            (depth, true, false),
            json::escaped_text(x.drop_last()),
            json::escaped(x.last()),
            (depth, true, false),
        );
    }
}

proof fn lemma_run_quoted(depth: int, x: Seq<u8>)
    ensures
        run((depth, false, false), json::quoted(x)) == Some((depth, false, false)),
{
    let out = (depth, false, false);
    let inside = (depth, true, false);
    lemma_run_one(out, 34u8);
    lemma_run_escaped_text(depth, x);
    lemma_run_one(inside, 34u8);
    lemma_run_concat(out, seq![34u8], json::escaped_text(x), inside);
    lemma_run_concat(out, seq![34u8] + json::escaped_text(x), seq![34u8], inside);
}

proof fn lemma_run_field(depth: int, name: &str, value: Seq<u8>)
    requires
        run((depth, false, false), value) == Some((depth, false, false)),
    ensures
        run((depth, false, false), json::field(name, value)) == Some((depth, false, false)),
{
    let s = (depth, false, false);
    lemma_run_quoted(depth, name.spec_bytes());
    lemma_run_one(s, 58u8);
    lemma_run_concat(s, json::quoted(name.spec_bytes()), seq![58u8], s);
    lemma_run_concat(s, json::quoted(name.spec_bytes()) + seq![58u8], value, s);
}

proof fn lemma_literals()
    ensures
        "null".spec_bytes() == seq![110u8, 117u8, 108u8, 108u8],
        json::quoted("next_host".spec_bytes()).len() == 11,
        json::quoted("next_port".spec_bytes()).len() == 11,
        json::quoted("data".spec_bytes()).len() == 6,
        json::quoted("ephem_pub".spec_bytes()).len() == 11,
        json::quoted("nonce".spec_bytes()).len() == 7,
        json::quoted("aad".spec_bytes()).len() == 5,
        json::quoted("ct".spec_bytes()).len() == 4,
        ":".spec_bytes().len() == 1,
{
    reveal_strlit("null");
    reveal_strlit("next_host");
    reveal_strlit("next_port");
    reveal_strlit("data");
    reveal_strlit("ephem_pub");
    reveal_strlit("nonce");
    reveal_strlit("aad");
    reveal_strlit("ct");
    reveal_strlit(":");
    is_ascii_spec_bytes("null");
    is_ascii_spec_bytes("next_host");
    is_ascii_spec_bytes("next_port");
    is_ascii_spec_bytes("data");
    is_ascii_spec_bytes("ephem_pub");
    is_ascii_spec_bytes("nonce");
    is_ascii_spec_bytes("aad");
    is_ascii_spec_bytes("ct");
    is_ascii_spec_bytes(":");
    json::lemma_escaped_plain("next_host".spec_bytes());
    json::lemma_escaped_plain("next_port".spec_bytes());
    json::lemma_escaped_plain("data".spec_bytes());
    json::lemma_escaped_plain("ephem_pub".spec_bytes());
    json::lemma_escaped_plain("nonce".spec_bytes());
    json::lemma_escaped_plain("aad".spec_bytes());
    json::lemma_escaped_plain("ct".spec_bytes());
    assert("null".spec_bytes() =~= seq![110u8, 117u8, 108u8, 108u8]);
}

proof fn lemma_decimal_bytes(n: nat, k: nat)
    requires
        n < text::pow10(k),
        k > 0,
    ensures
        encode_utf8(text::decimal(n)).len() <= k,
        forall|i: int|
            0 <= i < encode_utf8(text::decimal(n)).len() ==> 48 <= #[trigger] encode_utf8(text::decimal(n))[i]
                <= 57,
{
    text::lemma_decimal(n, k);
    assert(is_ascii_chars(text::decimal(n)));
    is_ascii_chars_encode_utf8(text::decimal(n));
}

proof fn lemma_hex_bytes(b: Seq<u8>)
    ensures
        encode_utf8(text::hex_of(b)).len() == 2 * b.len(),
        json::escaped_text(encode_utf8(text::hex_of(b))) == encode_utf8(text::hex_of(b)),
{
    let h = text::hex_of(b);
    assert forall|i: int| 0 <= i < h.len() implies 48 <= #[trigger] h[i] as int <= 102 && h[i] as int
        != 92 by {}
    assert(is_ascii_chars(h));
    is_ascii_chars_encode_utf8(h);
    json::lemma_escaped_plain(encode_utf8(h));
}

proof fn lemma_pow10_port()
    ensures
        text::pow10(5) == 100_000,
        text::pow10(20) == 100_000_000_000_000_000_000,
{
    reveal_with_fuel(text::pow10, 21);
}

/// Trimming gives back the envelope that was padded, whatever the padding holds.
pub proof fn law_trimming_undoes_padding(
    next: Option<(Seq<char>, u16)>,
    data: Seq<u8>,
    padding: Seq<u8>,
)
    ensures
        trimmed(json::envelope_bytes(next, data) + padding) == json::envelope_bytes(next, data),
{
    lemma_literals();
    lemma_pow10_port();
    let h = json::next_host_json(next);
    let p = json::next_port_json(next);
    let d = json::quoted(encode_utf8(text::hex_of(data)));
    let start = (0int, false, false);
    let one = (1int, false, false);
    match next {
        Some((host, port)) => {
            lemma_run_quoted(1, encode_utf8(host));
            lemma_decimal_bytes(port as nat, 5);
            lemma_run_inert(1, false, p);
        },
        None => {
            lemma_run_inert(1, false, h);
        },
    }
    lemma_run_quoted(1, encode_utf8(text::hex_of(data)));
    lemma_run_field(1, "next_host", h);
    lemma_run_field(1, "next_port", p);
    lemma_run_field(1, "data", d);
    lemma_run_one(start, 123u8);
    lemma_run_one(one, 44u8);
    let s1 = seq![123u8] + json::field("next_host", h);
    let s2 = s1 + seq![44u8];
    let s3 = s2 + json::field("next_port", p);
    let s4 = s3 + seq![44u8];
    let s5 = s4 + json::field("data", d);
    lemma_run_concat(start, seq![123u8], json::field("next_host", h), one);
    lemma_run_concat(start, s1, seq![44u8], one);
    lemma_run_concat(start, s2, json::field("next_port", p), one);
    lemma_run_concat(start, s3, seq![44u8], one);
    lemma_run_concat(start, s4, json::field("data", d), one);
    let e = json::envelope_bytes(next, data);
    assert(e == s5 + seq![125u8]);
    let buf = e + padding;
    let k = s5.len() as int;
    assert(buf.take(k) =~= s5);
    lemma_run_end(buf, k, one);
    assert(buf[k] == 125);
    assert(value_end(buf, k, 1, false, false) == k + 1);
    assert(buf.take(k + 1) =~= e);
}

proof fn lemma_envelope_len(next: Option<(Seq<char>, u16)>, data: Seq<u8>)
    ensures
        json::envelope_bytes(next, data).len() <= 46 + 2 * data.len() + match next {
            Some((host, port)) => 6 * encode_utf8(host).len(),
            None => 0,
        },
{
    lemma_literals();
    lemma_pow10_port();
    lemma_hex_bytes(data);
    if let Some((host, port)) = next {
        json::lemma_escaped_len(encode_utf8(host));
        lemma_decimal_bytes(port as nat, 5);
    }
}

proof fn lemma_layer_len(ephem: Seq<u8>, nonce: u64, aad: Seq<char>, ct: Seq<u8>)
    requires
        ephem.len() == 32,
    ensures
        json::layer_bytes(ephem, nonce, aad, ct).len() <= 126 + 6 * encode_utf8(aad).len() + 2 * ct.len(),
{
    lemma_literals();
    lemma_pow10_port();
    lemma_hex_bytes(ephem);
    lemma_hex_bytes(ct);
    json::lemma_escaped_len(encode_utf8(aad));
    lemma_decimal_bytes(nonce as nat, 20);
}

proof fn lemma_aad_len(host: Seq<char>, port: u16)
    ensures
        encode_utf8(layer_aad(host, port)).len() <= encode_utf8(host).len() + 6,
{
    lemma_literals();
    lemma_pow10_port();
    lemma_decimal_bytes(port as nat, 5);
    text::lemma_encode_concat(host + ":"@, text::decimal(port as nat));
    text::lemma_encode_concat(host, ":"@);
}

/// The text with which a layer for the address `got` is refused at the address
/// `expected`.
pub open spec fn mismatch_text(got: Seq<char>, expected: Seq<char>) -> Seq<char> {
    "AAD mismatch: got '"@ + got + "', expected '"@ + expected + "'"@
}

/// Different hops are addressed differently.
proof fn lemma_addresses_differ(a: Seq<char>, p: u16, b: Seq<char>, q: u16)
    requires
        a != b || p != q,
    ensures
        layer_aad(a, p) != layer_aad(b, q),
{
    reveal_strlit(":");
    text::lemma_decimal_value(p as nat);
    text::lemma_decimal_value(q as nat);
    let (x, y) = (layer_aad(a, p), layer_aad(b, q));
    if x == y {
        let (m, n) = (a.len() as int, b.len() as int);
        let (dp, dq) = (text::decimal(p as nat), text::decimal(q as nat));
        assert(x.len() == m + 1 + dp.len() && y.len() == n + 1 + dq.len());
        assert(x[m] == ':' && y[n] == ':');
        if m < n {
            assert(x[n] == dp[n - m - 1]);
        }
        if n < m {
            assert(y[m] == dq[m - n - 1]);
        }
        assert(m == n);
        assert(a =~= x.take(m));
        assert(b =~= y.take(m));
        assert(dp =~= x.skip(m + 1));
        assert(dq =~= y.skip(m + 1));
    }
}

/// What a hop with the secret `secret` and the address `aad` makes of a layer:
/// the next host and port, if any, and the data; or the text of the error; or,
/// for a layer whose seal does not fit, no text.
pub open spec fn peeled(layer: Seq<u8>, secret: Seq<u8>, aad: Seq<char>) -> Result<
    (Option<Seq<char>>, Option<u16>, Seq<u8>),
    Option<Seq<char>>,
> {
    match json::layer_read(layer) {
        None => Err(Some("layer wrapper: "@ + json::layer_error_text(layer))),
        Some((e, n, a, c)) => if !text::is_hex(e) {
            Err(Some("ephem_pub hex: "@ + text::hex_error_text(e)))
        } else if text::unhex(e).len() != 32 {
            Err(Some("ephem_pub wrong length"@))
        } else if a != aad {
            Err(Some(mismatch_text(a, aad)))
        } else if !text::is_hex(c) {
            Err(Some("ct hex: "@ + text::hex_error_text(c)))
        } else {
            opened_layer(
                crypto::open_of(crypto::hop_key_of(secret, text::unhex(e)), crypto::nonce_of(n), encode_utf8(a), text::unhex(c)),
            )
        },
    }
}

/// What is in an opened layer.
pub open spec fn opened_layer(padded: Option<Seq<u8>>) -> Result<
    (Option<Seq<char>>, Option<u16>, Seq<u8>),
    Option<Seq<char>>,
> {
    match padded {
        None => Err(None),
        Some(p) => match json::envelope_read(trimmed(p)) {
            None => Err(Some("envelope parse: "@ + json::envelope_error_text(trimmed(p)))),
            Some((h, q, d)) => if !text::is_hex(d) {
                Err(Some("data hex: "@ + text::hex_error_text(d)))
            } else {
                Ok((h, q, text::unhex(d)))
            },
        },
    }
}

/// The result `r` of peeling says what `out` says.
pub open spec fn peel_result(
    r: Result<(Option<String>, Option<u16>, Vec<u8>), Error>,
    out: Result<(Option<Seq<char>>, Option<u16>, Seq<u8>), Option<Seq<char>>>,
) -> bool {
    match out {
        Ok((h, p, d)) => r matches Ok((rh, rp, rd)) && rp == p && rd@ == d && match h {
            Some(s) => rh is Some && rh->0@ == s,
            None => rh is None,
        },
        Err(Some(text)) => errors::is_onion(r, text),
        Err(None) => r matches Err(Error::AuthFailed),
    }
}

/// The result of peeling is the next hop `next` and the data `data`.
pub open spec fn peels_to(
    r: Result<(Option<String>, Option<u16>, Vec<u8>), Error>,
    next: Option<(Seq<char>, u16)>,
    data: Seq<u8>,
) -> bool {
    peel_result(
        r,
        Ok(
            match next {
                Some((h, p)) => (Some(h), Some(p), data),
                None => (None, None, data),
            },
        ),
    )
}

/// The layer `layer` was sealed for the hop with the key `hop_pub`, and what was sealed under
/// the key of the exchange with that hop opens under the key of the exchange with `secret`.
pub open spec fn opens_across(
    hop_pub: Seq<u8>,
    aad: Seq<char>,
    next: Option<(Seq<char>, u16)>,
    data: Seq<u8>,
    layer: Seq<u8>,
    secret: Seq<u8>,
) -> bool {
    exists|padding: Seq<u8>, ephem: Seq<u8>, nonce: u64|
        layer == #[trigger] sealed_layer(
            hop_pub,
            aad,
            json::envelope_bytes(next, data),
            padding,
            ephem,
            nonce,
        ) && crypto::open_of(
            crypto::hop_key_of(secret, crypto::x25519_public_of(ephem)),
            crypto::nonce_of(nonce),
            encode_utf8(aad),
            crypto::seal_of(
                crypto::hop_key_of(ephem, hop_pub),
                crypto::nonce_of(nonce),
                encode_utf8(aad),
                json::envelope_bytes(next, data) + padding,
            ),
        ) is Some
}

/// `r` is what the hop with the secret `secret` at the address `host`, `port` is owed for
/// `cell`: a layer that was wrapped for it gives back what was wrapped, one that was wrapped
/// for another address is refused, and one that was wrapped for another key is refused unless
/// what was sealed under one key opens under another.
pub open spec fn gives_back(
    r: Result<(Option<String>, Option<u16>, Vec<u8>), Error>,
    cell: Seq<char>,
    secret: Seq<u8>,
    host: Seq<char>,
    port: u16,
) -> bool {
    &&& forall|next: Option<(Seq<char>, u16)>, data: Seq<u8>|
        text::is_hex(cell) && #[trigger] is_layer(
            crypto::x25519_public_of(secret),
            layer_aad(host, port),
            next,
            data,
            text::unhex(cell),
        ) ==> peels_to(r, next, data)
    &&& forall|
        hop_pub: Seq<u8>,
        other: Seq<char>,
        other_port: u16,
        next: Option<(Seq<char>, u16)>,
        data: Seq<u8>,
    |
        text::is_hex(cell) && (other != host || other_port != port) && #[trigger] is_layer(
            hop_pub,
            layer_aad(other, other_port),
            next,
            data,
            text::unhex(cell),
        ) ==> errors::is_onion(
            r,
            mismatch_text(layer_aad(other, other_port), layer_aad(host, port)),
        )
    &&& forall|hop_pub: Seq<u8>, next: Option<(Seq<char>, u16)>, data: Seq<u8>|
        text::is_hex(cell) && r is Ok && #[trigger] is_layer(
            hop_pub,
            layer_aad(host, port),
            next,
            data,
            text::unhex(cell),
        ) ==> opens_across(
            hop_pub,
            layer_aad(host, port),
            next,
            data,
            text::unhex(cell),
            secret,
        )
}

/// A layer for another key is refused: where the hop with the secret `secret` gets anything
/// out of a layer that was wrapped for the key `hop_pub`, what was sealed under one key opens
/// under another.
pub proof fn law_other_keys_open_nothing(
    r: Result<(Option<String>, Option<u16>, Vec<u8>), Error>,
    cell: Seq<char>,
    secret: Seq<u8>,
    host: Seq<char>,
    port: u16,
    hop_pub: Seq<u8>,
    next: Option<(Seq<char>, u16)>,
    data: Seq<u8>,
)
    requires
        gives_back(r, cell, secret, host, port),
        text::is_hex(cell),
        is_layer(hop_pub, layer_aad(host, port), next, data, text::unhex(cell)),
        hop_pub != crypto::x25519_public_of(secret),
    ensures
        r is Ok ==> opens_across(
            hop_pub,
            layer_aad(host, port),
            next,
            data,
            text::unhex(cell),
            secret,
        ),
{
}

/// Peels one layer with this node's static secret. Returns the next host and
/// port, which the last hop does not get, and the data for the next hop. A layer
/// that was wrapped for this node gives back what was wrapped; one that was wrapped for
/// another address is refused.
pub fn peel(cell_hex: &str, static_priv: &[u8; 32], our_host: &str, our_port: u16) -> (r: Result<
    (Option<String>, Option<u16>, Vec<u8>),
    Error,
>)
    requires
        cell_hex@.len() <= crypto::cipher_limit(),
    ensures
        if text::is_hex(cell_hex@) {
            peel_result(
                r,
                peeled(text::unhex(cell_hex@), static_priv@, layer_aad(our_host@, our_port)),
            )
        } else {
            errors::is_onion(r, "cell hex: "@ + text::hex_error_text(cell_hex@))
        },
        gives_back(r, cell_hex@, static_priv@, our_host@, our_port),
{
    let cell: Vec<u8> = match hex_decode(cell_hex) {
        Ok(v) => v,
        Err(e) => {
            return Err(Error::Onion(join2("cell hex: ", e.as_str())));
        },
    };
    let r: Result<(Option<String>, Option<u16>, Vec<u8>), Error> = peel_layer(
        &cell,
        static_priv,
        our_host,
        our_port,
    );
    proof {
        let aad = layer_aad(our_host@, our_port);
        assert forall|next: Option<(Seq<char>, u16)>, data: Seq<u8>| #[trigger]
            is_layer(crypto::x25519_public_of(static_priv@), aad, next, data, cell@) implies peels_to(
            r,
            next,
            data,
        ) by {
            lemma_layer_peels(cell@, static_priv@, aad, next, data);
        }
        assert forall|hop_pub: Seq<u8>, next: Option<(Seq<char>, u16)>, data: Seq<u8>|
            r is Ok && #[trigger] is_layer(hop_pub, aad, next, data, cell@) implies opens_across(
            hop_pub,
            aad,
            next,
            data,
            cell@,
            static_priv@,
        ) by {
            lemma_layer_opens_across(cell@, static_priv@, aad, hop_pub, next, data);
        }
        assert forall|
            hop_pub: Seq<u8>,
            other: Seq<char>,
            other_port: u16,
            next: Option<(Seq<char>, u16)>,
            data: Seq<u8>,
        |
            (other != our_host@ || other_port != our_port) && #[trigger] is_layer(
                hop_pub,
                layer_aad(other, other_port),
                next,
                data,
                cell@,
            ) implies errors::is_onion(
            r,
            mismatch_text(layer_aad(other, other_port), aad),
        ) by {
            lemma_addresses_differ(other, other_port, our_host@, our_port);
            lemma_layer_refused(
                cell@,
                static_priv@,
                aad,
                hop_pub,
                layer_aad(other, other_port),
                next,
                data,
            );
        }
    }
    r
}

/// The bytes are read back as the layer that they were written as.
spec fn layer_reads_back(bytes: Seq<u8>) -> bool {
    forall|ephem: Seq<u8>, nonce: u64, aad: Seq<char>, ct: Seq<u8>|
        bytes == #[trigger] json::layer_bytes(ephem, nonce, aad, ct) ==> json::layer_read(bytes) == Some(
            (text::hex_of(ephem), nonce, aad, text::hex_of(ct)),
        )
}

/// The bytes are read back as the envelope that they were written as.
spec fn envelope_reads_back(bytes: Seq<u8>) -> bool {
    forall|next: Option<(Seq<char>, u16)>, data: Seq<u8>|
        bytes == #[trigger] json::envelope_bytes(next, data) ==> json::envelope_read(bytes) == Some(
            match next {
                Some((h, p)) => (Some(h), Some(p), text::hex_of(data)),
                None => (None, None, text::hex_of(data)),
            },
        )
}

/// Reads the envelope in an opened layer.
fn open_envelope(padded: &[u8]) -> (r: Result<(Option<String>, Option<u16>, Vec<u8>), Error>)
    requires
        padded@.len() <= crypto::cipher_limit(),
    ensures
        peel_result(r, opened_layer(Some(padded@))),
        envelope_reads_back(trimmed(padded@)),
{
    let inner: &[u8] = trim_json_padding(padded);
    proof {
        lemma_value_end_bounds(padded@, 0, 0, false, false);
    }
    let (next_host, next_port, data_hex) = match read_envelope(inner) {
        Ok(t) => t,
        Err(e) => {
            return Err(Error::Onion(join2("envelope parse: ", e.as_str())));
        },
    };
    match hex_decode(data_hex.as_str()) {
        Ok(data) => Ok((next_host, next_port, data)),
        Err(e) => Err(Error::Onion(join2("data hex: ", e.as_str()))),
    }
}

/// What the seal of a layer opens to, once its fields were read.
spec fn layer_text(layer: Seq<u8>, secret: Seq<u8>) -> Option<Seq<u8>> {
    let (e, n, a, c) = json::layer_read(layer)->0;
    crypto::open_of(crypto::hop_key_of(secret, text::unhex(e)), crypto::nonce_of(n), encode_utf8(a), text::unhex(c))
}

/// The layer is well formed, meant for this address, and its seal fits.
spec fn reaches_envelope(layer: Seq<u8>, secret: Seq<u8>, aad: Seq<char>) -> bool {
    json::layer_read(layer) matches Some((e, n, a, c)) && text::is_hex(e) && text::unhex(e).len() == 32 && a == aad
        && text::is_hex(c) && layer_text(layer, secret) is Some
}

proof fn lemma_layer_peels(
    layer: Seq<u8>,
    secret: Seq<u8>,
    aad: Seq<char>,
    next: Option<(Seq<char>, u16)>,
    data: Seq<u8>,
)
    requires
        secret.len() == 32,
        is_layer(crypto::x25519_public_of(secret), aad, next, data, layer),
        layer_reads_back(layer),
        reaches_envelope(layer, secret, aad) ==> envelope_reads_back(
            trimmed(layer_text(layer, secret)->0),
        ),
    ensures
        peeled(layer, secret, aad) == Ok::<
            (Option<Seq<char>>, Option<u16>, Seq<u8>),
            Option<Seq<char>>,
        >(
            match next {
                Some((h, p)) => (Some(h), Some(p), data),
                None => (None, None, data),
            },
        ),
{
    reveal(is_layer);
    let hop_pub = crypto::x25519_public_of(secret);
    let env = json::envelope_bytes(next, data);
    let (padding, ephem, nonce) = choose|padding: Seq<u8>, ephem: Seq<u8>, nonce: u64|
        layer == #[trigger] sealed_layer(hop_pub, aad, env, padding, ephem, nonce) && ephem.len()
            == 32 && crypto::x25519_public_of(ephem).len() == 32 && env.len() + padding.len() == padded_len(
            env.len(),
        ) && seal_opens(hop_pub, aad, env, padding, ephem, nonce);
    let sealed = crypto::seal_of(
        crypto::hop_key_of(ephem, hop_pub),
        crypto::nonce_of(nonce),
        encode_utf8(aad),
        env + padding,
    );
    assert(layer == json::layer_bytes(crypto::x25519_public_of(ephem), nonce, aad, sealed));
    text::lemma_hex_roundtrip(crypto::x25519_public_of(ephem));
    text::lemma_hex_roundtrip(sealed);
    text::lemma_hex_roundtrip(data);
    assert(layer_text(layer, secret) == Some(env + padding));
    law_trimming_undoes_padding(next, data, padding);
    assert(envelope_reads_back(env));
}

proof fn lemma_layer_refused(
    layer: Seq<u8>,
    secret: Seq<u8>,
    aad: Seq<char>,
    hop_pub: Seq<u8>,
    other: Seq<char>,
    next: Option<(Seq<char>, u16)>,
    data: Seq<u8>,
)
    requires
        is_layer(hop_pub, other, next, data, layer),
        other != aad,
        layer_reads_back(layer),
    ensures
        peeled(layer, secret, aad) == Err::<
            (Option<Seq<char>>, Option<u16>, Seq<u8>),
            Option<Seq<char>>,
        >(Some(mismatch_text(other, aad))),
{
    reveal(is_layer);
    let env = json::envelope_bytes(next, data);
    let (padding, ephem, nonce) = choose|padding: Seq<u8>, ephem: Seq<u8>, nonce: u64|
        layer == #[trigger] sealed_layer(hop_pub, other, env, padding, ephem, nonce) && ephem.len()
            == 32 && crypto::x25519_public_of(ephem).len() == 32 && env.len() + padding.len()
            == padded_len(env.len()) && seal_opens(hop_pub, other, env, padding, ephem, nonce);
    let sealed = crypto::seal_of(
        crypto::hop_key_of(ephem, hop_pub),
        crypto::nonce_of(nonce),
        encode_utf8(other),
        env + padding,
    );
    assert(layer == json::layer_bytes(crypto::x25519_public_of(ephem), nonce, other, sealed));
    text::lemma_hex_roundtrip(crypto::x25519_public_of(ephem));
}

proof fn lemma_layer_opens_across(
    layer: Seq<u8>,
    secret: Seq<u8>,
    aad: Seq<char>,
    hop_pub: Seq<u8>,
    next: Option<(Seq<char>, u16)>,
    data: Seq<u8>,
)
    requires
        is_layer(hop_pub, aad, next, data, layer),
        layer_reads_back(layer),
        peeled(layer, secret, aad) is Ok,
    ensures
        opens_across(hop_pub, aad, next, data, layer, secret),
{
    reveal(is_layer);
    let env = json::envelope_bytes(next, data);
    let (padding, ephem, nonce) = choose|padding: Seq<u8>, ephem: Seq<u8>, nonce: u64|
        layer == #[trigger] sealed_layer(hop_pub, aad, env, padding, ephem, nonce) && ephem.len()
            == 32 && crypto::x25519_public_of(ephem).len() == 32 && env.len() + padding.len()
            == padded_len(env.len()) && seal_opens(hop_pub, aad, env, padding, ephem, nonce);
    let sealed = crypto::seal_of(
        crypto::hop_key_of(ephem, hop_pub),
        crypto::nonce_of(nonce),
        encode_utf8(aad),
        env + padding,
    );
    assert(layer == json::layer_bytes(crypto::x25519_public_of(ephem), nonce, aad, sealed));
    text::lemma_hex_roundtrip(crypto::x25519_public_of(ephem));
    text::lemma_hex_roundtrip(sealed);
}

/// Peels one layer, given as bytes.
fn peel_layer(cell: &[u8], static_priv: &[u8; 32], our_host: &str, our_port: u16) -> (r: Result<
    (Option<String>, Option<u16>, Vec<u8>),
    Error,
>)
    requires
        cell@.len() <= crypto::cipher_limit(),
    ensures
        peel_result(r, peeled(cell@, static_priv@, layer_aad(our_host@, our_port))),
        layer_reads_back(cell@),
        reaches_envelope(cell@, static_priv@, layer_aad(our_host@, our_port))
            ==> envelope_reads_back(trimmed(layer_text(cell@, static_priv@)->0)),
{
    let (ephem_hex, nonce, aad, ct_hex) = match read_layer(cell) {
        Ok(t) => t,
        Err(e) => {
            return Err(Error::Onion(join2("layer wrapper: ", e.as_str())));
        },
    };
    let ephem: [u8; 32] = match hex_decode(ephem_hex.as_str()) {
        Ok(v) => {
            if v.len() != 32 {
                return Err(Error::Onion("ephem_pub wrong length".to_owned()));
            }
            assert(v@.subrange(0, 32) =~= v@);
            array_32(&v, 0)
        },
        Err(e) => {
            return Err(Error::Onion(join2("ephem_pub hex: ", e.as_str())));
        },
    };
    let hop_key: [u8; 32] = derive_hop_key(static_priv, &ephem);
    let expected: String = aad_text(our_host, our_port);
    if !str_eq(aad.as_str(), expected.as_str()) {
        let mut m: String = join3("AAD mismatch: got '", aad.as_str(), "', expected '");
        m.append(expected.as_str());
        m.append("'");
        return Err(Error::Onion(m));
    }
    let ct: Vec<u8> = match hex_decode(ct_hex.as_str()) {
        Ok(v) => v,
        Err(e) => {
            return Err(Error::Onion(join2("ct hex: ", e.as_str())));
        },
    };
    match aead_decrypt(&hop_key, nonce, aad.as_str().as_bytes(), &ct) {
        Ok(padded) => open_envelope(&padded),
        Err(e) => Err(e),
    }
}

/// A layer for the hop with the key `hop_pub` and the address `aad`.
pub open spec fn sealed_layer(
    hop_pub: Seq<u8>,
    aad: Seq<char>,
    envelope: Seq<u8>,
    padding: Seq<u8>,
    ephem: Seq<u8>,
    nonce: u64,
) -> Seq<u8> {
    json::layer_bytes(
        crypto::x25519_public_of(ephem),
        nonce,
        aad,
        crypto::seal_of(
            crypto::hop_key_of(ephem, hop_pub),
            crypto::nonce_of(nonce),
            encode_utf8(aad),
            envelope + padding,
        ),
    )
}

/// Whoever holds the secret behind `hop_pub` opens the seal of the layer and
/// finds the padded envelope.
pub open spec fn seal_opens(
    hop_pub: Seq<u8>,
    aad: Seq<char>,
    envelope: Seq<u8>,
    padding: Seq<u8>,
    ephem: Seq<u8>,
    nonce: u64,
) -> bool {
    forall|secret: Seq<u8>|
        secret.len() == 32 && hop_pub == #[trigger] crypto::x25519_public_of(secret) ==> crypto::open_of(
            crypto::hop_key_of(secret, crypto::x25519_public_of(ephem)),
            crypto::nonce_of(nonce),
            encode_utf8(aad),
            crypto::seal_of(
                crypto::hop_key_of(ephem, hop_pub),
                crypto::nonce_of(nonce),
                encode_utf8(aad),
                envelope + padding,
            ),
        ) == Some(envelope + padding)
}

/// `layer` is a layer for the hop with the key `hop_pub` and the address `aad`.
/// It carries `data` and the next hop `next`, padded with random bytes, and opens
/// for the holder of the key's secret.
#[verifier::opaque]
pub open spec fn is_layer(
    hop_pub: Seq<u8>,
    aad: Seq<char>,
    next: Option<(Seq<char>, u16)>,
    data: Seq<u8>,
    layer: Seq<u8>,
) -> bool {
    exists|padding: Seq<u8>, ephem: Seq<u8>, nonce: u64|
        layer == #[trigger] sealed_layer(
            hop_pub,
            aad,
            json::envelope_bytes(next, data),
            padding,
            ephem,
            nonce,
        ) && ephem.len() == 32 && crypto::x25519_public_of(ephem).len() == 32 && json::envelope_bytes(
            next,
            data,
        ).len() + padding.len() == padded_len(
            json::envelope_bytes(next, data).len(),
        ) && seal_opens(hop_pub, aad, json::envelope_bytes(next, data), padding, ephem, nonce)
}

/// `layer` is a layer as [`is_layer`] says, whose padding, ephemeral secret and nonce are
/// random.
#[verifier::opaque]
pub open spec fn is_random_layer(
    hop_pub: Seq<u8>,
    aad: Seq<char>,
    next: Option<(Seq<char>, u16)>,
    data: Seq<u8>,
    layer: Seq<u8>,
) -> bool {
    exists|padding: Seq<u8>, ephem: Seq<u8>, nonce: u64|
        layer == #[trigger] sealed_layer(
            hop_pub,
            aad,
            json::envelope_bytes(next, data),
            padding,
            ephem,
            nonce,
        ) && ephem.len() == 32 && crypto::is_random(padding) && crypto::is_random(ephem) && crypto::is_random(
            bytes::le_bytes(nonce as nat, 8),
        )
}

/// Every layer from the `from`-th hop on is padded and sealed with randomness of its own.
pub open spec fn is_random_from(hops: Seq<Hop>, layers: Seq<Seq<u8>>, from: int) -> bool {
    forall|i: int|
        from <= i < hops.len() ==> is_random_layer(
            text::unhex((#[trigger] hops[i]).static_pub@),
            layer_aad(hops[i].host@, hops[i].port),
            next_of(hops, i),
            layers[i + 1],
            layers[i],
        )
}

/// The hop behind the `i`-th, if there is one.
pub open spec fn next_of(hops: Seq<Hop>, i: int) -> Option<(Seq<char>, u16)> {
    if i + 1 < hops.len() {
        Some((hops[i + 1].host@, hops[i + 1].port))
    } else {
        None
    }
}

/// The layers of an onion from the `from`-th hop on: the `i`-th is for the `i`-th
/// hop, which finds the next one in it; behind the last is the payload.
pub open spec fn is_onion_from(
    hops: Seq<Hop>,
    payload: Seq<u8>,
    layers: Seq<Seq<u8>>,
    from: int,
) -> bool {
    &&& layers.len() == hops.len() + 1
    &&& layers.last() == payload
    &&& forall|i: int|
        from <= i < hops.len() ==> is_layer(
            text::unhex((#[trigger] hops[i]).static_pub@),
            layer_aad(hops[i].host@, hops[i].port),
            next_of(hops, i),
            layers[i + 1],
            layers[i],
        )
}

/// A bound on the length of the `i`-th layer of an onion.
pub open spec fn layer_bound(hops: Seq<Hop>, payload_len: nat, i: int) -> nat
    decreases hops.len() - i,
{
    if i < 0 || i >= hops.len() {
        payload_len
    } else {
        4 * layer_bound(hops, payload_len, i + 1) + 6 * encode_utf8(hops[i].host@).len() + match next_of(
            hops,
            i,
        ) {
            Some((host, port)) => 12 * encode_utf8(host).len(),
            None => 0,
        } + 1320
    }
}

proof fn lemma_bound_grows(hops: Seq<Hop>, payload_len: nat, i: int)
    requires
        0 <= i <= hops.len(),
    ensures
        layer_bound(hops, payload_len, i) <= layer_bound(hops, payload_len, 0),
    decreases i,
{
    if i > 0 {
        lemma_bound_grows(hops, payload_len, i - 1);
    }
}

/// Seals an envelope to a hop with the given ephemeral, nonce and padding.
fn seal_envelope(
    hop_pub: &[u8; 32],
    aad: &str,
    envelope: Vec<u8>,
    padding: &[u8],
    ephem: &[u8; 32],
    nonce: u64,
) -> (r: Vec<u8>)
    requires
        envelope@.len() + padding@.len() <= crypto::cipher_limit(),
    ensures
        crypto::x25519_public_of(ephem@).len() == 32,
        r@ == sealed_layer(hop_pub@, aad@, envelope@, padding@, ephem@, nonce),
        r@.len() <= 126 + 6 * encode_utf8(aad@).len() + 2 * (envelope@.len() + padding@.len() + 16),
        seal_opens(hop_pub@, aad@, envelope@, padding@, ephem@, nonce),
{
    let ephem_pub: [u8; 32] = x25519_public(ephem);
    let hop_key: [u8; 32] = derive_hop_key(ephem, hop_pub);
    let ghost env = envelope@;
    let mut inner: Vec<u8> = envelope;
    append(&mut inner, padding);
    let ct: Vec<u8> = aead_encrypt(&hop_key, nonce, aad.as_bytes(), &inner);
    proof {
        lemma_layer_len(ephem_pub@, nonce, aad@, ct@);
    }
    write_layer(ephem_pub.as_slice(), nonce, aad, &ct)
}

/// A bound on the padded envelope with `n` bytes of data.
spec fn room_for_layer(n: nat, next: Option<(&str, u16)>) -> nat {
    2 * n + 700 + match next {
        Some((h, p)) => 6 * encode_utf8(h@).len(),
        None => 0,
    }
}

proof fn lemma_extend_onion(
    hops: Seq<Hop>,
    payload: Seq<u8>,
    before: Seq<Seq<u8>>,
    i: int,
    layer: Seq<u8>,
)
    requires
        0 <= i < hops.len(),
        is_onion_from(hops, payload, before, i + 1),
        is_layer(
            text::unhex(hops[i].static_pub@),
            layer_aad(hops[i].host@, hops[i].port),
            next_of(hops, i),
            before[i + 1],
            layer,
        ),
        is_random_from(hops, before, i + 1),
        is_random_layer(
            text::unhex(hops[i].static_pub@),
            layer_aad(hops[i].host@, hops[i].port),
            next_of(hops, i),
            before[i + 1],
            layer,
        ),
    ensures
        is_onion_from(hops, payload, before.update(i, layer), i),
        is_random_from(hops, before.update(i, layer), i),
{
    let after = before.update(i, layer);
    assert forall|k: int| i <= k < hops.len() implies is_layer(
        text::unhex((#[trigger] hops[k]).static_pub@),
        layer_aad(hops[k].host@, hops[k].port),
        next_of(hops, k),
        after[k + 1],
        after[k],
    ) && is_random_layer(
        text::unhex(hops[k].static_pub@),
        layer_aad(hops[k].host@, hops[k].port),
        next_of(hops, k),
        after[k + 1],
        after[k],
    ) by {
        assert(after[k + 1] == before[k + 1]);
        if k > i {
            assert(after[k] == before[k]);
        }
    }
}

/// Wraps `data` for one hop. Returns the layer.
fn wrap_layer(hop: &Hop, hop_pub: &[u8; 32], next: Option<(&str, u16)>, data: &[u8]) -> (r: Vec<u8>)
    requires
        hop_pub@ == text::unhex(hop.static_pub@),
        room_for_layer(data@.len(), next) <= crypto::cipher_limit(),
        room_for_layer(data@.len(), next) <= usize::MAX,
    ensures
        ({
            let n = match next {
                Some((h, p)) => Some((h@, p)),
                None => None,
            };
            &&& is_layer(text::unhex(hop.static_pub@), layer_aad(hop.host@, hop.port), n, data@, r@)
            &&& is_random_layer(text::unhex(hop.static_pub@), layer_aad(hop.host@, hop.port), n, data@, r@)
            &&& r@.len() <= 4 * data@.len() + 6 * encode_utf8(hop.host@).len() + 1320 + match n {
                Some((h, p)) => 12 * encode_utf8(h).len(),
                None => 0,
            }
        }),
{
    let ghost n = match next {
        Some((h, p)) => Some((h@, p)),
        None => None,
    };
    let envelope: Vec<u8> = write_envelope(next, data);
    proof {
        lemma_envelope_len(n, data@);
        lemma_aad_len(hop.host@, hop.port);
    }
    let len: usize = envelope.len();
    let total: usize = if len <= CELL_SIZE {
        CELL_SIZE
    } else {
        (len / CELL_SIZE + 1) * CELL_SIZE
    };
    let padding: Vec<u8> = fresh_bytes(total - len);
    let aad: String = aad_text(hop.host.as_str(), hop.port);
    let ephem: [u8; 32] = random_32();
    let nonce: u64 = random_u64();
    let ghost env = envelope@;
    let r: Vec<u8> = seal_envelope(hop_pub, aad.as_str(), envelope, &padding, &ephem, nonce);
    assert(is_layer(text::unhex(hop.static_pub@), layer_aad(hop.host@, hop.port), n, data@, r@)) by {
        reveal(is_layer);
    }
    assert(is_random_layer(text::unhex(hop.static_pub@), layer_aad(hop.host@, hop.port), n, data@, r@)) by {
        reveal(is_random_layer);
    }
    r
}

/// Wraps `data` for the `i`-th hop.
fn wrap_hop(hops: &[Hop], i: usize, data: &[u8], Ghost(payload_len): Ghost<nat>) -> (r: Result<
    Vec<u8>,
    Error,
>)
    requires
        i < hops@.len(),
        data@.len() <= layer_bound(hops@, payload_len, i + 1),
        layer_bound(hops@, payload_len, i as int) <= crypto::cipher_limit(),
        layer_bound(hops@, payload_len, i as int) <= usize::MAX,
    ensures
        match key_fault(hops@[i as int].static_pub@) {
            None => r matches Ok(layer) && layer@.len() <= layer_bound(hops@, payload_len, i as int)
                && is_layer(
                text::unhex(hops@[i as int].static_pub@),
                layer_aad(hops@[i as int].host@, hops@[i as int].port),
                next_of(hops@, i as int),
                data@,
                layer@,
            ) && is_random_layer(
                text::unhex(hops@[i as int].static_pub@),
                layer_aad(hops@[i as int].host@, hops@[i as int].port),
                next_of(hops@, i as int),
                data@,
                layer@,
            ),
            Some(text) => errors::is_onion(r, text),
        },
{
    let hop: &Hop = &hops[i];
    let hop_pub: [u8; 32] = match hop.static_pub_bytes() {
        Ok(k) => k,
        Err(e) => {
            return Err(e);
        },
    };
    let next: Option<(&str, u16)> = if i < hops.len() - 1 {
        Some((hops[i + 1].host.as_str(), hops[i + 1].port))
    } else {
        None
    };
    Ok(wrap_layer(hop, &hop_pub, next, data))
}

/// Wraps `payload` through `hops`, for the last hop first.
pub fn build(hops: &[Hop], payload: &[u8]) -> (r: Result<OnionCell, Error>)
    requires
        layer_bound(hops@, payload@.len(), 0) <= crypto::cipher_limit(),
        layer_bound(hops@, payload@.len(), 0) <= usize::MAX,
    ensures
        match r {
            Ok(cell) => hops@.len() > 0 && exists|layers: Seq<Seq<u8>>| #[trigger]
                is_onion_from(hops@, payload@, layers, 0) && is_random_from(hops@, layers, 0) && cell.cell@ == text::hex_of(layers[0]),
            Err(e) => if hops@.len() == 0 {
                errors::is_onion(r, "at least one hop required"@)
            } else {
                exists|i: int|
                    0 <= i < hops@.len() && key_fault((#[trigger] hops@[i]).static_pub@) is Some
                        && errors::is_onion(r, key_fault(hops@[i].static_pub@)->0) && forall|j: int|
                        i < j < hops@.len() ==> key_fault((#[trigger] hops@[j]).static_pub@) is None
            },
        },
        r is Ok == (hops@.len() > 0 && forall|i: int|
            0 <= i < hops@.len() ==> key_fault((#[trigger] hops@[i]).static_pub@) is None),
{
    if hops.len() == 0 {
        return Err(Error::Onion("at least one hop required".to_owned()));
    }
    let mut current: Vec<u8> = slice_to_vec(payload);
    let mut i: usize = hops.len();
    let ghost mut layers: Seq<Seq<u8>> = Seq::new(hops@.len() + 1, |k: int| payload@);
    while i > 0
        invariant
            0 <= i <= hops@.len(),
            hops@.len() > 0,
            layer_bound(hops@, payload@.len(), 0) <= crypto::cipher_limit(),
            layer_bound(hops@, payload@.len(), 0) <= usize::MAX,
            current@.len() <= layer_bound(hops@, payload@.len(), i as int),
            layers.len() == hops@.len() + 1,
            layers[i as int] == current@,
            is_onion_from(hops@, payload@, layers, i as int),
            is_random_from(hops@, layers, i as int),
            forall|j: int|
                i <= j < hops@.len() ==> key_fault((#[trigger] hops@[j]).static_pub@) is None,
        decreases i,
    {
        i = i - 1;
        proof {
            lemma_bound_grows(hops@, payload@.len(), i as int);
        }
        let layer: Vec<u8> = match wrap_hop(hops, i, &current, Ghost(payload@.len())) {
            Ok(layer) => layer,
            Err(e) => {
                assert(key_fault(hops@[i as int].static_pub@) is Some);
                return Err(e);
            },
        };
        proof {
            lemma_extend_onion(hops@, payload@, layers, i as int, layer@);
            layers = layers.update(i as int, layer@);
        }
        current = layer;
    }
    Ok(OnionCell { cell: hex_encode(&current) })
}

/// The `i`-th hop of `hops` peels the `i`-th of `cells` with the `i`-th of `secrets`, which
/// is the secret behind its key, and hands on what it finds as the next cell.
pub open spec fn is_peeling(
    hops: Seq<Hop>,
    secrets: Seq<Seq<u8>>,
    cells: Seq<Seq<char>>,
    results: Seq<Result<(Option<String>, Option<u16>, Vec<u8>), Error>>,
) -> bool {
    &&& secrets.len() == hops.len()
    &&& cells.len() == hops.len()
    &&& results.len() == hops.len()
    &&& forall|i: int|
        0 <= i < hops.len() ==> text::unhex((#[trigger] hops[i]).static_pub@)
            == crypto::x25519_public_of(secrets[i]) && gives_back(
            results[i],
            cells[i],
            secrets[i],
            hops[i].host@,
            hops[i].port,
        )
    &&& forall|i: int|
        0 < i < hops.len() ==> (results[i - 1] matches Ok(found) ==> #[trigger] cells[i]
            == text::hex_of(found.2@))
}

/// A built onion is peeled hop by hop: each hop but the last learns the address of the next
/// one and nothing behind it, and the last hop finds the payload.
pub proof fn law_onions_are_peeled_hop_by_hop(
    hops: Seq<Hop>,
    payload: Seq<u8>,
    layers: Seq<Seq<u8>>,
    secrets: Seq<Seq<u8>>,
    cells: Seq<Seq<char>>,
    results: Seq<Result<(Option<String>, Option<u16>, Vec<u8>), Error>>,
)
    requires
        hops.len() > 0,
        is_onion_from(hops, payload, layers, 0),
        is_peeling(hops, secrets, cells, results),
        cells[0] == text::hex_of(layers[0]),
    ensures
        forall|i: int|
            0 <= i < hops.len() ==> peels_to(
                #[trigger] results[i],
                next_of(hops, i),
                layers[i + 1],
            ),
        peels_to(results.last(), None, payload),
{
    assert forall|i: int| 0 <= i < hops.len() implies peels_to(
        #[trigger] results[i],
        next_of(hops, i),
        layers[i + 1],
    ) by {
        lemma_peeled_so_far(hops, payload, layers, secrets, cells, results, i);
    }
    assert(peels_to(results[hops.len() - 1], next_of(hops, hops.len() - 1), layers.last()));
}

proof fn lemma_peeled_so_far(
    hops: Seq<Hop>,
    payload: Seq<u8>,
    layers: Seq<Seq<u8>>,
    secrets: Seq<Seq<u8>>,
    cells: Seq<Seq<char>>,
    results: Seq<Result<(Option<String>, Option<u16>, Vec<u8>), Error>>,
    i: int,
)
    requires
        0 <= i < hops.len(),
        is_onion_from(hops, payload, layers, 0),
        is_peeling(hops, secrets, cells, results),
        cells[0] == text::hex_of(layers[0]),
    ensures
        peels_to(results[i], next_of(hops, i), layers[i + 1]),
    decreases i,
{
    if i > 0 {
        lemma_peeled_so_far(hops, payload, layers, secrets, cells, results, i - 1);
        assert(cells[i] == text::hex_of(layers[i]));
    }
    text::lemma_hex_roundtrip(layers[i]);
    assert(text::unhex(hops[i].static_pub@) == crypto::x25519_public_of(secrets[i]));
}

/// The two octets that stand for a host's subnet.
pub open spec fn subnet16_of(host: Seq<char>) -> Seq<u8> {
    let p = text::split_on(host, '.');
    if p.len() >= 2 {
        seq![octet_or_zero(p[0]), octet_or_zero(p[1])]
    } else {
        seq![0u8, 0u8]
    }
}

/// The number of eight bits that a text writes, zero for any other text.
pub open spec fn octet_or_zero(s: Seq<char>) -> u8 {
    if text::number_text(s, 256) {
        text::number_value(s) as u8
    } else {
        0
    }
}

/// The two octets that stand for a host's subnet.
pub fn subnet16(host: &str) -> (r: [u8; 2])
    ensures
        r@ == subnet16_of(host@),
{
    let v: Vec<char> = chars_of(host);
    let n: usize = v.len();
    assert(v@.subrange(0, n as int) =~= host@);
    let parts: Vec<(usize, usize)> = split_ranges(&v, 0, n, '.');
    if parts.len() < 2 {
        let r: [u8; 2] = [0u8, 0u8];
        assert(r@ =~= subnet16_of(host@));
        return r;
    }
    assert(parts@[0].0 <= parts@[0].1 && parts@[1].0 <= parts@[1].1);
    let a: u8 = match parse_number(&v, parts[0].0, parts[0].1, 255) {
        Some(x) => x as u8,
        None => 0,
    };
    let b: u8 = match parse_number(&v, parts[1].0, parts[1].1, 255) {
        Some(x) => x as u8,
        None => 0,
    };
    let r: [u8; 2] = [a, b];
    assert(r@ =~= subnet16_of(host@));
    r
}

/// The peers whose subnet is not excluded and not that of an earlier peer, in
/// order.
pub open spec fn first_of_subnets(peers: Seq<PeerInfo>, exclude: Seq<[u8; 2]>) -> Seq<PeerInfo>
    decreases peers.len(),
{
    if peers.len() == 0 {
        Seq::empty()
    } else {
        let rest = first_of_subnets(peers.drop_last(), exclude);
        if subnet_taken(peers.drop_last(), exclude, peers.last()) {
            rest
        } else {
            rest.push(peers.last())
        }
    }
}

/// The subnet of `p` is excluded, or that of a peer in `earlier`.
pub open spec fn subnet_taken(earlier: Seq<PeerInfo>, exclude: Seq<[u8; 2]>, p: PeerInfo) -> bool {
    ||| exists|i: int|
        0 <= i < exclude.len() && (#[trigger] exclude[i])@ == subnet16_of(p.host@)
    ||| exists|j: int|
        0 <= j < earlier.len() && subnet16_of((#[trigger] earlier[j]).host@) == subnet16_of(p.host@)
}

/// Selects up to `n` peers of different subnets, none of them excluded: of each
/// subnet the first peer.
pub fn select_guards<'a>(peers: &'a [PeerInfo], n: usize, exclude_subnets: &[[u8; 2]]) -> (r: Vec<
    &'a PeerInfo,
>)
    ensures
        ({
            let all = first_of_subnets(peers@, exclude_subnets@);
            &&& r@.len() == if all.len() < n {
                all.len() as int
            } else {
                n as int
            }
            &&& forall|i: int| 0 <= i < r@.len() ==> *#[trigger] r@[i] == all[i]
        }),
{
    let mut selected: Vec<&'a PeerInfo> = Vec::new();
    let mut i: usize = 0;
    assert(peers@.take(0) =~= Seq::empty());
    while i < peers.len() && selected.len() < n
        invariant
            i <= peers@.len(),
            selected@.len() <= n,
            selected@.len() == first_of_subnets(peers@.take(i as int), exclude_subnets@).len(),
            forall|k: int|
                0 <= k < selected@.len() ==> *#[trigger] selected@[k] == first_of_subnets(
                    peers@.take(i as int),
                    exclude_subnets@,
                )[k],
        decreases peers@.len() - i,
    {
        let ghost done = peers@.take(i as int);
        assert(peers@.take(i + 1).drop_last() =~= done);
        assert(peers@.take(i + 1).last() == peers@[i as int]);
        if !is_taken(peers, i, exclude_subnets) {
            selected.push(&peers[i]);
        }
        i += 1;
    }
    proof {
        lemma_first_of_subnets_prefix(peers@, exclude_subnets@, i as int);
        assert(peers@.take(peers@.len() as int) =~= peers@);
    }
    selected
}

proof fn lemma_first_of_subnets_prefix(peers: Seq<PeerInfo>, exclude: Seq<[u8; 2]>, i: int)
    requires
        0 <= i <= peers.len(),
    ensures
        first_of_subnets(peers.take(i), exclude).len() <= first_of_subnets(peers, exclude).len(),
        forall|k: int|
            0 <= k < first_of_subnets(peers.take(i), exclude).len() ==> first_of_subnets(
                peers.take(i),
                exclude,
            )[k] == #[trigger] first_of_subnets(peers, exclude)[k],
    decreases peers.len() - i,
{
    if i < peers.len() {
        lemma_first_of_subnets_prefix(peers, exclude, i + 1);
        assert(peers.take(i + 1).drop_last() =~= peers.take(i));
    } else {
        assert(peers.take(i) =~= peers);
    }
}

/// Whether the subnet of the `i`-th peer is excluded or that of an earlier peer.
fn is_taken(peers: &[PeerInfo], i: usize, exclude: &[[u8; 2]]) -> (r: bool)
    requires
        i < peers@.len(),
    ensures
        r == subnet_taken(peers@.take(i as int), exclude@, peers@[i as int]),
{
    let sn: [u8; 2] = subnet16(peers[i].host.as_str());
    let mut k: usize = 0;
    while k < exclude.len()
        invariant
            k <= exclude@.len(),
            sn@ == subnet16_of(peers@[i as int].host@),
            forall|x: int| 0 <= x < k ==> (#[trigger] exclude@[x])@ != sn@,
        decreases exclude@.len() - k,
    {
        if bytes_eq(exclude[k].as_slice(), sn.as_slice()) {
            assert(exclude@[k as int]@ == sn@);
            return true;
        }
        k += 1;
    }
    let mut j: usize = 0;
    while j < i
        invariant
            j <= i < peers@.len(),
            sn@ == subnet16_of(peers@[i as int].host@),
            forall|x: int| 0 <= x < j ==> subnet16_of((#[trigger] peers@[x]).host@) != sn@,
        decreases i - j,
    {
        let other: [u8; 2] = subnet16(peers[j].host.as_str());
        if bytes_eq(other.as_slice(), sn.as_slice()) {
            assert(peers@.take(i as int)[j as int] == peers@[j as int]);
            return true;
        }
        j += 1;
    }
    false
}

/// Selected guards are of different subnets.
pub proof fn law_guards_are_of_different_subnets(peers: Seq<PeerInfo>, exclude: Seq<[u8; 2]>)
    ensures
        ({
            let all = first_of_subnets(peers, exclude);
            &&& forall|i: int, j: int|
                0 <= i < j < all.len() ==> subnet16_of((#[trigger] all[i]).host@) != subnet16_of(
                    (#[trigger] all[j]).host@,
                )
            &&& forall|i: int|
                0 <= i < all.len() ==> exists|k: int|
                    0 <= k < peers.len() && #[trigger] peers[k] == #[trigger] all[i]
        }),
    decreases peers.len(),
{
    if peers.len() > 0 {
        let t = peers.drop_last();
        law_guards_are_of_different_subnets(t, exclude);
        let rest = first_of_subnets(t, exclude);
        let all = first_of_subnets(peers, exclude);
        assert forall|i: int| 0 <= i < all.len() implies exists|k: int|
            0 <= k < peers.len() && #[trigger] peers[k] == #[trigger] all[i] by {
            if i < rest.len() {
                assert(all[i] == rest[i]);
                let k = choose|k: int| 0 <= k < t.len() && #[trigger] t[k] == rest[i];
                assert(peers[k] == all[i]);
            } else {
                assert(peers[peers.len() - 1] == all[i]);
            }
        }
        assert forall|i: int, j: int| 0 <= i < j < all.len() implies subnet16_of(
            (#[trigger] all[i]).host@,
        ) != subnet16_of((#[trigger] all[j]).host@) by {
            assert(all[i] == rest[i]);
            if j < rest.len() {
                assert(all[j] == rest[j]);
            } else {
                let k = choose|k: int| 0 <= k < t.len() && #[trigger] t[k] == rest[i];
                assert(subnet16_of(t[k].host@) != subnet16_of(peers.last().host@));
            }
        }
    }
}

/// An onion comes about exactly where there is a hop and every hop's key can be read.
pub proof fn law_when_an_onion_is_built(hops: &[Hop], payload: &[u8], r: Result<OnionCell, Error>)
    requires
        call_ensures(build, (hops, payload), r),
    ensures
        r is Ok <==> hops@.len() > 0 && forall|i: int|
            0 <= i < hops@.len() ==> text::is_hex((#[trigger] hops@[i]).static_pub@) && hops@[i].static_pub@.len() == 64,
        r is Err ==> r->Err_0 is Onion,
{
    if r is Ok {
        assert forall|i: int| 0 <= i < hops@.len() implies text::is_hex((#[trigger] hops@[i]).static_pub@)
            && hops@[i].static_pub@.len() == 64 by {
            assert(key_fault(hops@[i].static_pub@) is None);
        }
    }
}

/// The first hop of a built onion peels it with its own secret: it finds the address of the
/// hop behind it and nothing more, and the only hop of an onion finds the payload. At any
/// other address the layer is refused.
pub proof fn law_the_first_hop_peels_its_layer(
    hops: &[Hop],
    payload: &[u8],
    cell: OnionCell,
    text: &str,
    secret: &[u8; 32],
    host: &str,
    r: Result<(Option<String>, Option<u16>, Vec<u8>), Error>,
    elsewhere: &str,
    e: Result<(Option<String>, Option<u16>, Vec<u8>), Error>,
)
    requires
        call_ensures(build, (hops, payload), Ok(cell)),
        hops@.len() > 0,
        text::unhex(hops@[0].static_pub@) == crypto::x25519_public_of(secret@),
        text@ == cell.cell@,
        host@ == hops@[0].host@,
        elsewhere@ != host@,
        call_ensures(peel, (text, secret, host, hops@[0].port), r),
        call_ensures(peel, (text, secret, elsewhere, hops@[0].port), e),
    ensures
        r is Ok,
        hops@.len() == 1 ==> (r matches Ok((h, p, d)) && h is None && p is None && d@ == payload@),
        hops@.len() > 1 ==> (r matches Ok((h, p, _)) && (h matches Some(s) && s@ == hops@[1].host@) && p == Some(
            hops@[1].port,
        )),
        e is Err,
{
    let layers = choose|layers: Seq<Seq<u8>>| #[trigger]
        is_onion_from(hops@, payload@, layers, 0) && is_random_from(hops@, layers, 0) && cell.cell@
            == text::hex_of(layers[0]);
    assert(is_onion_from(hops@, payload@, layers, 0));
    text::lemma_hex_roundtrip(layers[0]);
    let next = next_of(hops@, 0);
    assert(is_layer(
        crypto::x25519_public_of(secret@),
        layer_aad(hops@[0].host@, hops@[0].port),
        next,
        layers[1],
        text::unhex(text@),
    ));
    assert(peels_to(r, next, layers[1]));
}

/// The sixteen bits of a subnet are the first two numbers of the address.
pub proof fn law_the_subnet_is_the_first_two_numbers(a: u8, b: u8, rest: Seq<char>, host: &str, r: [u8; 2])
    requires
        host@ == text::decimal(a as nat) + seq!['.'] + text::decimal(b as nat) + seq!['.'] + rest,
        call_ensures(subnet16, (host,), r),
    ensures
        r@ == seq![a, b],
{
    let da = text::decimal(a as nat);
    let db = text::decimal(b as nat);
    text::lemma_decimal_value(a as nat);
    text::lemma_decimal_value(b as nat);
    let s = host@;
    let i = da.len() as int;
    text::lemma_index_of(s, '.');
    assert(s[i] == '.');
    assert forall|j: int| 0 <= j < i implies s[j] != '.' by {
        assert(s[j] == da[j]);
    }
    assert(text::index_of(s, '.') == i);
    let t = s.skip(i + 1);
    assert(s.take(i) =~= da);
    assert(t =~= db + seq!['.'] + rest);
    let k = db.len() as int;
    text::lemma_index_of(t, '.');
    assert(t[k] == '.');
    assert forall|j: int| 0 <= j < k implies t[j] != '.' by {
        assert(t[j] == db[j]);
    }
    assert(text::index_of(t, '.') == k);
    assert(t.take(k) =~= db);
    let p = text::split_on(s, '.');
    assert(p[0] == da);
    assert(p[1] == text::split_on(t, '.')[0]);
    assert(p[1] == db);
    assert(subnet16_of(s) =~= seq![a, b]);
}

/// Guards are taken in order, at most as many as wanted, each from a subnet of its own and
/// from none that is excluded; fewer than wanted only where no peer of another subnet is
/// left.
pub proof fn law_guards_are_spread_over_subnets(peers: &[PeerInfo], n: usize, exclude: &[[u8; 2]], r: Vec<&PeerInfo>)
    requires
        call_ensures(select_guards, (peers, n, exclude), r),
    ensures
        r@.len() <= n,
        forall|i: int, j: int|
            0 <= i < j < r@.len() ==> subnet16_of((#[trigger] r@[i]).host@) != subnet16_of((#[trigger] r@[j]).host@),
        forall|i: int| 0 <= i < r@.len() ==> peers@.contains(*#[trigger] r@[i]),
        forall|i: int, k: int|
            0 <= i < r@.len() && 0 <= k < exclude@.len() ==> (#[trigger] exclude@[k])@ != subnet16_of(
                (#[trigger] r@[i]).host@,
            ),
        r@.len() < n ==> forall|k: int|
            0 <= k < peers@.len() ==> covered(#[trigger] peers@[k], r@, exclude@),
{
    let all = first_of_subnets(peers@, exclude@);
    law_guards_are_of_different_subnets(peers@, exclude@);
    lemma_first_of_subnets(peers@, exclude@);
    assert forall|i: int| 0 <= i < r@.len() implies peers@.contains(*#[trigger] r@[i]) by {
        assert(*r@[i] == all[i]);
        let k = choose|k: int| 0 <= k < peers@.len() && #[trigger] peers@[k] == all[i];
        assert(peers@[k] == all[i]);
    }
    assert forall|i: int, j: int| 0 <= i < j < r@.len() implies subnet16_of((#[trigger] r@[i]).host@) != subnet16_of(
        (#[trigger] r@[j]).host@,
    ) by {
        assert(*r@[i] == all[i] && *r@[j] == all[j]);
    }
    assert forall|i: int, k: int| 0 <= i < r@.len() && 0 <= k < exclude@.len() implies (#[trigger] exclude@[k])@
        != subnet16_of((#[trigger] r@[i]).host@) by {
        assert(*r@[i] == all[i]);
    }
    if r@.len() < n {
        assert forall|k: int| 0 <= k < peers@.len() implies covered(#[trigger] peers@[k], r@, exclude@) by {
            if !(exists|x: int| 0 <= x < exclude@.len() && (#[trigger] exclude@[x])@ == subnet16_of(peers@[k].host@)) {
                let i = choose|i: int|
                    0 <= i < all.len() && subnet16_of((#[trigger] all[i]).host@) == subnet16_of(peers@[k].host@);
                assert(*r@[i] == all[i]);
                assert(subnet16_of(r@[i].host@) == subnet16_of(peers@[k].host@));
            }
        }
    }
}

/// The subnet of `p` is excluded, or a guard of it was taken.
pub open spec fn covered(p: PeerInfo, guards: Seq<&PeerInfo>, exclude: Seq<[u8; 2]>) -> bool {
    ||| exists|x: int| 0 <= x < exclude.len() && (#[trigger] exclude[x])@ == subnet16_of(p.host@)
    ||| exists|i: int| 0 <= i < guards.len() && subnet16_of((#[trigger] guards[i]).host@) == subnet16_of(p.host@)
}

proof fn lemma_first_of_subnets(peers: Seq<PeerInfo>, exclude: Seq<[u8; 2]>)
    ensures
        ({
            let all = first_of_subnets(peers, exclude);
            &&& forall|i: int, k: int|
                0 <= i < all.len() && 0 <= k < exclude.len() ==> (#[trigger] exclude[k])@ != subnet16_of(
                    (#[trigger] all[i]).host@,
                )
            &&& forall|k: int|
                0 <= k < peers.len() ==> (exists|x: int|
                    0 <= x < exclude.len() && (#[trigger] exclude[x])@ == subnet16_of((#[trigger] peers[k]).host@)) || (
                exists|i: int|
                    0 <= i < all.len() && subnet16_of((#[trigger] all[i]).host@) == subnet16_of(peers[k].host@))
        }),
    decreases peers.len(),
{
    if peers.len() > 0 {
        let t = peers.drop_last();
        lemma_first_of_subnets(t, exclude);
        let rest = first_of_subnets(t, exclude);
        let all = first_of_subnets(peers, exclude);
        assert forall|k: int| 0 <= k < peers.len() implies (exists|x: int|
            0 <= x < exclude.len() && (#[trigger] exclude[x])@ == subnet16_of((#[trigger] peers[k]).host@)) || (exists|
            i: int,
        |
            0 <= i < all.len() && subnet16_of((#[trigger] all[i]).host@) == subnet16_of(peers[k].host@)) by {
            let h = subnet16_of(peers[k].host@);
            if !(exists|x: int| 0 <= x < exclude.len() && (#[trigger] exclude[x])@ == h) {
                if k < t.len() {
                    assert(t[k] == peers[k]);
                    let i = choose|i: int| 0 <= i < rest.len() && subnet16_of((#[trigger] rest[i]).host@) == h;
                    assert(all[i] == rest[i]);
                } else if subnet_taken(t, exclude, peers.last()) {
                    let j = choose|j: int| 0 <= j < t.len() && subnet16_of((#[trigger] t[j]).host@) == h;
                    let i = choose|i: int|
                        0 <= i < rest.len() && subnet16_of((#[trigger] rest[i]).host@) == subnet16_of(t[j].host@);
                    assert(all[i] == rest[i]);
                } else {
                    assert(all[rest.len() as int] == peers.last());
                }
            }
        }
    }
}

/// What is sealed in a layer fills whole cells: one, or the next whole number of cells that
/// is more than the envelope takes.
pub proof fn law_layers_fill_whole_cells(n: nat)
    ensures
        padded_len(n) % 512 == 0,
        n <= 512 ==> padded_len(n) == 512,
        n > 512 ==> n < padded_len(n) <= n + 512,
{
}

/// An envelope is found again behind whatever padding was put behind it.
pub proof fn law_padding_is_taken_off(
    next: Option<(&str, u16)>,
    data: &[u8],
    written: Vec<u8>,
    padding: Seq<u8>,
    buf: &[u8],
    r: &[u8],
)
    requires
        call_ensures(write_envelope, (next, data), written),
        buf@ == written@ + padding,
        call_ensures(trim_json_padding, (buf,), r),
    ensures
        r@ == written@,
{
    let n = match next {
        Some((h, p)) => Some((h@, p)),
        None => None,
    };
    law_trimming_undoes_padding(n, data@, padding);
}

} // verus!
