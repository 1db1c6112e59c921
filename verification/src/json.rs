//! The two JSON objects of an onion layer.

use crate::bytes::append;
use crate::fields;
use crate::fields::{read_record, Found, Kind, Value};
use crate::text;
use crate::text::{decimal_string, hex_digit_char, hex_encode};
use vstd::prelude::*;
use vstd::string::*;
use vstd::utf8::*;

verus! {

/// A byte of a text inside a JSON string: quotes, backslashes and control
/// characters are escaped, everything else stands for itself.
pub open spec fn escaped(b: u8) -> Seq<u8> {
    if b == 34 || b == 92 {
        seq![92u8, b]
    } else if b == 8 {
        seq![92u8, 98u8]
    } else if b == 9 {
        seq![92u8, 116u8]
    } else if b == 10 {
        seq![92u8, 110u8]
    } else if b == 12 {
        seq![92u8, 102u8]
    } else if b == 13 {
        seq![92u8, 114u8]
    } else if b < 32 {
        seq![92u8, 117u8, 48u8, 48u8, text::hex_digit((b / 16) as nat) as u8, text::hex_digit((b % 16) as nat) as u8]
    } else {
        seq![b]
    }
}

/// The inside of the JSON string of a text.
pub open spec fn escaped_text(s: Seq<u8>) -> Seq<u8>
    decreases s.len(),
{
    if s.len() == 0 {
        Seq::empty()
    } else {
        escaped_text(s.drop_last()) + escaped(s.last())
    }
}

/// A text as a JSON string.
pub open spec fn quoted(s: Seq<u8>) -> Seq<u8> {
    seq![34u8] + escaped_text(s) + seq![34u8]
}

/// No text grows more than sixfold inside a JSON string.
pub proof fn lemma_escaped_len(s: Seq<u8>)
    ensures
        escaped_text(s).len() <= 6 * s.len(),
    decreases s.len(),
{
    if s.len() > 0 {
        lemma_escaped_len(s.drop_last());
    }
}

/// Plain characters stand for themselves inside a JSON string.
pub proof fn lemma_escaped_plain(s: Seq<u8>)
    requires
        forall|i: int| 0 <= i < s.len() ==> #[trigger] s[i] >= 32 && s[i] != 34 && s[i] != 92,
    ensures
        escaped_text(s) == s,
    decreases s.len(),
{
    if s.len() > 0 {
        lemma_escaped_plain(s.drop_last());
        assert(escaped_text(s) =~= s);
    } else {
        assert(escaped_text(s) =~= s);
    }
}

/// Appends a text as a JSON string.
fn push_quoted(out: &mut Vec<u8>, s: &[u8])
    ensures
        final(out)@ == old(out)@ + quoted(s@),
{
    out.push(34u8);
    let ghost head = out@;
    let mut i: usize = 0;
    assert(out@ =~= head + escaped_text(s@.take(0)));
    while i < s.len()
        invariant
            i <= s@.len(),
            out@ == head + escaped_text(s@.take(i as int)),
        decreases s@.len() - i,
    {
        let b: u8 = s[i];
        let ghost before = out@;
        if b == 34 || b == 92 {
            out.push(92u8);
            out.push(b);
        } else if b == 8 {
            out.push(92u8);
            out.push(98u8);
        } else if b == 9 {
            out.push(92u8);
            out.push(116u8);
        } else if b == 10 {
            out.push(92u8);
            out.push(110u8);
        } else if b == 12 {
            out.push(92u8);
            out.push(102u8);
        } else if b == 13 {
            out.push(92u8);
            out.push(114u8);
        } else if b < 32 {
            out.push(92u8);
            out.push(117u8);
            out.push(48u8);
            out.push(48u8);
            out.push(hex_digit_char(b / 16) as u8);
            out.push(hex_digit_char(b % 16) as u8);
        } else {
            out.push(b);
        }
        assert(out@ =~= before + escaped(b));
        assert(s@.take(i + 1).drop_last() =~= s@.take(i as int));
        assert(s@.take(i + 1).last() == b);
        i += 1;
        assert(out@ =~= head + escaped_text(s@.take(i as int)));
    }
    assert(s@.take(i as int) =~= s@);
    out.push(34u8);
    assert(out@ =~= old(out)@ + quoted(s@));
}

/// Where the data of an onion layer goes next, if anywhere.
pub open spec fn next_host_json(next: Option<(Seq<char>, u16)>) -> Seq<u8> {
    match next {
        Some((host, port)) => quoted(encode_utf8(host)),
        None => "null".spec_bytes(),
    }
}

/// The port of the next hop, if there is one.
pub open spec fn next_port_json(next: Option<(Seq<char>, u16)>) -> Seq<u8> {
    match next {
        Some((host, port)) => encode_utf8(text::decimal(port as nat)),
        None => "null".spec_bytes(),
    }
}

/// A field of a JSON object.
pub open spec fn field(name: &str, value: Seq<u8>) -> Seq<u8> {
    quoted(name.spec_bytes()) + seq![58u8] + value
}

/// The envelope of an onion layer: the next hop, and the data for it.
pub open spec fn envelope_bytes(next: Option<(Seq<char>, u16)>, data: Seq<u8>) -> Seq<u8> {
    seq![123u8] + field("next_host", next_host_json(next)) + seq![44u8] + field(
        "next_port",
        next_port_json(next),
    ) + seq![44u8] + field("data", quoted(encode_utf8(text::hex_of(data)))) + seq![125u8]
}

/// A sealed onion layer: the sender's ephemeral key, the nonce, the address that
/// the layer is for, and the sealed envelope.
pub open spec fn layer_bytes(ephem: Seq<u8>, nonce: u64, aad: Seq<char>, ct: Seq<u8>) -> Seq<u8> {
    seq![123u8] + field("ephem_pub", quoted(encode_utf8(text::hex_of(ephem)))) + seq![44u8] + field(
        "nonce",
        encode_utf8(text::decimal(nonce as nat)),
    ) + seq![44u8] + field("aad", quoted(encode_utf8(aad))) + seq![44u8] + field(
        "ct",
        quoted(encode_utf8(text::hex_of(ct))),
    ) + seq![125u8]
}

/// Appends the name of a field and the colon behind it.
fn push_name(out: &mut Vec<u8>, name: &str)
    ensures
        final(out)@ == old(out)@ + quoted(name.spec_bytes()) + seq![58u8],
{
    push_quoted(out, name.as_bytes());
    out.push(58u8);
    assert(out@ =~= old(out)@ + quoted(name.spec_bytes()) + seq![58u8]);
}

/// Writes the envelope of an onion layer.
pub fn write_envelope(next: Option<(&str, u16)>, data: &[u8]) -> (r: Vec<u8>)
    ensures
        r@ == envelope_bytes(
            match next {
                Some((h, p)) => Some((h@, p)),
                None => None,
            },
            data@,
        ),
{
    let ghost n = match next {
        Some((h, p)) => Some((h@, p)),
        None => None,
    };
    let mut out: Vec<u8> = Vec::new();
    out.push(123u8);
    push_name(&mut out, "next_host");
    match next {
        Some((h, _)) => push_quoted(&mut out, h.as_bytes()),
        None => append(&mut out, "null".as_bytes()),
    }
    assert(out@ =~= seq![123u8] + field("next_host", next_host_json(n)));
    out.push(44u8);
    let ghost g1 = out@;
    push_name(&mut out, "next_port");
    match next {
        Some((_, p)) => {
            let s: String = decimal_string(p as u64);
            append(&mut out, s.as_str().as_bytes());
        },
        None => append(&mut out, "null".as_bytes()),
    }
    assert(out@ =~= g1 + field("next_port", next_port_json(n)));
    out.push(44u8);
    let ghost g2 = out@;
    push_name(&mut out, "data");
    let hex: String = hex_encode(data);
    push_quoted(&mut out, hex.as_str().as_bytes());
    assert(out@ =~= g2 + field("data", quoted(encode_utf8(text::hex_of(data@)))));
    out.push(125u8);
    assert(out@ =~= envelope_bytes(n, data@));
    out
}

/// Writes a sealed onion layer.
pub fn write_layer(ephem: &[u8], nonce: u64, aad: &str, ct: &[u8]) -> (r: Vec<u8>)
    ensures
        r@ == layer_bytes(ephem@, nonce, aad@, ct@),
{
    let mut out: Vec<u8> = Vec::new();
    out.push(123u8);
    push_name(&mut out, "ephem_pub");
    let e: String = hex_encode(ephem);
    push_quoted(&mut out, e.as_str().as_bytes());
    assert(out@ =~= seq![123u8] + field("ephem_pub", quoted(encode_utf8(text::hex_of(ephem@)))));
    out.push(44u8);
    let ghost g1 = out@;
    push_name(&mut out, "nonce");
    let n: String = decimal_string(nonce);
    append(&mut out, n.as_str().as_bytes());
    assert(out@ =~= g1 + field("nonce", encode_utf8(text::decimal(nonce as nat))));
    out.push(44u8);
    let ghost g2 = out@;
    push_name(&mut out, "aad");
    push_quoted(&mut out, aad.as_bytes());
    assert(out@ =~= g2 + field("aad", quoted(encode_utf8(aad@))));
    out.push(44u8);
    let ghost g3 = out@;
    push_name(&mut out, "ct");
    let c: String = hex_encode(ct);
    push_quoted(&mut out, c.as_str().as_bytes());
    assert(out@ =~= g3 + field("ct", quoted(encode_utf8(text::hex_of(ct@)))));
    out.push(125u8);
    assert(out@ =~= layer_bytes(ephem@, nonce, aad@, ct@));
    out
}

/// The fields of an envelope.
pub open spec fn envelope_fields() -> Seq<(Seq<char>, Kind)> {
    seq![
        ("next_host"@, Kind::MaybeText),
        ("next_port"@, Kind::MaybePort),
        ("data"@, Kind::Text),
    ]
}

/// The fields of a layer.
pub open spec fn layer_fields() -> Seq<(Seq<char>, Kind)> {
    seq![
        ("ephem_pub"@, Kind::Text),
        ("nonce"@, Kind::Number),
        ("aad"@, Kind::Text),
        ("ct"@, Kind::Text),
    ]
}

/// What is read of an envelope: the next host, the next port, the data in
/// hexadecimal. Nothing when the bytes hold no such record.
pub open spec fn envelope_read(bytes: Seq<u8>) -> Option<
    (Option<Seq<char>>, Option<u16>, Seq<char>),
> {
    match fields::record_read(bytes, "Envelope"@, envelope_fields()) {
        Ok(v) => Some((v[0]->MaybeText_0, v[1]->MaybePort_0, v[2]->Text_0)),
        Err(_) => None,
    }
}

/// What is read of a layer: the ephemeral key in hexadecimal, the nonce, the
/// address, the sealed envelope in hexadecimal. Nothing when the bytes hold no
/// such record.
pub open spec fn layer_read(bytes: Seq<u8>) -> Option<(Seq<char>, u64, Seq<char>, Seq<char>)> {
    match fields::record_read(bytes, "LayerWrapper"@, layer_fields()) {
        Ok(v) => Some((v[0]->Text_0, v[1]->Number_0, v[2]->Text_0, v[3]->Text_0)),
        Err(_) => None,
    }
}

/// The text with which reading the bytes as an envelope fails.
pub open spec fn envelope_error_text(bytes: Seq<u8>) -> Seq<char> {
    fields::record_read(bytes, "Envelope"@, envelope_fields())->Err_0
}

/// The text with which reading the bytes as a layer fails.
pub open spec fn layer_error_text(bytes: Seq<u8>) -> Seq<char> {
    fields::record_read(bytes, "LayerWrapper"@, layer_fields())->Err_0
}

/// The names of the fields are different.
proof fn lemma_field_names()
    ensures
        fields::field_from(envelope_fields(), "next_host"@, 0) == 0,
        fields::field_from(envelope_fields(), "next_port"@, 0) == 1,
        fields::field_from(envelope_fields(), "data"@, 0) == 2,
        fields::field_from(layer_fields(), "ephem_pub"@, 0) == 0,
        fields::field_from(layer_fields(), "nonce"@, 0) == 1,
        fields::field_from(layer_fields(), "aad"@, 0) == 2,
        fields::field_from(layer_fields(), "ct"@, 0) == 3,
{
    reveal_strlit("next_host");
    reveal_strlit("next_port");
    reveal_strlit("data");
    reveal_strlit("ephem_pub");
    reveal_strlit("nonce");
    reveal_strlit("aad");
    reveal_strlit("ct");
    assert("next_host"@[5] != "next_port"@[5]);
    assert("next_host"@.len() == 9 && "data"@.len() == 4 && "next_port"@.len() == 9);
    assert("ephem_pub"@.len() == 9 && "nonce"@.len() == 5 && "aad"@.len() == 3 && "ct"@.len() == 2);
    reveal_with_fuel(fields::field_from, 5);
}

/// The bytes of a written number.
proof fn lemma_number_bytes(n: nat)
    ensures
        encode_utf8(text::decimal(n)).len() > 0,
{
    text::lemma_decimal_value(n);
    let d = text::decimal(n);
    assert(is_ascii_chars(d));
    is_ascii_chars_encode_utf8(d);
}

/// A layer that is written is read as it was written.
#[verifier::spinoff_prover]
#[verifier::rlimit(60)]
proof fn lemma_layer_reads_back(b: Seq<u8>, ephem: Seq<u8>, nonce: u64, aad: Seq<char>, ct: Seq<u8>)
    requires
        b == layer_bytes(ephem, nonce, aad, ct),
        fields::record_faithful(b, layer_fields()),
    ensures
        layer_read(b) == Some((text::hex_of(ephem), nonce, aad, text::hex_of(ct))),
{
    let s = layer_fields();
    let (e, c) = (text::hex_of(ephem), text::hex_of(ct));
    let v0 = quoted(encode_utf8(e));
    let v1 = encode_utf8(text::decimal(nonce as nat));
    let v2 = quoted(encode_utf8(aad));
    let v3 = quoted(encode_utf8(c));
    let r3 = seq![125u8];
    let r2 = seq![44u8] + field("ct", v3) + r3;
    let r1 = seq![44u8] + field("aad", v2) + r2;
    let r0 = seq![44u8] + field("nonce", v1) + r1;
    lemma_field_names();
    lemma_number_bytes(nonce as nat);
    fields::lemma_plain_values(e, 0, r0);
    fields::lemma_plain_values(aad, nonce, r1);
    fields::lemma_plain_values(aad, 0, r2);
    fields::lemma_plain_values(c, 0, r3);
    let none = fields::nothing_found(4);
    assert(b[0] == 123);
    assert(fields::past_blanks(b, 0) == 0);
    assert(b.skip(1) =~= Seq::<u8>::empty() + quoted("ephem_pub".spec_bytes()) + seq![58u8] + v0 + r0);
    let g0 = none.update(0, Some(Found::Text(e)));
    fields::lemma_field_read(b, 1, true, s, none, "ephem_pub"@, 0, v0, r0, Found::Text(e));
    let i1 = 1 + quoted("ephem_pub".spec_bytes()).len() + 1 + v0.len();
    assert(r0 =~= seq![44u8] + quoted("nonce".spec_bytes()) + seq![58u8] + v1 + r1);
    let g1 = g0.update(1, Some(Found::Number(nonce)));
    assert(fields::ends_number(r1));
    fields::lemma_field_read(b, i1 as int, false, s, g0, "nonce"@, 1, v1, r1, Found::Number(nonce));
    let i2 = i1 + 1 + quoted("nonce".spec_bytes()).len() + 1 + v1.len();
    assert(r1 =~= seq![44u8] + quoted("aad".spec_bytes()) + seq![58u8] + v2 + r2);
    let g2 = g1.update(2, Some(Found::Text(aad)));
    fields::lemma_field_read(b, i2 as int, false, s, g1, "aad"@, 2, v2, r2, Found::Text(aad));
    let i3 = i2 + 1 + quoted("aad".spec_bytes()).len() + 1 + v2.len();
    assert(r2 =~= seq![44u8] + quoted("ct".spec_bytes()) + seq![58u8] + v3 + r3);
    let g3 = g2.update(3, Some(Found::Text(c)));
    fields::lemma_field_read(b, i3 as int, false, s, g2, "ct"@, 3, v3, r3, Found::Text(c));
    let i4 = i3 + 1 + quoted("ct".spec_bytes()).len() + 1 + v3.len();
    lemma_record_ends(b, i4 as int, s, g3);
    reveal_with_fuel(fields::missing_from, 5);
    assert(fields::filled(s, g3) =~= seq![
        Found::Text(e),
        Found::Number(nonce),
        Found::Text(aad),
        Found::Text(c),
    ]);
}

/// Where only the closing brace is left, an object ends.
proof fn lemma_record_ends(b: Seq<u8>, i: int, schema: Seq<(Seq<char>, Kind)>, got: Seq<Option<Found>>)
    requires
        0 <= i <= b.len(),
        b.skip(i) == seq![125u8],
    ensures
        fields::fields_read(b, i, false, schema, got) == Ok::<
            (Seq<Option<Found>>, int),
            Seq<char>,
        >((got, i + 1)),
        fields::past_blanks(b, i + 1) == b.len(),
{
    assert(b.skip(i).len() == 1);
    assert(b[i] == b.skip(i)[0]);
    assert(fields::past_blanks(b, i) == i);
}

/// The next hop that is written in an envelope is read there.
proof fn lemma_next_values(next: Option<(Seq<char>, u16)>, rest: Seq<u8>)
    ensures
        next_host_json(next).len() > 0,
        next_port_json(next).len() > 0,
        fields::reads_back(Kind::MaybeText, next_host_json(next) + rest) ==> fields::value_at(
            Kind::MaybeText,
            next_host_json(next) + rest,
        ) == Ok::<(Found, nat), (Seq<char>, nat, nat)>(
            (
                Found::MaybeText(
                    match next {
                        Some((h, p)) => Some(h),
                        None => None,
                    },
                ),
                next_host_json(next).len(),
            ),
        ),
        fields::ends_number(rest) && fields::reads_back(
            Kind::MaybePort,
            next_port_json(next) + rest,
        ) ==> fields::value_at(Kind::MaybePort, next_port_json(next) + rest) == Ok::<
            (Found, nat),
            (Seq<char>, nat, nat),
        >(
            (
                Found::MaybePort(
                    match next {
                        Some((h, p)) => Some(p),
                        None => None,
                    },
                ),
                next_port_json(next).len(),
            ),
        ),
{
    reveal(fields::reads_back);
    reveal_strlit("null");
    assert(is_ascii_chars("null"@));
    is_ascii_chars_encode_utf8("null"@);
    if let Some((h, p)) = next {
        lemma_number_bytes(p as nat);
    }
}

/// An envelope that is written is read as it was written.
proof fn lemma_envelope_reads_back(b: Seq<u8>, next: Option<(Seq<char>, u16)>, data: Seq<u8>)
    requires
        b == envelope_bytes(next, data),
        fields::record_faithful(b, envelope_fields()),
    ensures
        envelope_read(b) == Some(
            match next {
                Some((h, p)) => (Some(h), Some(p), text::hex_of(data)),
                None => (None, None, text::hex_of(data)),
            },
        ),
{
    let d = text::hex_of(data);
    let (host, port) = match next {
        Some((h, p)) => (Some(h), Some(p)),
        None => (None, None),
    };
    let v0 = next_host_json(next);
    let v1 = next_port_json(next);
    let v2 = quoted(encode_utf8(d));
    let r2 = seq![125u8];
    let r1 = seq![44u8] + field("data", v2) + r2;
    let r0 = seq![44u8] + field("next_port", v1) + r1;
    lemma_next_values(next, r0);
    lemma_next_values(next, r1);
    assert(fields::ends_number(r1));
    assert(b =~= seq![123u8] + field("next_host", v0) + r0);
    lemma_envelope_fields_read(b, v0, v1, d, Found::MaybeText(host), Found::MaybePort(port));
}

/// The fields of a written envelope are read one after the other.
#[verifier::rlimit(40)]
#[verifier::spinoff_prover]
proof fn lemma_envelope_fields_read(
    b: Seq<u8>,
    v0: Seq<u8>,
    v1: Seq<u8>,
    d: Seq<char>,
    x0: Found,
    x1: Found,
)
    requires
        fields::record_faithful(b, envelope_fields()),
        v0.len() > 0,
        v1.len() > 0,
        ({
            let r1 = seq![44u8] + field("data", quoted(encode_utf8(d))) + seq![125u8];
            let r0 = seq![44u8] + field("next_port", v1) + r1;
            &&& b == seq![123u8] + field("next_host", v0) + r0
            &&& fields::reads_back(Kind::MaybeText, v0 + r0) ==> fields::value_at(
                Kind::MaybeText,
                v0 + r0,
            ) == Ok::<(Found, nat), (Seq<char>, nat, nat)>((x0, v0.len()))
            &&& fields::reads_back(Kind::MaybePort, v1 + r1) ==> fields::value_at(
                Kind::MaybePort,
                v1 + r1,
            ) == Ok::<(Found, nat), (Seq<char>, nat, nat)>((x1, v1.len()))
        }),
    ensures
        fields::record_read(b, "Envelope"@, envelope_fields()) == Ok::<Seq<Found>, Seq<char>>(
            seq![x0, x1, Found::Text(d)],
        ),
{
    let s = envelope_fields();
    let v2 = quoted(encode_utf8(d));
    let r2 = seq![125u8];
    let r1 = seq![44u8] + field("data", v2) + r2;
    let r0 = seq![44u8] + field("next_port", v1) + r1;
    lemma_field_names();
    fields::lemma_plain_values(d, 0, r2);
    let none = fields::nothing_found(3);
    assert(b[0] == 123);
    assert(fields::past_blanks(b, 0) == 0);
    assert(b.skip(1) =~= Seq::<u8>::empty() + quoted("next_host".spec_bytes()) + seq![58u8] + v0 + r0);
    let g0 = none.update(0, Some(x0));
    fields::lemma_field_read(b, 1, true, s, none, "next_host"@, 0, v0, r0, x0);
    let i1 = 1 + quoted("next_host".spec_bytes()).len() + 1 + v0.len();
    assert(r0 =~= seq![44u8] + quoted("next_port".spec_bytes()) + seq![58u8] + v1 + r1);
    let g1 = g0.update(1, Some(x1));
    fields::lemma_field_read(b, i1 as int, false, s, g0, "next_port"@, 1, v1, r1, x1);
    let i2 = i1 + 1 + quoted("next_port".spec_bytes()).len() + 1 + v1.len();
    assert(r1 =~= seq![44u8] + quoted("data".spec_bytes()) + seq![58u8] + v2 + r2);
    let g2 = g1.update(2, Some(Found::Text(d)));
    fields::lemma_field_read(b, i2 as int, false, s, g1, "data"@, 2, v2, r2, Found::Text(d));
    let i3 = i2 + 1 + quoted("data".spec_bytes()).len() + 1 + v2.len();
    lemma_record_ends(b, i3 as int, s, g2);
    reveal_with_fuel(fields::missing_from, 4);
    assert(fields::filled(s, g2) =~= seq![x0, x1, Found::Text(d)]);
}

/// Reads an envelope. One that this module writes is read as it was written.
pub(crate) fn read_envelope(bytes: &[u8]) -> (r: Result<
    (Option<String>, Option<u16>, String),
    String,
>)
    requires
        bytes@.len() <= fields::read_limit(),
    ensures
        r is Ok == envelope_read(bytes@) is Some,
        r matches Ok((h, p, d)) ==> envelope_read(bytes@) == Some(
            (
                match h {
                    Some(s) => Some(s@),
                    None => None,
                },
                p,
                d@,
            ),
        ),
        r matches Err(e) ==> e@ == envelope_error_text(bytes@),
        forall|next: Option<(Seq<char>, u16)>, data: Seq<u8>|
            bytes@ == #[trigger] envelope_bytes(next, data) ==> envelope_read(bytes@) == Some(
                match next {
                    Some((h, p)) => (Some(h), Some(p), text::hex_of(data)),
                    None => (None, None, text::hex_of(data)),
                },
            ),
{
    let schema: [(&'static str, Kind); 3] = [
        ("next_host", Kind::MaybeText),
        ("next_port", Kind::MaybePort),
        ("data", Kind::Text),
    ];
    assert(fields::schema_of(schema@) =~= envelope_fields());
    let read: Result<Vec<Value>, String> = read_record(bytes, "Envelope", schema.as_slice());
    proof {
        assert forall|next: Option<(Seq<char>, u16)>, data: Seq<u8>|
            bytes@ == #[trigger] envelope_bytes(next, data) implies envelope_read(bytes@) == Some(
            match next {
                Some((h, p)) => (Some(h), Some(p), text::hex_of(data)),
                None => (None, None, text::hex_of(data)),
            },
        ) by {
            lemma_envelope_reads_back(bytes@, next, data);
        }
    }
    let mut v: Vec<Value> = match read {
        Ok(v) => v,
        Err(t) => return Err(t),
    };
    let ghost found = fields::contents(v@);
    assert(found[0] == v@[0]@ && found[1] == v@[1]@ && found[2] == v@[2]@);
    match (v.pop(), v.pop(), v.pop()) {
        (Some(Value::Text(d)), Some(Value::MaybePort(p)), Some(Value::MaybeText(h))) => Ok((h, p, d)),
        _ => Err(String::new()),
    }
}

/// Reads a layer. One that this module writes is read as it was written, and no text in a
/// layer is longer than its bytes.
pub(crate) fn read_layer(bytes: &[u8]) -> (r: Result<(String, u64, String, String), String>)
    requires
        bytes@.len() <= fields::read_limit(),
    ensures
        r is Ok == layer_read(bytes@) is Some,
        r matches Ok((e, n, a, c)) ==> layer_read(bytes@) == Some((e@, n, a@, c@)),
        r matches Ok((e, n, a, c)) ==> c@.len() <= bytes@.len(),
        r matches Err(e) ==> e@ == layer_error_text(bytes@),
        forall|ephem: Seq<u8>, nonce: u64, aad: Seq<char>, ct: Seq<u8>|
            bytes@ == #[trigger] layer_bytes(ephem, nonce, aad, ct) ==> layer_read(bytes@) == Some(
                (text::hex_of(ephem), nonce, aad, text::hex_of(ct)),
            ),
{
    let schema: [(&'static str, Kind); 4] = [
        ("ephem_pub", Kind::Text),
        ("nonce", Kind::Number),
        ("aad", Kind::Text),
        ("ct", Kind::Text),
    ];
    assert(fields::schema_of(schema@) =~= layer_fields());
    let read: Result<Vec<Value>, String> = read_record(bytes, "LayerWrapper", schema.as_slice());
    proof {
        assert forall|ephem: Seq<u8>, nonce: u64, aad: Seq<char>, ct: Seq<u8>|
            bytes@ == #[trigger] layer_bytes(ephem, nonce, aad, ct) implies layer_read(bytes@)
            == Some((text::hex_of(ephem), nonce, aad, text::hex_of(ct))) by {
            lemma_layer_reads_back(bytes@, ephem, nonce, aad, ct);
        }
    }
    let mut v: Vec<Value> = match read {
        Ok(v) => v,
        Err(t) => return Err(t),
    };
    let ghost found = fields::contents(v@);
    assert(found[0] == v@[0]@ && found[1] == v@[1]@ && found[2] == v@[2]@ && found[3] == v@[3]@);
    match (v.pop(), v.pop(), v.pop(), v.pop()) {
        (
            Some(Value::Text(c)),
            Some(Value::Text(a)),
            Some(Value::Number(n)),
            Some(Value::Text(e)),
        ) => Ok((e, n, a, c)),
        _ => Err(String::new()),
    }
}

/// An envelope is read as it was written: with the next hop, if there is one, and its data.
pub(crate) proof fn law_envelopes_read_back(
    next: Option<(&str, u16)>,
    data: &[u8],
    written: Vec<u8>,
    bytes: &[u8],
    r: Result<(Option<String>, Option<u16>, String), String>,
)
    requires
        call_ensures(write_envelope, (next, data), written),
        bytes@ == written@,
        call_ensures(read_envelope, (bytes,), r),
    ensures
        r is Ok,
        (r matches Ok((h, p, d)) ==> text::unhex(d@) == data@ && match next {
            Some((host, port)) => (h matches Some(s) && s@ == host@) && p == Some(port),
            None => h is None && p is None,
        }),
{
    text::lemma_hex_roundtrip(data@);
    let n = match next {
        Some((h, p)) => Some((h@, p)),
        None => None,
    };
    assert(bytes@ == envelope_bytes(n, data@));
}

/// A layer is read as it was written: its public key, its number, its address and its
/// sealed text.
pub(crate) proof fn law_layers_read_back(
    ephem: &[u8],
    nonce: u64,
    aad: &str,
    ct: &[u8],
    written: Vec<u8>,
    bytes: &[u8],
    r: Result<(String, u64, String, String), String>,
)
    requires
        call_ensures(write_layer, (ephem, nonce, aad, ct), written),
        bytes@ == written@,
        call_ensures(read_layer, (bytes,), r),
    ensures
        r is Ok,
        (r matches Ok((e, n, a, c)) ==> text::unhex(e@) == ephem@ && n == nonce && a@ == aad@ && text::unhex(c@) == ct@),
{
    text::lemma_hex_roundtrip(ephem@);
    text::lemma_hex_roundtrip(ct@);
    assert(bytes@ == layer_bytes(ephem@, nonce, aad@, ct@));
}

/// In quotes stands the text itself, where it holds nothing that has to be escaped.
pub proof fn law_plain_texts_are_quoted_as_they_are(s: Seq<u8>)
    requires
        forall|i: int| 0 <= i < s.len() ==> 32 <= #[trigger] s[i] && s[i] != 34 && s[i] != 92,
    ensures
        quoted(s) == seq![34u8] + s + seq![34u8],
{
    lemma_escaped_plain(s);
}

proof fn lemma_hex_bytes(data: Seq<u8>)
    ensures
        quoted(encode_utf8(text::hex_of(data))) == seq![34u8] + encode_utf8(text::hex_of(data)) + seq![34u8],
{
    let h = text::hex_of(data);
    assert(is_ascii_chars(h));
    is_ascii_chars_encode_utf8(h);
    assert forall|i: int| 0 <= i < encode_utf8(h).len() implies 32 <= #[trigger] encode_utf8(h)[i] && encode_utf8(h)[i]
        != 34 && encode_utf8(h)[i] != 92 by {
        assert(encode_utf8(h)[i] == h[i] as u8);
    }
    law_plain_texts_are_quoted_as_they_are(encode_utf8(h));
}

proof fn lemma_name_bytes(name: &str)
    requires
        is_ascii(name),
        forall|i: int| 0 <= i < name@.len() ==> 'a' <= #[trigger] name@[i] <= 'z' || name@[i] == '_',
    ensures
        quoted(name.spec_bytes()) == seq![34u8] + name.spec_bytes() + seq![34u8],
        name.spec_bytes() == Seq::new(name@.len(), |i: int| name@[i] as u8),
{
    is_ascii_spec_bytes(name);
    law_plain_texts_are_quoted_as_they_are(name.spec_bytes());
}

/// The last envelope of an onion in full: no next hop, and its data in hexadecimal.
pub proof fn law_how_the_last_envelope_is_written(data: &[u8], r: Vec<u8>)
    requires
        call_ensures(write_envelope, (None, data), r),
    ensures
        r@ == "{\"next_host\":null,\"next_port\":null,\"data\":\"".spec_bytes() + encode_utf8(text::hex_of(data@))
            + "\"}".spec_bytes(),
{
    reveal_strlit("{\"next_host\":null,\"next_port\":null,\"data\":\"");
    reveal_strlit("\"}");
    reveal_strlit("null");
    reveal_strlit("next_host");
    reveal_strlit("next_port");
    reveal_strlit("data");
    is_ascii_spec_bytes("{\"next_host\":null,\"next_port\":null,\"data\":\"");
    is_ascii_spec_bytes("\"}");
    is_ascii_spec_bytes("null");
    lemma_name_bytes("next_host");
    lemma_name_bytes("next_port");
    lemma_name_bytes("data");
    lemma_hex_bytes(data@);
    let head = "{\"next_host\":null,\"next_port\":null,\"data\":\"".spec_bytes();
    let hex = encode_utf8(text::hex_of(data@));
    let built = seq![123u8] + field("next_host", "null".spec_bytes()) + seq![44u8] + field(
        "next_port",
        "null".spec_bytes(),
    ) + seq![44u8] + (seq![34u8] + "data".spec_bytes() + seq![34u8] + seq![58u8] + seq![34u8]);
    assert(built.len() == head.len());
    assert(built =~= head);
    assert("\"}".spec_bytes() =~= seq![34u8, 125u8]);
    assert(r@ =~= built + hex + seq![34u8, 125u8]);
}

/// Any other envelope in full: the next hop's host in quotes and its port, and the data in
/// hexadecimal.
pub proof fn law_how_an_envelope_is_written(host: &str, port: u16, data: &[u8], r: Vec<u8>)
    requires
        call_ensures(write_envelope, (Some((host, port)), data), r),
    ensures
        r@ == "{\"next_host\":".spec_bytes() + quoted(encode_utf8(host@)) + ",\"next_port\":".spec_bytes() + encode_utf8(
            text::decimal(port as nat),
        ) + ",\"data\":\"".spec_bytes() + encode_utf8(text::hex_of(data@)) + "\"}".spec_bytes(),
{
    reveal_strlit("{\"next_host\":");
    reveal_strlit(",\"next_port\":");
    reveal_strlit(",\"data\":\"");
    reveal_strlit("\"}");
    reveal_strlit("next_host");
    reveal_strlit("next_port");
    reveal_strlit("data");
    is_ascii_spec_bytes("{\"next_host\":");
    is_ascii_spec_bytes(",\"next_port\":");
    is_ascii_spec_bytes(",\"data\":\"");
    is_ascii_spec_bytes("\"}");
    lemma_name_bytes("next_host");
    lemma_name_bytes("next_port");
    lemma_name_bytes("data");
    lemma_hex_bytes(data@);
    let q = seq![34u8];
    let a = seq![123u8] + (q + "next_host".spec_bytes() + q) + seq![58u8];
    let b = seq![44u8] + (q + "next_port".spec_bytes() + q) + seq![58u8];
    let c = seq![44u8] + (q + "data".spec_bytes() + q) + seq![58u8] + q;
    assert(a =~= "{\"next_host\":".spec_bytes());
    assert(b =~= ",\"next_port\":".spec_bytes());
    assert(c =~= ",\"data\":\"".spec_bytes());
    assert("\"}".spec_bytes() =~= seq![34u8, 125u8]);
    let h = quoted(encode_utf8(host@));
    let p = encode_utf8(text::decimal(port as nat));
    let x = encode_utf8(text::hex_of(data@));
    assert(r@ =~= a + h + b + p + c + x + seq![34u8, 125u8]);
}

/// A layer in full: the public key in hexadecimal, the number, the address in quotes and the
/// sealed text in hexadecimal.
pub proof fn law_how_a_layer_is_written(ephem: &[u8], nonce: u64, aad: &str, ct: &[u8], r: Vec<u8>)
    requires
        call_ensures(write_layer, (ephem, nonce, aad, ct), r),
    ensures
        r@ == "{\"ephem_pub\":\"".spec_bytes() + encode_utf8(text::hex_of(ephem@)) + "\",\"nonce\":".spec_bytes()
            + encode_utf8(text::decimal(nonce as nat)) + ",\"aad\":".spec_bytes() + quoted(encode_utf8(aad@))
            + ",\"ct\":\"".spec_bytes() + encode_utf8(text::hex_of(ct@)) + "\"}".spec_bytes(),
{
    reveal_strlit("{\"ephem_pub\":\"");
    reveal_strlit("\",\"nonce\":");
    reveal_strlit(",\"aad\":");
    reveal_strlit(",\"ct\":\"");
    reveal_strlit("\"}");
    reveal_strlit("ephem_pub");
    reveal_strlit("nonce");
    reveal_strlit("aad");
    reveal_strlit("ct");
    is_ascii_spec_bytes("{\"ephem_pub\":\"");
    is_ascii_spec_bytes("\",\"nonce\":");
    is_ascii_spec_bytes(",\"aad\":");
    is_ascii_spec_bytes(",\"ct\":\"");
    is_ascii_spec_bytes("\"}");
    lemma_name_bytes("ephem_pub");
    lemma_name_bytes("nonce");
    lemma_name_bytes("aad");
    lemma_name_bytes("ct");
    lemma_hex_bytes(ephem@);
    lemma_hex_bytes(ct@);
    let q = seq![34u8];
    let a = seq![123u8] + (q + "ephem_pub".spec_bytes() + q) + seq![58u8] + q;
    let b = q + seq![44u8] + (q + "nonce".spec_bytes() + q) + seq![58u8];
    let c = seq![44u8] + (q + "aad".spec_bytes() + q) + seq![58u8];
    let d = seq![44u8] + (q + "ct".spec_bytes() + q) + seq![58u8] + q;
    assert(a =~= "{\"ephem_pub\":\"".spec_bytes());
    assert(b =~= "\",\"nonce\":".spec_bytes());
    assert(c =~= ",\"aad\":".spec_bytes());
    assert(d =~= ",\"ct\":\"".spec_bytes());
    assert("\"}".spec_bytes() =~= seq![34u8, 125u8]);
    let e = encode_utf8(text::hex_of(ephem@));
    let n = encode_utf8(text::decimal(nonce as nat));
    let s = quoted(encode_utf8(aad@));
    let x = encode_utf8(text::hex_of(ct@));
    assert(r@ =~= a + e + b + n + c + s + d + x + seq![34u8, 125u8]);
}

} // verus!
