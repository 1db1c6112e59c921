//! Reading JSON objects whose fields are known.
//!
//! An object may hold further fields, which are passed over; a known field stands in it once.
//! An array of the fields' values, in order, will do as well. Strings and numbers, and values
//! that are passed over, are read by `serde_json`; how objects and arrays are made of them,
//! and what is said of bytes that are none, stands here.

use crate::json;
use crate::text;
use crate::text::{append_decimal, chars_of, join3, str_eq, string_of};
use vstd::prelude::*;
use vstd::slice::*;
use vstd::string::*;
use vstd::utf8::*;

verus! {

/// What a field holds.
#[derive(Debug, Clone, Copy, PartialEq, Eq, Structural)]
pub enum Kind {
    /// A string.
    Text,
    /// A number of 64 bits.
    Number,
    /// A string, or nothing.
    MaybeText,
    /// A number of 16 bits, or nothing.
    MaybePort,
}

/// The value of a field.
#[derive(Debug)]
pub enum Value {
    Text(String),
    Number(u64),
    MaybeText(Option<String>),
    MaybePort(Option<u16>),
}

/// The contents of a field's value.
pub enum Found {
    Text(Seq<char>),
    Number(u64),
    MaybeText(Option<Seq<char>>),
    MaybePort(Option<u16>),
}

impl View for Value {
    type V = Found;

    open spec fn view(&self) -> Found {
        match self {
            Value::Text(s) => Found::Text(s@),
            Value::Number(n) => Found::Number(*n),
            Value::MaybeText(s) => Found::MaybeText(
                match s {
                    Some(t) => Some(t@),
                    None => None,
                },
            ),
            Value::MaybePort(p) => Found::MaybePort(*p),
        }
    }
}

/// The value is of the kind.
pub open spec fn fits(x: Found, kind: Kind) -> bool {
    match kind {
        Kind::Text => x is Text,
        Kind::Number => x is Number,
        Kind::MaybeText => x is MaybeText,
        Kind::MaybePort => x is MaybePort,
    }
}

/// The string at the start of the bytes, and how many bytes it takes; else what is wrong, in
/// words, and the line and column that the words end with.
pub uninterp spec fn text_at(bytes: Seq<u8>) -> Result<(Seq<char>, nat), (Seq<char>, nat, nat)>;

/// The number of 64 bits at the start of the bytes.
pub uninterp spec fn number_at(bytes: Seq<u8>) -> Result<(u64, nat), (Seq<char>, nat, nat)>;

/// The string or `null` at the start of the bytes.
pub uninterp spec fn maybe_text_at(bytes: Seq<u8>) -> Result<
    (Option<Seq<char>>, nat),
    (Seq<char>, nat, nat),
>;

/// The number of 16 bits or `null` at the start of the bytes.
pub uninterp spec fn maybe_port_at(bytes: Seq<u8>) -> Result<
    (Option<u16>, nat),
    (Seq<char>, nat, nat),
>;

/// How many bytes the value at the start of the bytes takes.
pub uninterp spec fn any_at(bytes: Seq<u8>) -> Result<nat, (Seq<char>, nat, nat)>;

/// What is wrong with bytes that are to hold a map; nothing for a map.
pub uninterp spec fn map_fault(bytes: Seq<u8>) -> Option<(Seq<char>, nat, nat)>;

/// A string that is written at the start of the bytes is read there.
pub open spec fn text_back(s: Seq<u8>) -> bool {
    forall|x: Seq<char>, rest: Seq<u8>|
        s == #[trigger] (json::quoted(encode_utf8(x)) + rest) ==> text_at(s) == Ok::<
            (Seq<char>, nat),
            (Seq<char>, nat, nat),
        >((x, json::quoted(encode_utf8(x)).len()))
}

/// What follows a number in an object.
pub open spec fn ends_number(rest: Seq<u8>) -> bool {
    rest.len() > 0 && (rest[0] == 44 || rest[0] == 125)
}

/// A value of the kind that is written at the start of the bytes is read there.
#[verifier::opaque]
pub open spec fn reads_back(kind: Kind, s: Seq<u8>) -> bool {
    match kind {
        Kind::Text => text_back(s),
        Kind::Number => forall|n: u64, rest: Seq<u8>|
            ends_number(rest) && s == #[trigger] (encode_utf8(text::decimal(n as nat)) + rest)
                ==> number_at(s) == Ok::<(u64, nat), (Seq<char>, nat, nat)>(
                (n, encode_utf8(text::decimal(n as nat)).len()),
            ),
        Kind::MaybeText => {
            &&& forall|x: Seq<char>, rest: Seq<u8>|
                s == #[trigger] (json::quoted(encode_utf8(x)) + rest) ==> maybe_text_at(s) == Ok::<
                    (Option<Seq<char>>, nat),
                    (Seq<char>, nat, nat),
                >((Some(x), json::quoted(encode_utf8(x)).len()))
            &&& forall|rest: Seq<u8>|
                s == #[trigger] ("null".spec_bytes() + rest) ==> maybe_text_at(s) == Ok::<
                    (Option<Seq<char>>, nat),
                    (Seq<char>, nat, nat),
                >((None, "null".spec_bytes().len()))
        },
        Kind::MaybePort => {
            &&& forall|n: u16, rest: Seq<u8>|
                ends_number(rest) && s == #[trigger] (encode_utf8(text::decimal(n as nat)) + rest)
                    ==> maybe_port_at(s) == Ok::<(Option<u16>, nat), (Seq<char>, nat, nat)>(
                    (Some(n), encode_utf8(text::decimal(n as nat)).len()),
                )
            &&& forall|rest: Seq<u8>|
                s == #[trigger] ("null".spec_bytes() + rest) ==> maybe_port_at(s) == Ok::<
                    (Option<u16>, nat),
                    (Seq<char>, nat, nat),
                >((None, "null".spec_bytes().len()))
        },
    }
}

/// `serde::Deserialize` of a `String`, from a `serde_json::Deserializer` of the bytes: the
/// string at their start, and where it ends. It is no longer than its bytes, and a string
/// that this library writes is read as it was written. What comes of other bytes, and what
/// is said of those that begin with no string, depends on them alone; a position is within
/// them.
#[verifier::external_body]
fn read_text(bytes: &[u8]) -> (r: Result<(String, usize), (String, u64, u64)>)
    ensures
        match r {
            Ok((s, n)) => text_at(bytes@) == Ok::<(Seq<char>, nat), (Seq<char>, nat, nat)>(
                (s@, n as nat),
            ) && s@.len() <= n && 0 < n <= bytes@.len(),
            Err((t, l, c)) => text_at(bytes@) == Err::<(Seq<char>, nat), (Seq<char>, nat, nat)>(
                (t@, l as nat, c as nat),
            ) && l <= bytes@.len() + 1 && c <= bytes@.len(),
        },
        forall|x: Seq<char>, rest: Seq<u8>|
            bytes@ == #[trigger] (json::quoted(encode_utf8(x)) + rest) ==> r is Ok && r->Ok_0.0@ == x
                && r->Ok_0.1 == json::quoted(encode_utf8(x)).len(),
{
    let mut de = serde_json::Deserializer::from_slice(bytes);
    let v: std::result::Result<String, serde_json::Error> = serde::Deserialize::deserialize(&mut de);
    v.map(|s| (s, de.into_iter::<()>().byte_offset())).map_err(
        |e| (e.to_string(), e.line() as u64, e.column() as u64),
    )
}

/// `serde::Deserialize` of a `u64`, from a `serde_json::Deserializer` of the bytes: the number
/// at their start, and where it ends. A number that this library writes is read as it was
/// written; the rest is as with [`read_text`].
#[verifier::external_body]
fn read_number(bytes: &[u8]) -> (r: Result<(u64, usize), (String, u64, u64)>)
    ensures
        match r {
            Ok((x, n)) => number_at(bytes@) == Ok::<(u64, nat), (Seq<char>, nat, nat)>(
                (x, n as nat),
            ) && 0 < n <= bytes@.len(),
            Err((t, l, c)) => number_at(bytes@) == Err::<(u64, nat), (Seq<char>, nat, nat)>(
                (t@, l as nat, c as nat),
            ) && l <= bytes@.len() + 1 && c <= bytes@.len(),
        },
        forall|x: u64, rest: Seq<u8>|
            ends_number(rest) && bytes@ == #[trigger] (encode_utf8(text::decimal(x as nat)) + rest)
                ==> r is Ok && r->Ok_0.0 == x && r->Ok_0.1 == encode_utf8(
                text::decimal(x as nat),
            ).len(),
{
    let mut de = serde_json::Deserializer::from_slice(bytes);
    let v: std::result::Result<u64, serde_json::Error> = serde::Deserialize::deserialize(&mut de);
    v.map(|x| (x, de.into_iter::<()>().byte_offset())).map_err(
        |e| (e.to_string(), e.line() as u64, e.column() as u64),
    )
}

/// `serde::Deserialize` of an `Option<String>`, from a `serde_json::Deserializer` of the bytes:
/// the string or `null` at their start, and where it ends. Either is read as this library
/// writes it; the rest is as with [`read_text`].
#[verifier::external_body]
fn read_maybe_text(bytes: &[u8]) -> (r: Result<(Option<String>, usize), (String, u64, u64)>)
    ensures
        match r {
            Ok((s, n)) => maybe_text_at(bytes@) == Ok::<
                (Option<Seq<char>>, nat),
                (Seq<char>, nat, nat),
            >(
                (
                    match s {
                        Some(t) => Some(t@),
                        None => None,
                    },
                    n as nat,
                ),
            ) && 0 < n <= bytes@.len(),
            Err((t, l, c)) => maybe_text_at(bytes@) == Err::<
                (Option<Seq<char>>, nat),
                (Seq<char>, nat, nat),
            >((t@, l as nat, c as nat)) && l <= bytes@.len() + 1 && c <= bytes@.len(),
        },
        forall|x: Seq<char>, rest: Seq<u8>|
            bytes@ == #[trigger] (json::quoted(encode_utf8(x)) + rest) ==> r is Ok && r->Ok_0.0
                is Some && r->Ok_0.0->0@ == x && r->Ok_0.1 == json::quoted(encode_utf8(x)).len(),
        forall|rest: Seq<u8>|
            bytes@ == #[trigger] ("null".spec_bytes() + rest) ==> r is Ok && r->Ok_0.0 is None
                && r->Ok_0.1 == "null".spec_bytes().len(),
{
    let mut de = serde_json::Deserializer::from_slice(bytes);
    let v: std::result::Result<Option<String>, serde_json::Error> = serde::Deserialize::deserialize(&mut de);
    v.map(|s| (s, de.into_iter::<()>().byte_offset())).map_err(
        |e| (e.to_string(), e.line() as u64, e.column() as u64),
    )
}

/// `serde::Deserialize` of an `Option<u16>`, from a `serde_json::Deserializer` of the bytes: the
/// number or `null` at their start, and where it ends. Either is read as this library writes
/// it; the rest is as with [`read_text`].
#[verifier::external_body]
fn read_maybe_port(bytes: &[u8]) -> (r: Result<(Option<u16>, usize), (String, u64, u64)>)
    ensures
        match r {
            Ok((x, n)) => maybe_port_at(bytes@) == Ok::<(Option<u16>, nat), (Seq<char>, nat, nat)>(
                (x, n as nat),
            ) && 0 < n <= bytes@.len(),
            Err((t, l, c)) => maybe_port_at(bytes@) == Err::<
                (Option<u16>, nat),
                (Seq<char>, nat, nat),
            >((t@, l as nat, c as nat)) && l <= bytes@.len() + 1 && c <= bytes@.len(),
        },
        forall|x: u16, rest: Seq<u8>|
            ends_number(rest) && bytes@ == #[trigger] (encode_utf8(text::decimal(x as nat)) + rest)
                ==> r is Ok && r->Ok_0.0 == Some(x) && r->Ok_0.1 == encode_utf8(
                text::decimal(x as nat),
            ).len(),
        forall|rest: Seq<u8>|
            bytes@ == #[trigger] ("null".spec_bytes() + rest) ==> r is Ok && r->Ok_0.0 is None
                && r->Ok_0.1 == "null".spec_bytes().len(),
{
    let mut de = serde_json::Deserializer::from_slice(bytes);
    let v: std::result::Result<Option<u16>, serde_json::Error> = serde::Deserialize::deserialize(&mut de);
    v.map(|x| (x, de.into_iter::<()>().byte_offset())).map_err(
        |e| (e.to_string(), e.line() as u64, e.column() as u64),
    )
}

/// `serde::Deserialize` of a `serde::de::IgnoredAny`, from a `serde_json::Deserializer` of the
/// bytes: where the value at their start ends, whatever it is; the rest is as with
/// [`read_text`].
#[verifier::external_body]
fn pass_over(bytes: &[u8]) -> (r: Result<usize, (String, u64, u64)>)
    ensures
        match r {
            Ok(n) => any_at(bytes@) == Ok::<nat, (Seq<char>, nat, nat)>(n as nat) && 0 < n
                <= bytes@.len(),
            Err((t, l, c)) => any_at(bytes@) == Err::<nat, (Seq<char>, nat, nat)>(
                (t@, l as nat, c as nat),
            ) && l <= bytes@.len() + 1 && c <= bytes@.len(),
        },
{
    let mut de = serde_json::Deserializer::from_slice(bytes);
    let v: std::result::Result<serde::de::IgnoredAny, serde_json::Error> = serde::Deserialize::deserialize(&mut de);
    v.map(|_| de.into_iter::<()>().byte_offset()).map_err(
        |e| (e.to_string(), e.line() as u64, e.column() as u64),
    )
}

/// `serde::Deserialize` of a map, from a `serde_json::Deserializer` of the bytes: what is wrong
/// with bytes that hold none.
#[verifier::external_body]
fn refuse(bytes: &[u8]) -> (r: Option<(String, u64, u64)>)
    ensures
        match r {
            Some((t, l, c)) => map_fault(bytes@) == Some((t@, l as nat, c as nat)),
            None => map_fault(bytes@) is None,
        },
{
    let mut de = serde_json::Deserializer::from_slice(bytes);
    let v: std::result::Result<std::collections::HashMap<String, serde::de::IgnoredAny>, serde_json::Error> = serde::Deserialize::deserialize(&mut de);
    v.err().map(|e| (e.to_string(), e.line() as u64, e.column() as u64))
}

/// The value of the kind at the start of the bytes.
pub open spec fn value_at(kind: Kind, b: Seq<u8>) -> Result<(Found, nat), (Seq<char>, nat, nat)> {
    match kind {
        Kind::Text => match text_at(b) {
            Ok((s, n)) => Ok((Found::Text(s), n)),
            Err(f) => Err(f),
        },
        Kind::Number => match number_at(b) {
            Ok((x, n)) => Ok((Found::Number(x), n)),
            Err(f) => Err(f),
        },
        Kind::MaybeText => match maybe_text_at(b) {
            Ok((s, n)) => Ok((Found::MaybeText(s), n)),
            Err(f) => Err(f),
        },
        Kind::MaybePort => match maybe_port_at(b) {
            Ok((p, n)) => Ok((Found::MaybePort(p), n)),
            Err(f) => Err(f),
        },
    }
}

/// The view of what is wrong.
pub open spec fn fault_view(f: (String, u64, u64)) -> (Seq<char>, nat, nat) {
    (f.0@, f.1 as nat, f.2 as nat)
}

/// Reads a value of the kind.
fn read_value(kind: Kind, bytes: &[u8]) -> (r: Result<(Value, usize), (String, u64, u64)>)
    ensures
        match r {
            Ok((x, n)) => value_at(kind, bytes@) == Ok::<(Found, nat), (Seq<char>, nat, nat)>(
                (x@, n as nat),
            ) && 0 < n <= bytes@.len() && fits(x@, kind) && (x@ matches Found::Text(s) ==> s.len()
                <= n),
            Err(f) => value_at(kind, bytes@) == Err::<(Found, nat), (Seq<char>, nat, nat)>(
                fault_view(f),
            ) && f.1 <= bytes@.len() + 1 && f.2 <= bytes@.len(),
        },
        reads_back(kind, bytes@),
{
    proof {
        reveal(reads_back);
    }
    match kind {
        Kind::Text => match read_text(bytes) {
            Ok((s, n)) => Ok((Value::Text(s), n)),
            Err(f) => Err(f),
        },
        Kind::Number => match read_number(bytes) {
            Ok((x, n)) => Ok((Value::Number(x), n)),
            Err(f) => Err(f),
        },
        Kind::MaybeText => match read_maybe_text(bytes) {
            Ok((s, n)) => Ok((Value::MaybeText(s), n)),
            Err(f) => Err(f),
        },
        Kind::MaybePort => match read_maybe_port(bytes) {
            Ok((p, n)) => Ok((Value::MaybePort(p), n)),
            Err(f) => Err(f),
        },
    }
}

/// A byte that may stand between the parts of a value.
pub open spec fn is_blank(c: u8) -> bool {
    c == 32 || c == 9 || c == 10 || c == 13
}

/// Where the first byte from `i` on is that is not blank.
pub open spec fn past_blanks(b: Seq<u8>, i: int) -> int
    decreases b.len() - i,
{
    if 0 <= i < b.len() && is_blank(b[i]) {
        past_blanks(b, i + 1)
    } else {
        i
    }
}

fn skip_blanks(b: &[u8], i: usize) -> (r: usize)
    requires
        i <= b@.len(),
    ensures
        r == past_blanks(b@, i as int),
        i <= r <= b@.len(),
{
    let mut j: usize = i;
    while j < b.len() && (b[j] == 32 || b[j] == 9 || b[j] == 10 || b[j] == 13)
        invariant
            i <= j <= b@.len(),
            past_blanks(b@, j as int) == past_blanks(b@, i as int),
        decreases b@.len() - j,
    {
        j += 1;
    }
    j
}

/// The number of line feeds among the first `i` bytes.
pub open spec fn line_feeds(b: Seq<u8>, i: int) -> nat
    decreases i,
{
    if i <= 0 {
        0
    } else {
        line_feeds(b, i - 1) + if b[i - 1] == 10 {
            1nat
        } else {
            0nat
        }
    }
}

/// Where the line begins that the first `i` bytes end with.
pub open spec fn line_start(b: Seq<u8>, i: int) -> int
    decreases i,
{
    if i <= 0 {
        0
    } else if b[i - 1] == 10 {
        i
    } else {
        line_start(b, i - 1)
    }
}

/// How a line and a column are written.
pub open spec fn place_text(line: nat, column: nat) -> Seq<char> {
    " at line "@ + text::decimal(line) + " column "@ + text::decimal(column)
}

/// `what`, and the line and column behind the first `i` bytes.
pub open spec fn told_at(b: Seq<u8>, i: int, what: Seq<char>) -> Seq<char> {
    what + place_text(1 + line_feeds(b, i), (i - line_start(b, i)) as nat)
}

/// `what`, and the line and column of the `i`-th byte.
pub open spec fn told_of(b: Seq<u8>, i: int, what: Seq<char>) -> Seq<char> {
    told_at(
        b,
        if i < b.len() {
            i + 1
        } else {
            b.len() as int
        },
        what,
    )
}

/// What is wrong, without its place.
pub open spec fn bare(f: (Seq<char>, nat, nat)) -> Seq<char> {
    let n = f.0.len() - place_text(f.1, f.2).len();
    f.0.take(
        if n > 0 {
            n
        } else {
            0
        },
    )
}

/// What is wrong with the bytes from `at` on, with its place among all bytes.
pub open spec fn told_further(f: (Seq<char>, nat, nat), b: Seq<u8>, at: int) -> Seq<char> {
    let line = 1 + line_feeds(b, at);
    let column = (at - line_start(b, at)) as nat;
    bare(f) + if f.1 <= 1 {
        place_text(line, column + f.2)
    } else {
        place_text((line + f.1 - 1) as nat, f.2)
    }
}

/// The most bytes that are read.
pub open spec fn read_limit() -> nat {
    0x3fff_ffff_ffff_ffff
}

fn append_place(out: &mut String, line: u64, column: u64)
    ensures
        final(out)@ == old(out)@ + place_text(line as nat, column as nat),
{
    out.append(" at line ");
    append_decimal(out, line);
    out.append(" column ");
    append_decimal(out, column);
    assert(out@ =~= old(out)@ + place_text(line as nat, column as nat));
}

fn place_of(b: &[u8], i: usize) -> (r: (u64, u64))
    requires
        i <= b@.len() <= read_limit(),
    ensures
        r.0 == 1 + line_feeds(b@, i as int),
        r.1 == i - line_start(b@, i as int),
        r.0 <= i + 1,
        r.1 <= i,
{
    let mut line: u64 = 1;
    let mut start: usize = 0;
    let mut j: usize = 0;
    while j < i
        invariant
            j <= i <= b@.len() <= read_limit(),
            start <= j,
            line <= j + 1,
            line == 1 + line_feeds(b@, j as int),
            start == line_start(b@, j as int),
        decreases i - j,
    {
        if b[j] == 10 {
            line += 1;
            start = j + 1;
        }
        j += 1;
    }
    (line, (i - start) as u64)
}

fn tell_at(b: &[u8], i: usize, what: &str) -> (r: String)
    requires
        i <= b@.len() <= read_limit(),
    ensures
        r@ == told_at(b@, i as int, what@),
{
    let (line, column) = place_of(b, i);
    let mut r: String = what.to_owned();
    append_place(&mut r, line, column);
    r
}

fn tell_of(b: &[u8], i: usize, what: &str) -> (r: String)
    requires
        i <= b@.len() <= read_limit(),
    ensures
        r@ == told_of(b@, i as int, what@),
{
    let at: usize = if i < b.len() {
        i + 1
    } else {
        b.len()
    };
    tell_at(b, at, what)
}

fn strip_place(f: &(String, u64, u64)) -> (r: String)
    ensures
        r@ == bare((f.0@, f.1 as nat, f.2 as nat)),
{
    let v: Vec<char> = chars_of(f.0.as_str());
    let mut place: String = String::new();
    append_place(&mut place, f.1, f.2);
    assert(place@ =~= place_text(f.1 as nat, f.2 as nat));
    let p: Vec<char> = chars_of(place.as_str());
    let n: usize = if v.len() > p.len() {
        v.len() - p.len()
    } else {
        0
    };
    let r: String = string_of(&v, 0, n);
    assert(r@ =~= bare((f.0@, f.1 as nat, f.2 as nat)));
    r
}

fn tell_further(f: &(String, u64, u64), b: &[u8], at: usize) -> (r: String)
    requires
        at <= b@.len() <= read_limit(),
        f.1 <= b@.len() + 1,
        f.2 <= b@.len(),
    ensures
        r@ == told_further((f.0@, f.1 as nat, f.2 as nat), b@, at as int),
{
    let (line, column) = place_of(b, at);
    let mut r: String = strip_place(f);
    if f.1 <= 1 {
        append_place(&mut r, line, column + f.2);
    } else {
        append_place(&mut r, line + f.1 - 1, f.2);
    }
    r
}

/// The fields of an object: their names and kinds, in order.
pub open spec fn schema_of(s: Seq<(&str, Kind)>) -> Seq<(Seq<char>, Kind)> {
    s.map_values(|e: (&str, Kind)| (e.0@, e.1))
}

/// Which field from the `i`-th on has the name; the number of fields when none has.
pub open spec fn field_from(schema: Seq<(Seq<char>, Kind)>, name: Seq<char>, i: int) -> int
    decreases schema.len() - i,
{
    if i < 0 || i >= schema.len() {
        schema.len() as int
    } else if schema[i].0 == name {
        i
    } else {
        field_from(schema, name, i + 1)
    }
}

fn find_field(schema: &[(&'static str, Kind)], name: &str) -> (r: usize)
    ensures
        r == field_from(schema_of(schema@), name@, 0),
        r <= schema@.len(),
{
    let mut i: usize = 0;
    let ghost s = schema_of(schema@);
    while i < schema.len()
        invariant
            i <= schema@.len(),
            s == schema_of(schema@),
            field_from(s, name@, i as int) == field_from(s, name@, 0),
        decreases schema@.len() - i,
    {
        if str_eq(schema[i].0, name) {
            return i;
        }
        i += 1;
    }
    i
}

/// What is found between the braces of an object, from `i` on: the values of the fields that
/// were found before and are found there, and where the object ends; else what is wrong.
/// `first` says that nothing of the object was read yet.
pub open spec fn fields_read(
    b: Seq<u8>,
    i: int,
    first: bool,
    schema: Seq<(Seq<char>, Kind)>,
    got: Seq<Option<Found>>,
) -> Result<(Seq<Option<Found>>, int), Seq<char>>
    decreases b.len() - i,
{
    let j = past_blanks(b, i);
    let k = if first {
        j
    } else {
        past_blanks(b, j + 1)
    };
    if j >= b.len() {
        Err(told_of(b, j, "EOF while parsing an object"@))
    } else if b[j] == 125 {
        Ok((got, j + 1))
    } else if !first && b[j] != 44 {
        Err(told_of(b, j, "expected `,` or `}`"@))
    } else if k >= b.len() {
        Err(told_of(b, k, "EOF while parsing a value"@))
    } else if b[k] == 125 {
        Err(told_of(b, k, "trailing comma"@))
    } else if b[k] != 34 {
        Err(told_of(b, k, "key must be a string"@))
    } else {
        match text_at(b.skip(k)) {
            Err(f) => Err(told_further(f, b, k)),
            Ok((name, n)) => {
                let c = past_blanks(b, k + n);
                let f = field_from(schema, name, 0);
                if f < schema.len() && got[f] is Some {
                    Err(
                        told_at(
                            b,
                            if c < b.len() && b[c] == 125 {
                                c + 1
                            } else {
                                c
                            },
                            "duplicate field `"@ + name + "`"@,
                        ),
                    )
                } else if c >= b.len() {
                    Err(told_of(b, c, "EOF while parsing an object"@))
                } else if b[c] != 58 {
                    Err(told_of(b, c, "expected `:`"@))
                } else if f < schema.len() {
                    match value_at(schema[f].1, b.skip(c + 1)) {
                        Err(f) => Err(told_further(f, b, c + 1)),
                        Ok((x, m)) => if i < c + 1 + m <= b.len() {
                            fields_read(b, c + 1 + m, false, schema, got.update(f, Some(x)))
                        } else {
                            Err(Seq::empty())
                        },
                    }
                } else {
                    match any_at(b.skip(c + 1)) {
                        Err(f) => Err(told_further(f, b, c + 1)),
                        Ok(m) => if i < c + 1 + m <= b.len() {
                            fields_read(b, c + 1 + m, false, schema, got)
                        } else {
                            Err(Seq::empty())
                        },
                    }
                }
            },
        }
    }
}

/// Whatever is read on the way through an object is read as it was written.
pub open spec fn fields_faithful(
    b: Seq<u8>,
    i: int,
    first: bool,
    schema: Seq<(Seq<char>, Kind)>,
    got: Seq<Option<Found>>,
) -> bool
    decreases b.len() - i,
{
    let j = past_blanks(b, i);
    let k = if first {
        j
    } else {
        past_blanks(b, j + 1)
    };
    if j >= b.len() || b[j] == 125 || (!first && b[j] != 44) || k >= b.len() || b[k] != 34 {
        true
    } else {
        text_back(b.skip(k)) && match text_at(b.skip(k)) {
            Err(f) => true,
            Ok((name, n)) => {
                let c = past_blanks(b, k + n);
                let f = field_from(schema, name, 0);
                if (f < schema.len() && got[f] is Some) || c >= b.len() || b[c] != 58 {
                    true
                } else if f < schema.len() {
                    reads_back(schema[f].1, b.skip(c + 1)) && match value_at(
                        schema[f].1,
                        b.skip(c + 1),
                    ) {
                        Err(f) => true,
                        Ok((x, m)) => if i < c + 1 + m <= b.len() {
                            fields_faithful(b, c + 1 + m, false, schema, got.update(f, Some(x)))
                        } else {
                            true
                        },
                    }
                } else {
                    match any_at(b.skip(c + 1)) {
                        Err(f) => true,
                        Ok(m) => if i < c + 1 + m <= b.len() {
                            fields_faithful(b, c + 1 + m, false, schema, got)
                        } else {
                            true
                        },
                    }
                }
            },
        }
    }
}

/// The views of values that may be missing.
pub open spec fn founds(v: Seq<Option<Value>>) -> Seq<Option<Found>> {
    v.map_values(
        |x: Option<Value>|
            match x {
                Some(y) => Some(y@),
                None => None,
            },
    )
}

/// Every value is of its field's kind, and no string is longer than `limit`.
pub open spec fn well_kept(
    got: Seq<Option<Found>>,
    schema: Seq<(Seq<char>, Kind)>,
    limit: nat,
) -> bool {
    &&& got.len() == schema.len()
    &&& forall|i: int|
        0 <= i < got.len() ==> (#[trigger] got[i] matches Some(x) ==> fits(x, schema[i].1) && (
        x matches Found::Text(s) ==> s.len() <= limit))
}

/// Nothing was found yet.
pub open spec fn nothing_found(n: nat) -> Seq<Option<Found>> {
    Seq::new(n, |i: int| None)
}

/// Reads what stands between the braces of an object, from `from` on.
fn read_fields(b: &[u8], from: usize, schema: &[(&'static str, Kind)]) -> (r: Result<
    (Vec<Option<Value>>, usize),
    String,
>)
    requires
        from <= b@.len() <= read_limit(),
    ensures
        match r {
            Ok((got, end)) => fields_read(
                b@,
                from as int,
                true,
                schema_of(schema@),
                nothing_found(schema@.len()),
            ) == Ok::<(Seq<Option<Found>>, int), Seq<char>>((founds(got@), end as int)) && end
                <= b@.len() && well_kept(founds(got@), schema_of(schema@), b@.len()),
            Err(t) => fields_read(
                b@,
                from as int,
                true,
                schema_of(schema@),
                nothing_found(schema@.len()),
            ) == Err::<(Seq<Option<Found>>, int), Seq<char>>(t@),
        },
        fields_faithful(
            b@,
            from as int,
            true,
            schema_of(schema@),
            nothing_found(schema@.len()),
        ),
{
    let ghost s = schema_of(schema@);
    let ghost none = nothing_found(schema@.len());
    let mut got: Vec<Option<Value>> = Vec::new();
    while got.len() < schema.len()
        invariant
            got@.len() <= schema@.len(),
            forall|i: int| 0 <= i < got@.len() ==> (#[trigger] got@[i]) is None,
        decreases schema@.len() - got@.len(),
    {
        got.push(None);
    }
    assert(founds(got@) =~= none);
    let mut i: usize = from;
    let mut first: bool = true;
    loop
        invariant
            i <= b@.len() <= read_limit(),
            s == schema_of(schema@),
            none == nothing_found(schema@.len()),
            fields_read(b@, from as int, true, s, none) == fields_read(
                b@,
                i as int,
                first,
                s,
                founds(got@),
            ),
            fields_faithful(b@, i as int, first, s, founds(got@)) ==> fields_faithful(
                b@,
                from as int,
                true,
                s,
                none,
            ),
            well_kept(founds(got@), s, b@.len()),
        decreases b@.len() - i,
    {
        let j: usize = skip_blanks(b, i);
        if j >= b.len() {
            return Err(tell_of(b, j, "EOF while parsing an object"));
        }
        if b[j] == 125 {
            return Ok((got, j + 1));
        }
        if !first && b[j] != 44 {
            return Err(tell_of(b, j, "expected `,` or `}`"));
        }
        let k: usize = if first {
            j
        } else {
            skip_blanks(b, j + 1)
        };
        if k >= b.len() {
            return Err(tell_of(b, k, "EOF while parsing a value"));
        }
        if b[k] == 125 {
            return Err(tell_of(b, k, "trailing comma"));
        }
        if b[k] != 34 {
            return Err(tell_of(b, k, "key must be a string"));
        }
        let key: &[u8] = slice_subrange(b, k, b.len());
        assert(key@ =~= b@.skip(k as int));
        let (name, n): (String, usize) = match read_text(key) {
            Ok(x) => x,
            Err(f) => return Err(tell_further(&f, b, k)),
        };
        let c: usize = skip_blanks(b, k + n);
        let f: usize = find_field(schema, name.as_str());
        if f < schema.len() && got[f].is_some() {
            assert(founds(got@)[f as int] is Some);
            let what: String = join3("duplicate field `", name.as_str(), "`");
            let end: usize = if c < b.len() && b[c] == 125 {
                c + 1
            } else {
                c
            };
            return Err(tell_at(b, end, what.as_str()));
        }
        assert(f < s.len() ==> founds(got@)[f as int] is None);
        if c >= b.len() {
            return Err(tell_of(b, c, "EOF while parsing an object"));
        }
        if b[c] != 58 {
            return Err(tell_of(b, c, "expected `:`"));
        }
        let rest: &[u8] = slice_subrange(b, c + 1, b.len());
        assert(rest@ =~= b@.skip(c + 1));
        if f < schema.len() {
            let (x, m): (Value, usize) = match read_value(schema[f].1, rest) {
                Ok(x) => x,
                Err(e) => return Err(tell_further(&e, b, c + 1)),
            };
            let ghost before = founds(got@);
            let ghost y = x@;
            got.set(f, Some(x));
            assert(founds(got@) =~= before.update(f as int, Some(y)));
            i = c + 1 + m;
        } else {
            let m: usize = match pass_over(rest) {
                Ok(m) => m,
                Err(e) => return Err(tell_further(&e, b, c + 1)),
            };
            i = c + 1 + m;
        }
        first = false;
    }
}

/// What is found between the brackets of an array, from `i` on, behind the values `got`: the
/// fields' values in order, and where the array ends; else what is wrong.
pub open spec fn elements_read(
    b: Seq<u8>,
    i: int,
    name: Seq<char>,
    schema: Seq<(Seq<char>, Kind)>,
    got: Seq<Found>,
) -> Result<(Seq<Found>, int), Seq<char>>
    decreases schema.len() - got.len(),
{
    let j = past_blanks(b, i);
    let k = past_blanks(b, j + 1);
    let at = if got.len() == 0 {
        j
    } else {
        k
    };
    if j >= b.len() {
        Err(told_of(b, j, "EOF while parsing a list"@))
    } else if got.len() >= schema.len() {
        if b[j] == 93 {
            Ok((got, j + 1))
        } else if b[j] == 44 && k < b.len() && b[k] == 93 {
            Err(told_of(b, k, "trailing comma"@))
        } else if b[j] == 44 {
            Err(told_of(b, k, "trailing characters"@))
        } else {
            Err(told_of(b, j, "trailing characters"@))
        }
    } else if b[j] == 93 {
        Err(
            told_at(
                b,
                j + 1,
                "invalid length "@ + text::decimal(got.len()) + ", expected struct "@ + name + " with "@
                    + text::decimal(schema.len()) + " elements"@,
            ),
        )
    } else if got.len() > 0 && b[j] != 44 {
        Err(told_of(b, j, "expected `,` or `]`"@))
    } else if at >= b.len() {
        Err(told_of(b, at, "EOF while parsing a value"@))
    } else if b[at] == 93 {
        Err(told_of(b, at, "trailing comma"@))
    } else {
        match value_at(schema[got.len() as int].1, b.skip(at)) {
            Err(f) => Err(told_further(f, b, at)),
            Ok((x, m)) => elements_read(b, at + m, name, schema, got.push(x)),
        }
    }
}

/// The views of values.
pub open spec fn contents(v: Seq<Value>) -> Seq<Found> {
    v.map_values(|x: Value| x@)
}

/// The first values are of the fields' kinds, and no string is longer than `limit`.
pub open spec fn well_ordered(
    got: Seq<Found>,
    schema: Seq<(Seq<char>, Kind)>,
    limit: nat,
) -> bool {
    &&& got.len() <= schema.len()
    &&& forall|i: int|
        0 <= i < got.len() ==> fits(#[trigger] got[i], schema[i].1) && (got[i] matches Found::Text(s)
            ==> s.len() <= limit)
}

fn wrong_length(n: usize, name: &str, expected: usize) -> (r: String)
    ensures
        r@ == "invalid length "@ + text::decimal(n as nat) + ", expected struct "@ + name@ + " with "@
            + text::decimal(expected as nat) + " elements"@,
{
    let mut r: String = "invalid length ".to_owned();
    append_decimal(&mut r, n as u64);
    r.append(", expected struct ");
    r.append(name);
    r.append(" with ");
    append_decimal(&mut r, expected as u64);
    r.append(" elements");
    r
}

/// Reads what stands between the brackets of an array, from `from` on.
fn read_elements(b: &[u8], from: usize, name: &str, schema: &[(&'static str, Kind)]) -> (r: Result<
    (Vec<Value>, usize),
    String,
>)
    requires
        from <= b@.len() <= read_limit(),
    ensures
        match r {
            Ok((got, end)) => elements_read(
                b@,
                from as int,
                name@,
                schema_of(schema@),
                Seq::empty(),
            ) == Ok::<(Seq<Found>, int), Seq<char>>((contents(got@), end as int)) && end <= b@.len()
                && got@.len() == schema@.len() && well_ordered(
                contents(got@),
                schema_of(schema@),
                b@.len(),
            ),
            Err(t) => elements_read(b@, from as int, name@, schema_of(schema@), Seq::empty())
                == Err::<(Seq<Found>, int), Seq<char>>(t@),
        },
{
    let ghost s = schema_of(schema@);
    let mut got: Vec<Value> = Vec::new();
    let mut i: usize = from;
    assert(contents(got@) =~= Seq::empty());
    loop
        invariant
            i <= b@.len() <= read_limit(),
            s == schema_of(schema@),
            elements_read(b@, from as int, name@, s, Seq::empty()) == elements_read(
                b@,
                i as int,
                name@,
                s,
                contents(got@),
            ),
            well_ordered(contents(got@), s, b@.len()),
        decreases s.len() - got@.len(),
    {
        let j: usize = skip_blanks(b, i);
        if j >= b.len() {
            return Err(tell_of(b, j, "EOF while parsing a list"));
        }
        if got.len() >= schema.len() {
            if b[j] == 93 {
                return Ok((got, j + 1));
            }
            if b[j] == 44 {
                let k: usize = skip_blanks(b, j + 1);
                if k < b.len() && b[k] == 93 {
                    return Err(tell_of(b, k, "trailing comma"));
                }
                return Err(tell_of(b, k, "trailing characters"));
            }
            return Err(tell_of(b, j, "trailing characters"));
        }
        if b[j] == 93 {
            let what: String = wrong_length(got.len(), name, schema.len());
            return Err(tell_at(b, j + 1, what.as_str()));
        }
        if got.len() > 0 && b[j] != 44 {
            return Err(tell_of(b, j, "expected `,` or `]`"));
        }
        let at: usize = if got.len() == 0 {
            j
        } else {
            skip_blanks(b, j + 1)
        };
        if at >= b.len() {
            return Err(tell_of(b, at, "EOF while parsing a value"));
        }
        if b[at] == 93 {
            return Err(tell_of(b, at, "trailing comma"));
        }
        let rest: &[u8] = slice_subrange(b, at, b.len());
        assert(rest@ =~= b@.skip(at as int));
        let (x, m): (Value, usize) = match read_value(schema[got.len()].1, rest) {
            Ok(x) => x,
            Err(e) => return Err(tell_further(&e, b, at)),
        };
        let ghost before = contents(got@);
        let ghost y = x@;
        got.push(x);
        assert(contents(got@) =~= before.push(y));
        i = at + m;
    }
}

/// The value of a field that an object lacks; nothing for one that it has to hold.
pub open spec fn absent(kind: Kind) -> Option<Found> {
    match kind {
        Kind::MaybeText => Some(Found::MaybeText(None)),
        Kind::MaybePort => Some(Found::MaybePort(None)),
        _ => None,
    }
}

/// The first field from the `i`-th on that is missing and has to be there; the number of
/// fields when there is none.
pub open spec fn missing_from(
    schema: Seq<(Seq<char>, Kind)>,
    got: Seq<Option<Found>>,
    i: int,
) -> int
    decreases schema.len() - i,
{
    if i < 0 || i >= schema.len() {
        schema.len() as int
    } else if got[i] is None && absent(schema[i].1) is None {
        i
    } else {
        missing_from(schema, got, i + 1)
    }
}

/// The values of all fields, those of missing ones too.
pub open spec fn filled(schema: Seq<(Seq<char>, Kind)>, got: Seq<Option<Found>>) -> Seq<Found> {
    Seq::new(
        schema.len(),
        |i: int|
            match got[i] {
                Some(x) => x,
                None => absent(schema[i].1)->0,
            },
    )
}

/// What is said of bytes that are neither an object nor an array.
pub open spec fn refusal(b: Seq<u8>, name: Seq<char>) -> Seq<char> {
    match map_fault(b) {
        None => Seq::empty(),
        Some(f) => {
            let t = bare(f);
            if text::ends_with(t, "a map"@) {
                t.take(t.len() - 5) + "struct "@ + name + place_text(f.1, f.2)
            } else {
                f.0
            }
        },
    }
}

/// `r`, unless something follows behind `end`.
pub open spec fn nothing_follows(
    b: Seq<u8>,
    end: int,
    r: Seq<Found>,
) -> Result<Seq<Found>, Seq<char>> {
    let j = past_blanks(b, end);
    if j < b.len() {
        Err(told_of(b, j, "trailing characters"@))
    } else {
        Ok(r)
    }
}

/// The values of the fields of the record `name` that the bytes hold; else what is wrong.
pub open spec fn record_read(
    b: Seq<u8>,
    name: Seq<char>,
    schema: Seq<(Seq<char>, Kind)>,
) -> Result<Seq<Found>, Seq<char>> {
    let j = past_blanks(b, 0);
    if j >= b.len() {
        Err(told_of(b, j, "EOF while parsing a value"@))
    } else if b[j] == 123 {
        match fields_read(b, j + 1, true, schema, nothing_found(schema.len())) {
            Err(t) => Err(t),
            Ok((got, end)) => {
                let m = missing_from(schema, got, 0);
                if m < schema.len() {
                    Err(told_at(b, end, "missing field `"@ + schema[m].0 + "`"@))
                } else {
                    nothing_follows(b, end, filled(schema, got))
                }
            },
        }
    } else if b[j] == 91 {
        match elements_read(b, j + 1, name, schema, Seq::empty()) {
            Err(t) => Err(t),
            Ok((got, end)) => nothing_follows(b, end, got),
        }
    } else {
        Err(refusal(b, name))
    }
}

/// Whatever is read of the record is read as it was written.
pub open spec fn record_faithful(b: Seq<u8>, schema: Seq<(Seq<char>, Kind)>) -> bool {
    let j = past_blanks(b, 0);
    j < b.len() && b[j] == 123 ==> fields_faithful(
        b,
        j + 1,
        true,
        schema,
        nothing_found(schema.len()),
    )
}

fn refuse_as(b: &[u8], name: &str) -> (r: String)
    ensures
        r@ == refusal(b@, name@),
{
    let f: (String, u64, u64) = match refuse(b) {
        Some(f) => f,
        None => {
            let r: String = String::new();
            assert(r@ =~= Seq::empty());
            return r;
        },
    };
    let t: String = strip_place(&f);
    let v: Vec<char> = chars_of(t.as_str());
    let n: usize = v.len();
    if n >= 5 {
        let end: String = string_of(&v, n - 5, n);
        proof {
            reveal_strlit("a map");
            assert(v@.subrange(n - 5, n as int) =~= v@.skip(n - 5));
        }
        if str_eq(end.as_str(), "a map") {
            let head: String = string_of(&v, 0, n - 5);
            assert(head@ =~= t@.take(n - 5));
            let mut r: String = join3(head.as_str(), "struct ", name);
            append_place(&mut r, f.1, f.2);
            return r;
        }
    }
    proof {
        reveal_strlit("a map");
    }
    f.0
}

fn nothing_behind(b: &[u8], end: usize) -> (r: Option<String>)
    requires
        end <= b@.len() <= read_limit(),
    ensures
        match r {
            None => past_blanks(b@, end as int) >= b@.len(),
            Some(t) => past_blanks(b@, end as int) < b@.len() && t@ == told_of(
                b@,
                past_blanks(b@, end as int),
                "trailing characters"@,
            ),
        },
{
    let j: usize = skip_blanks(b, end);
    if j < b.len() {
        Some(tell_of(b, j, "trailing characters"))
    } else {
        None
    }
}

/// Puts the values of missing fields in; which field has to be there and is missing, if any.
fn fill(found: Vec<Option<Value>>, schema: &[(&'static str, Kind)], Ghost(limit): Ghost<nat>) -> (r:
    Result<Vec<Value>, usize>)
    requires
        well_kept(founds(found@), schema_of(schema@), limit),
    ensures
        match r {
            Ok(v) => missing_from(schema_of(schema@), founds(found@), 0) == schema@.len() && contents(
                v@,
            ) == filled(schema_of(schema@), founds(found@)) && v@.len() == schema@.len()
                && well_ordered(contents(v@), schema_of(schema@), limit),
            Err(m) => m < schema@.len() && missing_from(schema_of(schema@), founds(found@), 0) == m,
        },
{
    let ghost s = schema_of(schema@);
    let ghost all = founds(found@);
    let mut rest: Vec<Option<Value>> = found;
    let mut out: Vec<Value> = Vec::new();
    while out.len() < schema.len()
        invariant
            s == schema_of(schema@),
            all == founds(found@),
            well_kept(all, s, limit),
            out@.len() + rest@.len() == s.len(),
            founds(rest@) == all.skip(out@.len() as int),
            missing_from(s, all, 0) == missing_from(s, all, out@.len() as int),
            contents(out@) == filled(s, all).take(out@.len() as int),
            well_ordered(contents(out@), s, limit),
        decreases s.len() - out@.len(),
    {
        let i: usize = out.len();
        let ghost r0 = rest@;
        let x: Option<Value> = rest.remove(0);
        assert(founds(r0)[0] == all[i as int]);
        assert(s[i as int].1 == schema@[i as int].1);
        assert(x is None ==> all[i as int] is None);
        assert(founds(rest@) =~= founds(r0).skip(1));
        assert(all.skip(i as int).skip(1) =~= all.skip(i + 1));
        let v: Value = match x {
            Some(v) => v,
            None => match schema[i].1 {
                Kind::MaybeText => Value::MaybeText(None),
                Kind::MaybePort => Value::MaybePort(None),
                _ => return Err(i),
            },
        };
        let ghost before = contents(out@);
        let ghost y = v@;
        assert(y == filled(s, all)[i as int]);
        out.push(v);
        assert(contents(out@) =~= before.push(y));
        assert(contents(out@) =~= filled(s, all).take(i + 1));
    }
    assert(filled(s, all).take(out@.len() as int) =~= filled(s, all));
    Ok(out)
}

/// Reads a record with the fields of the schema.
pub fn read_record(b: &[u8], name: &str, schema: &[(&'static str, Kind)]) -> (r: Result<
    Vec<Value>,
    String,
>)
    requires
        b@.len() <= read_limit(),
    ensures
        match r {
            Ok(v) => record_read(b@, name@, schema_of(schema@)) == Ok::<Seq<Found>, Seq<char>>(
                contents(v@),
            ) && v@.len() == schema@.len() && well_ordered(
                contents(v@),
                schema_of(schema@),
                b@.len(),
            ),
            Err(t) => record_read(b@, name@, schema_of(schema@)) == Err::<Seq<Found>, Seq<char>>(t@),
        },
        record_faithful(b@, schema_of(schema@)),
{
    let ghost s = schema_of(schema@);
    let j: usize = skip_blanks(b, 0);
    if j >= b.len() {
        return Err(tell_of(b, j, "EOF while parsing a value"));
    }
    if b[j] == 123 {
        let (got, end): (Vec<Option<Value>>, usize) = match read_fields(b, j + 1, schema) {
            Ok(x) => x,
            Err(t) => return Err(t),
        };
        return match fill(got, schema, Ghost(b@.len())) {
            Err(m) => {
                assert(s[m as int].0 == schema@[m as int].0@);
                let what: String = join3("missing field `", schema[m].0, "`");
                Err(tell_at(b, end, what.as_str()))
            },
            Ok(v) => match nothing_behind(b, end) {
                Some(t) => Err(t),
                None => Ok(v),
            },
        };
    }
    if b[j] == 91 {
        let (v, end): (Vec<Value>, usize) = match read_elements(b, j + 1, name, schema) {
            Ok(x) => x,
            Err(t) => return Err(t),
        };
        return match nothing_behind(b, end) {
            Some(t) => Err(t),
            None => Ok(v),
        };
    }
    Err(refuse_as(b, name))
}

/// A string that is written is read, and so is a number in an object.
pub proof fn lemma_plain_values(x: Seq<char>, n: u64, rest: Seq<u8>)
    ensures
        reads_back(Kind::Text, json::quoted(encode_utf8(x)) + rest) ==> value_at(
            Kind::Text,
            json::quoted(encode_utf8(x)) + rest,
        ) == Ok::<(Found, nat), (Seq<char>, nat, nat)>(
            (Found::Text(x), json::quoted(encode_utf8(x)).len()),
        ),
        ends_number(rest) && reads_back(Kind::Number, encode_utf8(text::decimal(n as nat)) + rest)
            ==> value_at(Kind::Number, encode_utf8(text::decimal(n as nat)) + rest) == Ok::<
            (Found, nat),
            (Seq<char>, nat, nat),
        >((Found::Number(n), encode_utf8(text::decimal(n as nat)).len())),
{
    reveal(reads_back);
}

/// A field that is written where the reader stands is read, and the reader stands behind it.
pub proof fn lemma_field_read(
    b: Seq<u8>,
    i: int,
    first: bool,
    schema: Seq<(Seq<char>, Kind)>,
    got: Seq<Option<Found>>,
    name: Seq<char>,
    f: int,
    value: Seq<u8>,
    rest: Seq<u8>,
    x: Found,
)
    requires
        0 <= i <= b.len(),
        got.len() == schema.len(),
        0 <= f < schema.len(),
        field_from(schema, name, 0) == f,
        got[f] is None,
        value.len() > 0,
        b.skip(i) == (if first {
            Seq::<u8>::empty()
        } else {
            seq![44u8]
        }) + json::quoted(encode_utf8(name)) + seq![58u8] + value + rest,
        reads_back(schema[f].1, value + rest) ==> value_at(schema[f].1, value + rest) == Ok::<
            (Found, nat),
            (Seq<char>, nat, nat),
        >((x, value.len())),
        fields_faithful(b, i, first, schema, got),
    ensures
        ({
            let next = i + (if first {
                0int
            } else {
                1int
            }) + json::quoted(encode_utf8(name)).len() + 1 + value.len();
            &&& next <= b.len()
            &&& b.skip(next) == rest
            &&& fields_read(b, i, first, schema, got) == fields_read(
                b,
                next,
                false,
                schema,
                got.update(f, Some(x)),
            )
            &&& fields_faithful(b, next, false, schema, got.update(f, Some(x)))
        }),
{
    let q = json::quoted(encode_utf8(name));
    let k = if first {
        i
    } else {
        i + 1
    };
    let t = b.skip(i);
    assert(t.len() > 0);
    assert(b[i] == t[0]);
    assert(q[0] == 34);
    assert(past_blanks(b, i) == i);
    assert(b[k] == t[k - i]);
    assert(b[k] == 34);
    assert(past_blanks(b, k) == k);
    assert(b.skip(k) =~= t.skip(k - i));
    assert(t.skip(k - i) =~= q + (seq![58u8] + value + rest));
    assert(text_at(b.skip(k)) == Ok::<(Seq<char>, nat), (Seq<char>, nat, nat)>((name, q.len())));
    let c = k + q.len();
    assert(b[c] == t[c - i]);
    assert(b[c] == 58);
    assert(past_blanks(b, c) == c);
    assert(b.skip(c + 1) =~= t.skip(c + 1 - i));
    assert(t.skip(c + 1 - i) =~= value + rest);
    let next = c + 1 + value.len();
    assert(b.skip(next) =~= t.skip(next - i));
    assert(t.skip(next - i) =~= rest);
}

proof fn lemma_past_blanks(b: Seq<u8>, i: int)
    requires
        0 <= i <= b.len(),
    ensures
        i <= past_blanks(b, i) <= b.len(),
        forall|k: int| i <= k < past_blanks(b, i) ==> is_blank(#[trigger] b[k]),
        past_blanks(b, i) < b.len() ==> !is_blank(b[past_blanks(b, i)]),
    decreases b.len() - i,
{
    if i < b.len() && is_blank(b[i]) {
        lemma_past_blanks(b, i + 1);
    }
}

/// A record is an object or a list: nothing else is read as one, and blank bytes before it
/// do not matter. What is read has a value for every field, of the kind that the field is.
pub proof fn law_records_are_objects_or_lists(
    b: &[u8],
    name: &str,
    schema: &[(&'static str, Kind)],
    r: Result<Vec<Value>, String>,
)
    requires
        b@.len() <= read_limit(),
        call_ensures(read_record, (b, name, schema), r),
    ensures
        r is Ok ==> exists|j: int|
            0 <= j < b@.len() && (#[trigger] b@[j] == 123 || b@[j] == 91) && forall|k: int|
                0 <= k < j ==> is_blank(#[trigger] b@[k]),
        r is Ok ==> r->Ok_0@.len() == schema@.len(),
        r is Ok ==> forall|i: int|
            0 <= i < schema@.len() ==> match schema@[i].1 {
                Kind::Text => (#[trigger] r->Ok_0@[i]) is Text,
                Kind::Number => r->Ok_0@[i] is Number,
                Kind::MaybeText => r->Ok_0@[i] is MaybeText,
                Kind::MaybePort => r->Ok_0@[i] is MaybePort,
            },
{
    lemma_past_blanks(b@, 0);
    let j = past_blanks(b@, 0);
    if r is Ok {
        assert(j < b@.len() && (b@[j] == 123 || b@[j] == 91));
        let v = r->Ok_0@;
        assert forall|i: int| 0 <= i < schema@.len() implies match schema@[i].1 {
            Kind::Text => (#[trigger] v[i]) is Text,
            Kind::Number => v[i] is Number,
            Kind::MaybeText => v[i] is MaybeText,
            Kind::MaybePort => v[i] is MaybePort,
        } by {
            assert(contents(v)[i] == v[i]@);
            assert(fits(contents(v)[i], schema_of(schema@)[i].1));
        }
    }
}

proof fn lemma_blanks_to(b: Seq<u8>, i: int, k: int)
    requires
        0 <= i <= k <= b.len(),
        forall|j: int| i <= j < k ==> is_blank(#[trigger] b[j]),
        k < b.len() ==> !is_blank(b[k]),
    ensures
        past_blanks(b, i) == k,
    decreases k - i,
{
    if i < k {
        assert(is_blank(b[i]));
        lemma_blanks_to(b, i + 1, k);
    }
}

/// Every byte is blank.
pub open spec fn all_blank(b: Seq<u8>) -> bool {
    forall|i: int| 0 <= i < b.len() ==> is_blank(#[trigger] b[i])
}

/// A field may be left out.
pub open spec fn may_be_left_out(kind: Kind) -> bool {
    kind is MaybeText || kind is MaybePort
}

proof fn lemma_missing(schema: Seq<(Seq<char>, Kind)>, i: int)
    requires
        0 <= i <= schema.len(),
    ensures
        missing_from(schema, nothing_found(schema.len()), i) == schema.len() <==> forall|k: int|
            i <= k < schema.len() ==> may_be_left_out((#[trigger] schema[k]).1),
    decreases schema.len() - i,
{
    if i < schema.len() {
        lemma_missing(schema, i + 1);
        lemma_missing_bounds(schema, nothing_found(schema.len()), i);
    }
}

proof fn lemma_missing_bounds(schema: Seq<(Seq<char>, Kind)>, got: Seq<Option<Found>>, i: int)
    requires
        0 <= i <= schema.len(),
    ensures
        i <= missing_from(schema, got, i) <= schema.len(),
    decreases schema.len() - i,
{
    if i < schema.len() {
        lemma_missing_bounds(schema, got, i + 1);
    }
}

/// An object without fields, with any blank bytes in it and round it, is a record exactly
/// where every field may be left out; the fields then have nothing in them. Where anything
/// but blank bytes follows the object it is no record.
pub proof fn law_empty_objects(
    before: Seq<u8>,
    inside: Seq<u8>,
    behind: Seq<u8>,
    b: &[u8],
    name: &str,
    schema: &[(&'static str, Kind)],
    r: Result<Vec<Value>, String>,
)
    requires
        b@.len() <= read_limit(),
        all_blank(before),
        all_blank(inside),
        b@ == before + seq![123u8] + inside + seq![125u8] + behind,
        call_ensures(read_record, (b, name, schema), r),
    ensures
        r is Ok <==> all_blank(behind) && forall|k: int|
            0 <= k < schema@.len() ==> may_be_left_out((#[trigger] schema@[k]).1),
        r is Ok ==> forall|k: int|
            0 <= k < schema@.len() ==> match (#[trigger] r->Ok_0@[k]) {
                Value::MaybeText(t) => t is None,
                Value::MaybePort(p) => p is None,
                _ => false,
            },
{
    let s = b@;
    let n = before.len() as int;
    let m = n + 1 + inside.len();
    let sc = schema_of(schema@);
    assert(s[n] == 123);
    assert(s[m] == 125);
    assert forall|j: int| 0 <= j < n implies is_blank(#[trigger] s[j]) by {
        assert(s[j] == before[j]);
    }
    lemma_blanks_to(s, 0, n);
    assert forall|j: int| n + 1 <= j < m implies is_blank(#[trigger] s[j]) by {
        assert(s[j] == inside[j - n - 1]);
    }
    lemma_blanks_to(s, n + 1, m);
    lemma_missing(sc, 0);
    lemma_missing_bounds(sc, nothing_found(sc.len()), 0);
    assert forall|k: int| 0 <= k < sc.len() implies sc[k].1 == (#[trigger] schema@[k]).1 by {
    }
    assert((forall|k: int| 0 <= k < sc.len() ==> may_be_left_out((#[trigger] sc[k]).1)) <==> (forall|k: int|
        0 <= k < schema@.len() ==> may_be_left_out((#[trigger] schema@[k]).1))) by {
        if forall|k: int| 0 <= k < sc.len() ==> may_be_left_out((#[trigger] sc[k]).1) {
            assert forall|k: int| 0 <= k < schema@.len() implies may_be_left_out((#[trigger] schema@[k]).1) by {
                assert(may_be_left_out(sc[k].1));
            }
        }
        if forall|k: int| 0 <= k < schema@.len() ==> may_be_left_out((#[trigger] schema@[k]).1) {
            assert forall|k: int| 0 <= k < sc.len() implies may_be_left_out((#[trigger] sc[k]).1) by {
                assert(may_be_left_out(schema@[k].1));
            }
        }
    }
    let end = m + 1;
    lemma_past_blanks(s, end);
    let j = past_blanks(s, end);
    if all_blank(behind) {
        assert forall|k: int| end <= k < s.len() implies is_blank(#[trigger] s[k]) by {
            assert(s[k] == behind[k - end]);
        }
        lemma_blanks_to(s, end, s.len() as int);
    } else {
        let x = choose|x: int| 0 <= x < behind.len() && !is_blank(behind[x]);
        assert(s[end + x] == behind[x]);
        assert(j <= end + x);
    }
    if r is Ok {
        let v = r->Ok_0@;
        assert forall|k: int| 0 <= k < schema@.len() implies match (#[trigger] v[k]) {
            Value::MaybeText(t) => t is None,
            Value::MaybePort(p) => p is None,
            _ => false,
        } by {
            assert(contents(v)[k] == v[k]@);
            assert(filled(sc, nothing_found(sc.len()))[k] == absent(sc[k].1)->0);
            assert(may_be_left_out(schema@[k].1));
        }
    }
}

} // verus!
