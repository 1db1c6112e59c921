//! Internet addresses in text.

use crate::text;
use crate::text::{append_decimal, append_hex_number, chars_of, find_char, hex_digit_value, parse_number, split_ranges};
use vstd::prelude::*;

verus! {

/// A decimal octet without leading zeros.
pub open spec fn is_octet(s: Seq<char>) -> bool {
    text::all_digits(s) && (s.len() == 1 || s[0] != '0') && text::digits_value(s) < 256
}

/// `s` is an IPv4 address in dotted form.
pub open spec fn is_ipv4(s: Seq<char>) -> bool {
    let p = text::split_on(s, '.');
    p.len() == 4 && forall|i: int| 0 <= i < 4 ==> is_octet(#[trigger] p[i])
}

/// The octets of an IPv4 address in dotted form.
pub open spec fn ipv4_octets(s: Seq<char>) -> Seq<u8> {
    Seq::new(4, |i: int| text::digits_value(text::split_on(s, '.')[i]) as u8)
}

/// Reads the decimal octet in the characters of `v` from `from` up to `to`.
fn parse_octet(v: &[char], from: usize, to: usize) -> (r: Option<u8>)
    requires
        from <= to <= v@.len(),
    ensures
        r is Some == is_octet(v@.subrange(from as int, to as int)),
        r matches Some(n) ==> n == text::digits_value(v@.subrange(from as int, to as int)),
{
    let ghost s = v@.subrange(from as int, to as int);
    if from < to && v[from] == '+' {
        assert(text::digit_value(s[0]) < 0);
        return None;
    }
    if to - from > 1 && v[from] == '0' {
        return None;
    }
    match parse_number(v, from, to, 255) {
        Some(n) => Some(n as u8),
        None => None,
    }
}

/// Reads the IPv4 address in the characters of `v` from `from` up to `to`.
pub fn parse_ipv4(v: &[char], from: usize, to: usize) -> (r: Option<[u8; 4]>)
    requires
        from <= to <= v@.len(),
    ensures
        r is Some == is_ipv4(v@.subrange(from as int, to as int)),
        r matches Some(o) ==> o@ == ipv4_octets(v@.subrange(from as int, to as int)),
{
    let ghost p = text::split_on(v@.subrange(from as int, to as int), '.');
    let parts: Vec<(usize, usize)> = split_ranges(v, from, to, '.');
    if parts.len() != 4 {
        return None;
    }
    let mut o: [u8; 4] = [0u8; 4];
    let mut i: usize = 0;
    while i < 4
        invariant
            i <= 4,
            parts@.len() == 4,
            p == text::split_on(v@.subrange(from as int, to as int), '.'),
            text::pieces_are(v@, parts@, p),
            forall|j: int| 0 <= j < i ==> is_octet(#[trigger] p[j]) && o@[j] == text::digits_value(p[j]),
        decreases 4 - i,
    {
        assert(parts@[i as int].0 <= parts@[i as int].1);
        match parse_octet(v, parts[i].0, parts[i].1) {
            Some(n) => {
                o[i] = n;
            },
            None => {
                assert(!is_octet(p[i as int]));
                return None;
            },
        }
        i += 1;
    }
    assert(o@ =~= ipv4_octets(v@.subrange(from as int, to as int)));
    Some(o)
}

/// A group of an IPv6 address: one to four hexadecimal digits.
pub open spec fn is_group(s: Seq<char>) -> bool {
    1 <= s.len() <= 4 && forall|i: int| 0 <= i < s.len() ==> text::hex_value(#[trigger] s[i]) >= 0
}

/// The number that hexadecimal digits stand for.
pub open spec fn hex_digits_value(s: Seq<char>) -> int
    decreases s.len(),
{
    if s.len() == 0 {
        0
    } else {
        hex_digits_value(s.drop_last()) * 16 + text::hex_value(s.last())
    }
}

/// Reads the group in the characters of `v` from `from` up to `to`.
fn parse_group(v: &[char], from: usize, to: usize) -> (r: Option<u16>)
    requires
        from <= to <= v@.len(),
    ensures
        r is Some == is_group(v@.subrange(from as int, to as int)),
        r matches Some(n) ==> n == hex_digits_value(v@.subrange(from as int, to as int)),
{
    let ghost s = v@.subrange(from as int, to as int);
    if to - from > 4 || from == to {
        return None;
    }
    let mut n: u32 = 0;
    let mut bound: u32 = 1;
    let mut i: usize = from;
    assert(s.take(0) =~= Seq::empty());
    while i < to
        invariant
            from <= i <= to <= v@.len(),
            to - from <= 4,
            s == v@.subrange(from as int, to as int),
            n == hex_digits_value(s.take(i - from)),
            n < bound,
            bound == if i == from {
                1int
            } else if i == from + 1 {
                16int
            } else if i == from + 2 {
                256int
            } else if i == from + 3 {
                4096int
            } else {
                65536int
            },
            forall|j: int| 0 <= j < i - from ==> text::hex_value(#[trigger] s[j]) >= 0,
        decreases to - i,
    {
        assert(s[i - from] == v@[i as int]);
        match hex_digit_value(v[i]) {
            Some(d) => {
                n = n * 16 + d as u32;
                bound = bound * 16;
            },
            None => {
                assert(text::hex_value(s[i - from]) < 0);
                return None;
            },
        }
        assert(s.take(i - from + 1).drop_last() =~= s.take(i - from));
        i += 1;
    }
    assert(s.take(i - from) =~= s);
    Some(n as u16)
}

/// Groups between colons; with `v4`, the last may be an IPv4 address, which
/// stands for two groups.
pub open spec fn groups_ok(p: Seq<Seq<char>>, v4: bool) -> bool {
    &&& forall|i: int| 0 <= i < p.len() - 1 ==> is_group(#[trigger] p[i])
    &&& is_group(p.last()) || (v4 && is_ipv4(p.last()))
}

/// The values of groups between colons.
pub open spec fn groups_value(p: Seq<Seq<char>>) -> Seq<u16> {
    let head = Seq::new((p.len() - 1) as nat, |i: int| hex_digits_value(p[i]) as u16);
    if is_group(p.last()) {
        head.push(hex_digits_value(p.last()) as u16)
    } else {
        let o = ipv4_octets(p.last());
        head.push((o[0] * 256 + o[1]) as u16).push((o[2] * 256 + o[3]) as u16)
    }
}

/// The groups of a side of `::`, which may be empty.
pub open spec fn side_ok(s: Seq<char>, v4: bool) -> bool {
    s.len() == 0 || groups_ok(text::split_on(s, ':'), v4)
}

/// The values of the groups of a side of `::`.
pub open spec fn side_value(s: Seq<char>) -> Seq<u16> {
    if s.len() == 0 {
        Seq::empty()
    } else {
        groups_value(text::split_on(s, ':'))
    }
}

/// The index of the first `::` in `s`, its length when there is none.
pub open spec fn gap_of(s: Seq<char>) -> int
    decreases s.len(),
{
    if s.len() == 0 {
        0
    } else if s.len() >= 2 && s[0] == ':' && s[1] == ':' {
        0
    } else {
        1 + gap_of(s.skip(1))
    }
}

/// `s` is an IPv6 address: eight groups, or fewer round one `::` that stands for
/// at least one group of zeros. The last two groups may be an IPv4 address.
pub open spec fn is_ipv6(s: Seq<char>) -> bool {
    let g = gap_of(s);
    if g < s.len() {
        let head = s.take(g);
        let tail = s.skip(g + 2);
        side_ok(head, false) && side_ok(tail, true) && side_value(head).len() + side_value(
            tail,
        ).len() <= 7
    } else {
        groups_ok(text::split_on(s, ':'), true) && groups_value(text::split_on(s, ':')).len() == 8
    }
}

/// The eight groups of an IPv6 address.
pub open spec fn ipv6_groups(s: Seq<char>) -> Seq<u16> {
    let g = gap_of(s);
    if g < s.len() {
        let head = side_value(s.take(g));
        let tail = side_value(s.skip(g + 2));
        head + Seq::new((8 - head.len() - tail.len()) as nat, |i: int| 0u16) + tail
    } else {
        groups_value(text::split_on(s, ':'))
    }
}

proof fn lemma_gap_is(s: Seq<char>, i: int)
    requires
        0 <= i <= s.len(),
        i < s.len() ==> i + 1 < s.len() && s[i] == ':' && s[i + 1] == ':',
        forall|j: int| 0 <= j < i && j + 1 < s.len() ==> !(#[trigger] s[j] == ':' && s[j + 1] == ':'),
    ensures
        gap_of(s) == i,
    decreases s.len(),
{
    if s.len() > 0 && i > 0 {
        let t = s.skip(1);
        assert(!(s.len() >= 2 && s[0] == ':' && s[1] == ':'));
        assert forall|j: int| 0 <= j < i - 1 && j + 1 < t.len() implies !(#[trigger] t[j] == ':'
            && t[j + 1] == ':') by {
            assert(s[j + 1] == t[j]);
        }
        lemma_gap_is(t, i - 1);
    }
}

/// Where the first `::` is among the characters of `v` from `from` up to `to`.
fn find_gap(v: &[char], from: usize, to: usize) -> (r: usize)
    requires
        from <= to <= v@.len(),
    ensures
        r == from + gap_of(v@.subrange(from as int, to as int)),
        from <= r <= to,
        r < to ==> r + 2 <= to,
{
    let ghost s = v@.subrange(from as int, to as int);
    let mut i: usize = from;
    while i < to && !(to - i >= 2 && v[i] == ':' && v[i + 1] == ':')
        invariant
            from <= i <= to <= v@.len(),
            s == v@.subrange(from as int, to as int),
            forall|j: int|
                0 <= j < i - from && j + 1 < s.len() ==> !(#[trigger] s[j] == ':' && s[j + 1]
                    == ':'),
        decreases to - i,
    {
        assert(s[i - from] == v@[i as int]);
        assert(i + 1 < to ==> s[i - from + 1] == v@[i + 1]);
        i += 1;
    }
    proof {
        lemma_gap_is(s, i - from);
    }
    i
}

/// Reads groups between colons.
fn parse_groups(v: &[char], from: usize, to: usize, v4: bool) -> (r: Option<Vec<u16>>)
    requires
        from <= to <= v@.len(),
    ensures
        r is Some == groups_ok(text::split_on(v@.subrange(from as int, to as int), ':'), v4),
        r matches Some(g) ==> g@ == groups_value(
            text::split_on(v@.subrange(from as int, to as int), ':'),
        ),
{
    let ghost p = text::split_on(v@.subrange(from as int, to as int), ':');
    let parts: Vec<(usize, usize)> = split_ranges(v, from, to, ':');
    let mut g: Vec<u16> = Vec::new();
    let last: usize = parts.len() - 1;
    let mut i: usize = 0;
    while i < last
        invariant
            i <= last,
            last == parts@.len() - 1,
            p == text::split_on(v@.subrange(from as int, to as int), ':'),
            text::pieces_are(v@, parts@, p),
            g@.len() == i,
            forall|j: int|
                0 <= j < i ==> is_group(#[trigger] p[j]) && g@[j] == hex_digits_value(p[j]),
        decreases last - i,
    {
        assert(parts@[i as int].0 <= parts@[i as int].1);
        match parse_group(v, parts[i].0, parts[i].1) {
            Some(n) => {
                g.push(n);
            },
            None => {
                assert(!is_group(p[i as int]));
                return None;
            },
        }
        i += 1;
    }
    assert(parts@[last as int].0 <= parts@[last as int].1);
    let ghost head = Seq::new((p.len() - 1) as nat, |j: int| hex_digits_value(p[j]) as u16);
    assert(g@ =~= head);
    assert(p.last() == p[last as int]);
    match parse_group(v, parts[last].0, parts[last].1) {
        Some(n) => {
            g.push(n);
            Some(g)
        },
        None => {
            if !v4 {
                return None;
            }
            match parse_ipv4(v, parts[last].0, parts[last].1) {
                Some(o) => {
                    g.push((o[0] as u16) * 256 + o[1] as u16);
                    g.push((o[2] as u16) * 256 + o[3] as u16);
                    Some(g)
                },
                None => None,
            }
        },
    }
}

/// Reads a side of `::`.
fn parse_side(v: &[char], from: usize, to: usize, v4: bool) -> (r: Option<Vec<u16>>)
    requires
        from <= to <= v@.len(),
    ensures
        r is Some == side_ok(v@.subrange(from as int, to as int), v4),
        r matches Some(g) ==> g@ == side_value(v@.subrange(from as int, to as int)),
{
    if from == to {
        let g: Vec<u16> = Vec::new();
        assert(g@ =~= Seq::empty());
        return Some(g);
    }
    parse_groups(v, from, to, v4)
}

/// Reads the IPv6 address in the characters of `v` from `from` up to `to`.
pub fn parse_ipv6(v: &[char], from: usize, to: usize) -> (r: Option<Vec<u16>>)
    requires
        from <= to <= v@.len(),
    ensures
        r is Some == is_ipv6(v@.subrange(from as int, to as int)),
        r matches Some(g) ==> g@.len() == 8 && g@ == ipv6_groups(
            v@.subrange(from as int, to as int),
        ),
{
    let ghost s = v@.subrange(from as int, to as int);
    let gap: usize = find_gap(v, from, to);
    if gap < to {
        assert(v@.subrange(from as int, gap as int) =~= s.take(gap - from));
        assert(v@.subrange(gap + 2, to as int) =~= s.skip(gap - from + 2));
        let head: Vec<u16> = match parse_side(v, from, gap, false) {
            Some(g) => g,
            None => {
                return None;
            },
        };
        let tail: Vec<u16> = match parse_side(v, gap + 2, to, true) {
            Some(g) => g,
            None => {
                return None;
            },
        };
        if head.len() > 7 || tail.len() > 7 - head.len() {
            return None;
        }
        let zeros: usize = 8 - head.len() - tail.len();
        let mut out: Vec<u16> = head;
        let ghost h = out@;
        let mut i: usize = 0;
        while i < zeros
            invariant
                i <= zeros,
                out@ == h + Seq::new(i as nat, |j: int| 0u16),
            decreases zeros - i,
        {
            out.push(0);
            i += 1;
            assert(out@ =~= h + Seq::new(i as nat, |j: int| 0u16));
        }
        let mut k: usize = 0;
        let ghost hz = out@;
        assert(out@ =~= hz + tail@.take(0));
        while k < tail.len()
            invariant
                k <= tail@.len(),
                out@ == hz + tail@.take(k as int),
            decreases tail@.len() - k,
        {
            out.push(tail[k]);
            k += 1;
            assert(out@ =~= hz + tail@.take(k as int));
        }
        assert(tail@.take(k as int) =~= tail@);
        assert(out@ =~= ipv6_groups(s));
        Some(out)
    } else {
        match parse_groups(v, from, to, true) {
            Some(g) => if g.len() == 8 {
                Some(g)
            } else {
                None
            },
            None => None,
        }
    }
}

/// The address of a socket: an internet address and a port.
#[derive(Debug, Clone, Copy, PartialEq, Eq)]
pub enum SocketAddr {
    /// An IPv4 address and a port.
    V4 { octets: [u8; 4], port: u16 },
    /// An IPv6 address with its scope, zero for none, and a port.
    V6 { groups: [u16; 8], scope: u32, port: u16 },
}

/// A number in decimal digits below `limit`; leading zeros are let through.
pub open spec fn is_plain_number(s: Seq<char>, limit: int) -> bool {
    text::all_digits(s) && text::digits_value(s) < limit
}

/// `s` is an IPv4 address, a colon and a port.
pub open spec fn is_v4_socket(s: Seq<char>) -> bool {
    let i = text::index_of(s, ':');
    i < s.len() && is_ipv4(s.take(i)) && is_plain_number(s.skip(i + 1), 65536)
}

/// What stands between the brackets at the start of `s`.
pub open spec fn bracketed(s: Seq<char>) -> Seq<char> {
    s.subrange(1, text::index_of(s, ']'))
}

/// `s` is an IPv6 address in brackets, with an optional scope behind a percent
/// sign, then a colon and a port.
pub open spec fn is_v6_socket(s: Seq<char>) -> bool {
    let i = text::index_of(s, ']');
    let b = bracketed(s);
    let k = text::index_of(b, '%');
    &&& s.len() > 0 && s[0] == '['
    &&& i + 1 < s.len() && s[i + 1] == ':'
    &&& is_ipv6(b.take(k))
    &&& k < b.len() ==> is_plain_number(b.skip(k + 1), 0x1_0000_0000)
    &&& is_plain_number(s.skip(i + 2), 65536)
}

/// The scope in the text between the brackets.
pub open spec fn scope_in(b: Seq<char>) -> int {
    let k = text::index_of(b, '%');
    if k < b.len() {
        text::digits_value(b.skip(k + 1))
    } else {
        0
    }
}

/// `a` is the address that the text `s` stands for.
pub open spec fn is_address_of(a: SocketAddr, s: Seq<char>) -> bool {
    match a {
        SocketAddr::V4 { octets, port } => {
            &&& is_v4_socket(s)
            &&& octets@ == ipv4_octets(s.take(text::index_of(s, ':')))
            &&& port == text::digits_value(s.skip(text::index_of(s, ':') + 1))
        },
        SocketAddr::V6 { groups, scope, port } => {
            let b = bracketed(s);
            &&& is_v6_socket(s)
            &&& groups@ == ipv6_groups(b.take(text::index_of(b, '%')))
            &&& scope == scope_in(b)
            &&& port == text::digits_value(s.skip(text::index_of(s, ']') + 2))
        },
    }
}

/// Reads a plain number of at most `max`.
fn parse_plain(v: &[char], from: usize, to: usize, max: u32) -> (r: Option<u32>)
    requires
        from <= to <= v@.len(),
    ensures
        r is Some == is_plain_number(v@.subrange(from as int, to as int), max + 1),
        r matches Some(n) ==> n == text::digits_value(v@.subrange(from as int, to as int)),
{
    let ghost s = v@.subrange(from as int, to as int);
    if from < to && v[from] == '+' {
        assert(text::digit_value(s[0]) < 0);
        return None;
    }
    parse_number(v, from, to, max)
}

fn parse_v4_socket(v: &[char], from: usize, to: usize) -> (r: Option<SocketAddr>)
    requires
        from <= to <= v@.len(),
    ensures
        r is Some == is_v4_socket(v@.subrange(from as int, to as int)),
        r matches Some(a) ==> a is V4 && is_address_of(a, v@.subrange(from as int, to as int)),
{
    let ghost s = v@.subrange(from as int, to as int);
    let i: usize = find_char(v, from, to, ':');
    if i == to {
        return None;
    }
    assert(s.take(i - from) =~= v@.subrange(from as int, i as int));
    assert(s.skip(i - from + 1) =~= v@.subrange(i + 1, to as int));
    match (parse_ipv4(v, from, i), parse_plain(v, i + 1, to, 65535)) {
        (Some(octets), Some(port)) => Some(SocketAddr::V4 { octets, port: port as u16 }),
        _ => None,
    }
}

fn parse_v6_socket(v: &[char], from: usize, to: usize) -> (r: Option<SocketAddr>)
    requires
        from <= to <= v@.len(),
    ensures
        r is Some == is_v6_socket(v@.subrange(from as int, to as int)),
        r matches Some(a) ==> a is V6 && is_address_of(a, v@.subrange(from as int, to as int)),
{
    let ghost s = v@.subrange(from as int, to as int);
    if from == to || v[from] != '[' {
        return None;
    }
    let i: usize = find_char(v, from, to, ']');
    if to - i < 2 || v[i + 1] != ':' {
        return None;
    }
    proof {
        text::lemma_index_of(s, ']');
    }
    let ghost b = bracketed(s);
    assert(b =~= v@.subrange(from + 1, i as int));
    let k: usize = find_char(v, from + 1, i, '%');
    assert(b.take(k - from - 1) =~= v@.subrange(from + 1, k as int));
    assert(s.skip(i - from + 2) =~= v@.subrange(i + 2, to as int));
    let scope: Option<u32> = if k < i {
        assert(b.skip(k - from) =~= v@.subrange(k + 1, i as int));
        parse_plain(v, k + 1, i, u32::MAX)
    } else {
        Some(0)
    };
    match (parse_ipv6(v, from + 1, k), scope, parse_plain(v, i + 2, to, 65535)) {
        (Some(g), Some(scope), Some(port)) => {
            let groups: [u16; 8] = [g[0], g[1], g[2], g[3], g[4], g[5], g[6], g[7]];
            assert(groups@ =~= g@);
            Some(SocketAddr::V6 { groups, scope, port: port as u16 })
        },
        _ => None,
    }
}

/// Reads the socket address in the characters of `v` from `from` up to `to`.
pub fn parse_socket_addr(v: &[char], from: usize, to: usize) -> (r: Option<SocketAddr>)
    requires
        from <= to <= v@.len(),
    ensures
        ({
            let s = v@.subrange(from as int, to as int);
            &&& r is Some == (is_v4_socket(s) || is_v6_socket(s))
            &&& r matches Some(a) ==> is_address_of(a, s)
        }),
{
    match parse_v4_socket(v, from, to) {
        Some(a) => Some(a),
        None => parse_v6_socket(v, from, to),
    }
}

/// The dotted form of four octets.
pub open spec fn ipv4_text(o: Seq<u8>) -> Seq<char> {
    text::decimal(o[0] as nat).push('.') + text::decimal(o[1] as nat).push('.') + text::decimal(
        o[2] as nat,
    ).push('.') + text::decimal(o[3] as nat)
}

/// The groups `g` in hexadecimal, with colons between them.
pub open spec fn groups_text(g: Seq<u16>) -> Seq<char>
    decreases g.len(),
{
    if g.len() == 0 {
        Seq::empty()
    } else if g.len() == 1 {
        text::hex_number(g[0] as nat)
    } else {
        groups_text(g.drop_last()).push(':') + text::hex_number(g.last() as nat)
    }
}

/// How many zero groups follow each other from the `i`-th on.
pub open spec fn zero_run(g: Seq<u16>, i: int) -> int
    decreases g.len() - i,
{
    if 0 <= i < g.len() && g[i] == 0 {
        1 + zero_run(g, i + 1)
    } else {
        0
    }
}

/// Where the first of the longest runs of zero groups that start below `n` stands,
/// and its length.
pub open spec fn best_run(g: Seq<u16>, n: int) -> (int, int)
    decreases n,
{
    if n <= 0 {
        (0, 0)
    } else {
        let b = best_run(g, n - 1);
        let l = zero_run(g, n - 1);
        if l > b.1 {
            (n - 1, l)
        } else {
            b
        }
    }
}

/// The groups of an IPv4 address that is mapped into IPv6.
pub open spec fn is_mapped(g: Seq<u16>) -> bool {
    (forall|i: int| 0 <= i < 5 ==> #[trigger] g[i] == 0) && g[5] == 0xffff
}

/// The octets of the two last groups.
pub open spec fn mapped_octets(g: Seq<u16>) -> Seq<u8> {
    seq![(g[6] / 256) as u8, (g[6] % 256) as u8, (g[7] / 256) as u8, (g[7] % 256) as u8]
}

/// The text of an IPv6 address: a mapped IPv4 address in dotted form, else the
/// groups with the first of the longest runs of two or more zeros left out.
pub open spec fn ipv6_text(g: Seq<u16>) -> Seq<char> {
    let b = best_run(g, 8);
    if is_mapped(g) {
        "::ffff:"@ + ipv4_text(mapped_octets(g))
    } else if b.1 > 1 {
        groups_text(g.take(b.0)) + "::"@ + groups_text(g.skip(b.0 + b.1))
    } else {
        groups_text(g)
    }
}

/// The text of a socket address.
pub open spec fn socket_text(a: SocketAddr) -> Seq<char> {
    match a {
        SocketAddr::V4 { octets, port } => ipv4_text(octets@).push(':') + text::decimal(port as nat),
        SocketAddr::V6 { groups, scope, port } => {
            let ip = seq!['['] + ipv6_text(groups@);
            let scoped = if scope != 0 {
                ip.push('%') + text::decimal(scope as nat)
            } else {
                ip
            };
            scoped + "]:"@ + text::decimal(port as nat)
        },
    }
}

fn append_ipv4(out: &mut String, o: [u8; 4])
    ensures
        final(out)@ == old(out)@ + ipv4_text(o@),
{
    append_decimal(out, o[0] as u64);
    out.push('.');
    append_decimal(out, o[1] as u64);
    out.push('.');
    append_decimal(out, o[2] as u64);
    out.push('.');
    append_decimal(out, o[3] as u64);
    assert(out@ =~= old(out)@ + ipv4_text(o@));
}

fn append_groups(out: &mut String, g: &[u16; 8], from: usize, to: usize)
    requires
        from <= to <= 8,
    ensures
        final(out)@ == old(out)@ + groups_text(g@.subrange(from as int, to as int)),
{
    let mut i: usize = from;
    assert(out@ =~= old(out)@ + groups_text(g@.subrange(from as int, from as int)));
    while i < to
        invariant
            from <= i <= to <= 8,
            out@ == old(out)@ + groups_text(g@.subrange(from as int, i as int)),
        decreases to - i,
    {
        let ghost o0 = out@;
        if i > from {
            out.push(':');
        }
        append_hex_number(out, g[i] as u64);
        let ghost next = g@.subrange(from as int, i + 1);
        assert(next.drop_last() =~= g@.subrange(from as int, i as int));
        assert(next.last() == g@[i as int]);
        if i == from {
            assert(g@.subrange(from as int, i as int) =~= Seq::empty());
            assert(next[0] == g@[i as int]);
        }
        assert(out@ =~= old(out)@ + groups_text(next));
        i += 1;
    }
}

fn count_zeros(g: &[u16; 8], i: usize) -> (r: usize)
    requires
        i <= 8,
    ensures
        r == zero_run(g@, i as int),
        i + r <= 8,
    decreases 8 - i,
{
    if i < 8 && g[i] == 0 {
        1 + count_zeros(g, i + 1)
    } else {
        0
    }
}

fn longest_zeros(g: &[u16; 8]) -> (r: (usize, usize))
    ensures
        (r.0 as int, r.1 as int) == best_run(g@, 8),
        r.0 + r.1 <= 8,
{
    let mut best: (usize, usize) = (0, 0);
    let mut i: usize = 0;
    while i < 8
        invariant
            i <= 8,
            (best.0 as int, best.1 as int) == best_run(g@, i as int),
            best.0 + best.1 <= 8,
        decreases 8 - i,
    {
        let l: usize = count_zeros(g, i);
        if l > best.1 {
            best = (i, l);
        }
        i += 1;
    }
    best
}

fn append_ipv6(out: &mut String, g: &[u16; 8])
    ensures
        final(out)@ == old(out)@ + ipv6_text(g@),
{
    let ghost o0 = out@;
    if g[0] == 0 && g[1] == 0 && g[2] == 0 && g[3] == 0 && g[4] == 0 && g[5] == 0xffff {
        assert(is_mapped(g@));
        out.append("::ffff:");
        let o: [u8; 4] = [
            (g[6] / 256) as u8,
            (g[6] % 256) as u8,
            (g[7] / 256) as u8,
            (g[7] % 256) as u8,
        ];
        assert(o@ =~= mapped_octets(g@));
        append_ipv4(out, o);
        assert(out@ =~= o0 + ipv6_text(g@));
        return;
    }
    assert(!is_mapped(g@)) by {
        if is_mapped(g@) {
            assert(g@[0] == 0 && g@[1] == 0 && g@[2] == 0 && g@[3] == 0 && g@[4] == 0);
        }
    }
    let (start, len): (usize, usize) = longest_zeros(g);
    if len > 1 {
        append_groups(out, g, 0, start);
        out.append("::");
        append_groups(out, g, start + len, 8);
        assert(g@.subrange(0, start as int) =~= g@.take(start as int));
        assert(g@.subrange(start + len, 8) =~= g@.skip(start + len));
        assert(out@ =~= o0 + ipv6_text(g@));
    } else {
        append_groups(out, g, 0, 8);
        assert(g@.subrange(0, 8) =~= g@);
    }
}

impl SocketAddr {
    /// Reads a socket address.
    pub fn parse(s: &str) -> (r: Option<SocketAddr>)
        ensures
            r is Some == (is_v4_socket(s@) || is_v6_socket(s@)),
            r matches Some(a) ==> is_address_of(a, s@),
    {
        let v: Vec<char> = chars_of(s);
        assert(v@.subrange(0, v@.len() as int) =~= s@);
        parse_socket_addr(&v, 0, v.len())
    }

    /// The text of the address.
    pub fn text(&self) -> (r: String)
        ensures
            r@ == socket_text(*self),
    {
        let mut out: String = String::new();
        match self {
            SocketAddr::V4 { octets, port } => {
                append_ipv4(&mut out, *octets);
                out.push(':');
                append_decimal(&mut out, *port as u64);
            },
            SocketAddr::V6 { groups, scope, port } => {
                out.push('[');
                append_ipv6(&mut out, groups);
                if *scope != 0 {
                    out.push('%');
                    append_decimal(&mut out, *scope as u64);
                }
                out.append("]:");
                append_decimal(&mut out, *port as u64);
            },
        }
        assert(out@ =~= socket_text(*self));
        out
    }
}

proof fn lemma_leading_digit(n: nat)
    ensures
        text::decimal(n).len() >= 1,
        n > 0 ==> text::decimal(n)[0] != '0',
        n < 10 ==> text::decimal(n).len() == 1,
    decreases n,
{
    if n >= 10 {
        lemma_leading_digit(n / 10);
        assert(text::decimal(n)[0] == text::decimal(n / 10)[0]);
    }
}

proof fn lemma_octet_text(n: u8)
    ensures
        is_octet(text::decimal(n as nat)),
        text::digits_value(text::decimal(n as nat)) == n,
        forall|i: int| 0 <= i < text::decimal(n as nat).len() ==> '0' <= #[trigger] text::decimal(n as nat)[i] <= '9',
        text::decimal(n as nat).len() >= 1,
{
    text::lemma_decimal_value(n as nat);
    lemma_leading_digit(n as nat);
}

/// The parts before and behind a separator that is not in the first.
proof fn lemma_split_front(a: Seq<char>, rest: Seq<char>, c: char)
    requires
        forall|i: int| 0 <= i < a.len() ==> a[i] != c,
    ensures
        text::split_on(a.push(c) + rest, c) == seq![a] + text::split_on(rest, c),
        text::split_on(a, c) == seq![a],
        text::index_of(a.push(c) + rest, c) == a.len(),
{
    let s = a.push(c) + rest;
    let n = a.len() as int;
    text::lemma_index_of(s, c);
    text::lemma_index_of(a, c);
    assert(s[n] == c);
    assert forall|j: int| 0 <= j < n implies s[j] != c by {
        assert(s[j] == a[j]);
    }
    assert(text::index_of(s, c) == n);
    assert(s.take(n) =~= a);
    assert(s.skip(n + 1) =~= rest);
    assert(text::split_on(a, c) =~= seq![a]);
}

/// The parts of a text are those before its last separator, and what is behind it.
proof fn lemma_split_back(a: Seq<char>, b: Seq<char>, c: char)
    requires
        forall|i: int| 0 <= i < b.len() ==> b[i] != c,
    ensures
        text::split_on(a.push(c) + b, c) == text::split_on(a, c).push(b),
    decreases a.len(),
{
    text::lemma_index_of(a, c);
    let i = text::index_of(a, c);
    if i < a.len() {
        let head = a.take(i);
        let tail = a.skip(i + 1);
        lemma_split_back(tail, b, c);
        assert(a.push(c) + b =~= head.push(c) + (tail.push(c) + b));
        lemma_split_front(head, tail.push(c) + b, c);
        assert(a =~= head.push(c) + tail);
        lemma_split_front(head, tail, c);
        assert(seq![head] + text::split_on(tail, c).push(b) =~= (seq![head] + text::split_on(tail, c)).push(b));
    } else {
        lemma_split_front(a, b, c);
        lemma_split_front(b, Seq::empty(), c);
        assert(seq![a] + seq![b] =~= seq![a].push(b));
    }
}

proof fn lemma_ipv4_text(o: Seq<u8>)
    requires
        o.len() == 4,
    ensures
        is_ipv4(ipv4_text(o)),
        ipv4_octets(ipv4_text(o)) == o,
        ipv4_text(o).len() > 0,
        ipv4_text(o).contains('.'),
        forall|i: int|
            0 <= i < ipv4_text(o).len() ==> '0' <= #[trigger] ipv4_text(o)[i] <= '9' || ipv4_text(o)[i] == '.',
        '0' <= ipv4_text(o)[0] <= '9',
{
    let d0 = text::decimal(o[0] as nat);
    let d1 = text::decimal(o[1] as nat);
    let d2 = text::decimal(o[2] as nat);
    let d3 = text::decimal(o[3] as nat);
    lemma_octet_text(o[0]);
    lemma_octet_text(o[1]);
    lemma_octet_text(o[2]);
    lemma_octet_text(o[3]);
    let s = ipv4_text(o);
    let r2 = d2.push('.') + d3;
    let r1 = d1.push('.') + r2;
    assert(s =~= d0.push('.') + r1);
    lemma_split_front(d0, r1, '.');
    lemma_split_front(d1, r2, '.');
    lemma_split_front(d2, d3, '.');
    lemma_split_front(d3, Seq::empty(), '.');
    let p = text::split_on(s, '.');
    assert(p =~= seq![d0, d1, d2, d3]);
    assert(ipv4_octets(s) =~= o);
    assert(s[d0.len() as int] == '.');
}

/// The text of an IPv4 address with a port reads back as that address.
proof fn lemma_v4_reads_back(octets: [u8; 4], port: u16)
    ensures
        ({
            let a = SocketAddr::V4 { octets, port };
            let s = socket_text(a);
            &&& is_v4_socket(s)
            &&& !is_v6_socket(s)
            &&& octets@ == ipv4_octets(s.take(text::index_of(s, ':')))
            &&& port == text::digits_value(s.skip(text::index_of(s, ':') + 1))
        }),
{
    let ip = ipv4_text(octets@);
    let d = text::decimal(port as nat);
    let s = ip.push(':') + d;
    lemma_ipv4_text(octets@);
    text::lemma_decimal_value(port as nat);
    lemma_split_front(ip, d, ':');
    assert(s.take(ip.len() as int) =~= ip);
    assert(s.skip(ip.len() as int + 1) =~= d);
    assert(s[0] == ip[0]);
}

proof fn lemma_hex_number(n: nat)
    requires
        n < 0x1_0000,
    ensures
        is_group(text::hex_number(n)),
        hex_digits_value(text::hex_number(n)) == n,
        forall|i: int|
            0 <= i < text::hex_number(n).len() ==> {
                let c = #[trigger] text::hex_number(n)[i];
                '0' <= c <= '9' || 'a' <= c <= 'f'
            },
    decreases n,
{
    reveal_with_fuel(text::hex_number, 5);
    let h = text::hex_number(n);
    if n < 16 {
        assert(h =~= seq![text::hex_digit(n)]);
        assert(h.drop_last() =~= Seq::empty());
        assert(hex_digits_value(h.drop_last()) == 0);
        assert(h.last() == text::hex_digit(n));
    } else {
        lemma_hex_number(n / 16);
        assert(h.drop_last() =~= text::hex_number(n / 16));
        assert(h.last() == text::hex_digit(n % 16));
        assert(h.len() <= 4);
        assert forall|i: int| 0 <= i < h.len() implies {
            let c = #[trigger] h[i];
            '0' <= c <= '9' || 'a' <= c <= 'f'
        } by {
            if i < h.len() - 1 {
                assert(h[i] == text::hex_number(n / 16)[i]);
            }
        }
    }
}

/// Groups in text: hexadecimal digits between single colons.
proof fn lemma_groups_text(g: Seq<u16>)
    requires
        g.len() > 0,
    ensures
        ({
            let t = groups_text(g);
            &&& t.len() > 0
            &&& t[0] != ':' && t.last() != ':'
            &&& forall|i: int|
                0 <= i < t.len() ==> '0' <= #[trigger] t[i] <= '9' || 'a' <= t[i] <= 'f' || t[i] == ':'
            &&& forall|i: int| 0 <= i < t.len() - 1 ==> !(#[trigger] t[i] == ':' && t[i + 1] == ':')
            &&& text::split_on(t, ':') == Seq::new(g.len(), |i: int| text::hex_number(g[i] as nat))
        }),
    decreases g.len(),
{
    let t = groups_text(g);
    let h = text::hex_number(g.last() as nat);
    lemma_hex_number(g.last() as nat);
    if g.len() == 1 {
        lemma_split_front(h, Seq::empty(), ':');
        assert(text::split_on(t, ':') =~= Seq::new(g.len(), |i: int| text::hex_number(g[i] as nat)));
    } else {
        let before = g.drop_last();
        lemma_groups_text(before);
        let p = groups_text(before);
        assert(t =~= p.push(':') + h);
        lemma_split_back(p, h, ':');
        assert(text::split_on(t, ':') =~= Seq::new(g.len(), |i: int| text::hex_number(g[i] as nat)));
        assert forall|i: int| 0 <= i < t.len() implies '0' <= #[trigger] t[i] <= '9' || 'a' <= t[i] <= 'f' || t[i]
            == ':' by {
            if i < p.len() {
                assert(t[i] == p[i]);
            } else if i > p.len() {
                assert(t[i] == h[i - p.len() - 1]);
            }
        }
        assert forall|i: int| 0 <= i < t.len() - 1 implies !(#[trigger] t[i] == ':' && t[i + 1] == ':') by {
            if i < p.len() - 1 {
                assert(t[i] == p[i] && t[i + 1] == p[i + 1]);
            } else if i == p.len() - 1 {
                assert(t[i] == p.last());
            } else if i == p.len() {
                assert(t[i + 1] == h[0]);
            } else {
                assert(t[i] == h[i - p.len() - 1]);
            }
        }
        assert(t[0] == p[0]);
        assert(t.last() == h.last());
    }
}

proof fn lemma_groups_value(g: Seq<u16>)
    requires
        g.len() > 0,
    ensures
        groups_ok(text::split_on(groups_text(g), ':'), true),
        groups_ok(text::split_on(groups_text(g), ':'), false),
        groups_value(text::split_on(groups_text(g), ':')) == g,
{
    lemma_groups_text(g);
    let p = text::split_on(groups_text(g), ':');
    assert forall|i: int| 0 <= i < g.len() implies is_group(#[trigger] p[i]) && hex_digits_value(p[i]) == g[i] by {
        lemma_hex_number(g[i] as nat);
    }
    assert(p.last() == p[p.len() - 1]);
    assert(groups_value(p) =~= g);
}

proof fn lemma_gap(s: Seq<char>, k: int)
    requires
        0 <= k <= s.len(),
        k == s.len() || (k + 1 < s.len() && s[k] == ':' && s[k + 1] == ':'),
        forall|i: int| 0 <= i < k && i + 1 < s.len() ==> !(#[trigger] s[i] == ':' && s[i + 1] == ':'),
    ensures
        gap_of(s) == k,
    decreases k,
{
    if k > 0 {
        assert(s.len() >= 2 ==> !(s[0] == ':' && s[1] == ':'));
        let t = s.skip(1);
        assert forall|i: int| 0 <= i < k - 1 && i + 1 < t.len() implies !(#[trigger] t[i] == ':' && t[i + 1] == ':') by {
            assert(t[i] == s[i + 1] && t[i + 1] == s[i + 2]);
        }
        lemma_gap(t, k - 1);
    }
}

proof fn lemma_zero_run(g: Seq<u16>, i: int)
    requires
        0 <= i <= g.len(),
    ensures
        0 <= zero_run(g, i) <= g.len() - i,
        forall|j: int| i <= j < i + zero_run(g, i) ==> g[j] == 0,
    decreases g.len() - i,
{
    if i < g.len() && g[i] == 0 {
        lemma_zero_run(g, i + 1);
    }
}

proof fn lemma_best_run(g: Seq<u16>, n: int)
    requires
        0 <= n <= g.len(),
    ensures
        ({
            let b = best_run(g, n);
            &&& 0 <= b.0
            &&& 0 <= b.1
            &&& b.0 + b.1 <= g.len()
            &&& forall|j: int| b.0 <= j < b.0 + b.1 ==> g[j] == 0
        }),
    decreases n,
{
    if n > 0 {
        lemma_best_run(g, n - 1);
        lemma_zero_run(g, n - 1);
    }
}

proof fn lemma_mapped_tail(g: Seq<u16>)
    requires
        g.len() == 8,
        is_mapped(g),
    ensures
        ({
            let tail = seq!['f', 'f', 'f', 'f', ':'] + ipv4_text(mapped_octets(g));
            &&& side_ok(tail, true)
            &&& side_value(tail) == seq![0xffffu16, g[6], g[7]]
        }),
{
    let o = mapped_octets(g);
    let ip = ipv4_text(o);
    lemma_ipv4_text(o);
    let f = seq!['f', 'f', 'f', 'f'];
    let tail = seq!['f', 'f', 'f', 'f', ':'] + ip;
    assert(tail =~= f.push(':') + ip);
    assert forall|i: int| 0 <= i < f.len() implies f[i] != ':' by {
    }
    lemma_split_front(f, ip, ':');
    lemma_split_front(ip, Seq::empty(), ':');
    let p = text::split_on(tail, ':');
    assert(p =~= seq![f, ip]);
    assert(is_group(f));
    let dot = choose|i: int| 0 <= i < ip.len() && ip[i] == '.';
    assert(!is_group(ip)) by {
        assert(text::hex_value(ip[dot]) == -1);
    }
    reveal_with_fuel(hex_digits_value, 5);
    assert(f.drop_last() =~= seq!['f', 'f', 'f']);
    assert(f.drop_last().drop_last() =~= seq!['f', 'f']);
    assert(f.drop_last().drop_last().drop_last() =~= seq!['f']);
    assert(f.drop_last().drop_last().drop_last().drop_last() =~= Seq::empty());
    assert(hex_digits_value(f) == 0xffff);
    let v = side_value(tail);
    assert(ipv4_octets(ip) == o);
    assert((o[0] * 256 + o[1]) as u16 == g[6]);
    assert((o[2] * 256 + o[3]) as u16 == g[7]);
    assert(v =~= seq![0xffffu16, g[6], g[7]]);
}

proof fn lemma_mapped_text(g: Seq<u16>)
    requires
        g.len() == 8,
        is_mapped(g),
    ensures
        is_ipv6(ipv6_text(g)),
        ipv6_groups(ipv6_text(g)) == g,
        forall|i: int|
            0 <= i < ipv6_text(g).len() ==> {
                let c = #[trigger] ipv6_text(g)[i];
                '0' <= c <= '9' || 'a' <= c <= 'f' || c == ':' || c == '.'
            },
{
    reveal_strlit("::ffff:");
    let s = ipv6_text(g);
    let ip = ipv4_text(mapped_octets(g));
    lemma_ipv4_text(mapped_octets(g));
    lemma_mapped_tail(g);
    assert(s[0] == ':' && s[1] == ':');
    lemma_gap(s, 0);
    let tail = s.skip(2);
    assert(tail =~= seq!['f', 'f', 'f', 'f', ':'] + ip);
    assert(s.take(0) =~= Seq::empty());
    assert(g =~= Seq::new(5, |i: int| 0u16) + seq![0xffffu16, g[6], g[7]]);
    assert(ipv6_groups(s) =~= g);
    assert forall|i: int| 0 <= i < s.len() implies {
        let c = #[trigger] s[i];
        '0' <= c <= '9' || 'a' <= c <= 'f' || c == ':' || c == '.'
    } by {
        if i >= 7 {
            assert(s[i] == ip[i - 7]);
        }
    }
}

proof fn lemma_gapped_text(g: Seq<u16>)
    requires
        g.len() == 8,
        !is_mapped(g),
        best_run(g, 8).1 > 1,
    ensures
        is_ipv6(ipv6_text(g)),
        ipv6_groups(ipv6_text(g)) == g,
        forall|i: int|
            0 <= i < ipv6_text(g).len() ==> {
                let c = #[trigger] ipv6_text(g)[i];
                '0' <= c <= '9' || 'a' <= c <= 'f' || c == ':' || c == '.'
            },
{
    let s = ipv6_text(g);
    let b = best_run(g, 8);
    lemma_best_run(g, 8);
    reveal_strlit("::");
    let hg = g.take(b.0);
    let tg = g.skip(b.0 + b.1);
    let head = groups_text(hg);
    let tail = groups_text(tg);
    if hg.len() > 0 {
        lemma_groups_text(hg);
        lemma_groups_value(hg);
    }
    if tg.len() > 0 {
        lemma_groups_text(tg);
        lemma_groups_value(tg);
    }
    let n = head.len() as int;
    assert(s =~= head + "::"@ + tail);
    assert(s[n] == ':' && s[n + 1] == ':');
    assert forall|i: int| 0 <= i < n && i + 1 < s.len() implies !(#[trigger] s[i] == ':' && s[i + 1] == ':') by {
        assert(s[i] == head[i]);
        if i < n - 1 {
            assert(s[i + 1] == head[i + 1]);
        } else {
            assert(head[i] == head.last());
        }
    }
    lemma_gap(s, n);
    assert(s.take(n) =~= head);
    assert(s.skip(n + 2) =~= tail);
    assert(side_value(head) =~= hg);
    assert(side_value(tail) =~= tg);
    assert(ipv6_groups(s) =~= g);
    assert forall|i: int| 0 <= i < s.len() implies {
        let c = #[trigger] s[i];
        '0' <= c <= '9' || 'a' <= c <= 'f' || c == ':' || c == '.'
    } by {
        if i < n {
            assert(s[i] == head[i]);
        } else if i >= n + 2 {
            assert(s[i] == tail[i - n - 2]);
        }
    }
}

/// The text of an IPv6 address reads back as its groups, and holds nothing but
/// hexadecimal digits, colons and dots.
proof fn lemma_ipv6_text(g: Seq<u16>)
    requires
        g.len() == 8,
    ensures
        is_ipv6(ipv6_text(g)),
        ipv6_groups(ipv6_text(g)) == g,
        forall|i: int|
            0 <= i < ipv6_text(g).len() ==> {
                let c = #[trigger] ipv6_text(g)[i];
                '0' <= c <= '9' || 'a' <= c <= 'f' || c == ':' || c == '.'
            },
{
    if is_mapped(g) {
        lemma_mapped_text(g);
    } else if best_run(g, 8).1 > 1 {
        lemma_gapped_text(g);
    } else {
        let s = ipv6_text(g);
        lemma_groups_text(g);
        lemma_groups_value(g);
        lemma_gap(s, s.len() as int);
    }
}

proof fn lemma_v6_reads_back(groups: [u16; 8], scope: u32, port: u16)
    ensures
        ({
            let s = socket_text(SocketAddr::V6 { groups, scope, port });
            let b = bracketed(s);
            &&& !is_v4_socket(s)
            &&& is_v6_socket(s)
            &&& groups@ == ipv6_groups(b.take(text::index_of(b, '%')))
            &&& scope == scope_in(b)
            &&& port == text::digits_value(s.skip(text::index_of(s, ']') + 2))
        }),
{
    reveal_strlit("]:");
    let ip = ipv6_text(groups@);
    lemma_ipv6_text(groups@);
    let d = text::decimal(port as nat);
    let e = text::decimal(scope as nat);
    text::lemma_decimal_value(port as nat);
    text::lemma_decimal_value(scope as nat);
    let s = socket_text(SocketAddr::V6 { groups, scope, port });
    let inner = if scope != 0 {
        ip.push('%') + e
    } else {
        ip
    };
    let open = seq!['['] + inner;
    assert(s =~= open.push(']') + (seq![':'] + d));
    assert forall|i: int| 0 <= i < open.len() implies open[i] != ']' by {
        if i > 0 {
            assert(open[i] == inner[i - 1]);
            if i - 1 < ip.len() {
                assert(inner[i - 1] == ip[i - 1]);
            } else if i - 1 > ip.len() {
                assert(inner[i - 1] == e[i - 1 - ip.len() - 1]);
            }
        }
    }
    lemma_split_front(open, seq![':'] + d, ']');
    let b = bracketed(s);
    assert(b =~= inner);
    assert forall|i: int| 0 <= i < ip.len() implies ip[i] != '%' by {
    }
    if scope != 0 {
        lemma_split_front(ip, e, '%');
        assert(b.take(ip.len() as int) =~= ip);
        assert(b.skip(ip.len() as int + 1) =~= e);
    } else {
        text::lemma_index_of(b, '%');
        assert(text::index_of(b, '%') == b.len());
        assert(b.take(b.len() as int) =~= ip);
    }
    assert(s.skip(open.len() as int + 2) =~= d);
    assert(s[open.len() as int + 1] == ':');
    assert(!is_v4_socket(s)) by {
        text::lemma_index_of(s, ':');
        let i = text::index_of(s, ':');
        if i < s.len() && is_ipv4(s.take(i)) {
            let t = s.take(i);
            text::lemma_index_of(t, '.');
            let p = text::split_on(t, '.');
            assert(is_octet(p[0]));
            assert(s[0] == '[');
            if i > 0 {
                assert(t[0] == '[');
                if text::index_of(t, '.') < t.len() {
                    assert(p[0] == t.take(text::index_of(t, '.')));
                } else {
                    assert(p[0] == t);
                }
                assert(p[0].len() > 0);
                assert(p[0][0] == '[');
            } else {
                assert(s[0] == ':');
            }
        }
    }
}

/// An address that was written is read as the same address, of either kind, with its port
/// and its scope.
pub proof fn law_addresses_read_back(a: SocketAddr, written: String, s: &str, r: Option<SocketAddr>)
    requires
        call_ensures(SocketAddr::text, (&a,), written),
        s@ == written@,
        call_ensures(SocketAddr::parse, (s,), r),
    ensures
        r is Some,
        match a {
            SocketAddr::V4 { octets, port } => r->0 is V4 && r->0->octets@ == octets@ && r->0->V4_port == port,
            SocketAddr::V6 { groups, scope, port } => r->0 is V6 && r->0->groups@ == groups@ && r->0->scope == scope
                && r->0->V6_port == port,
        },
{
    match a {
        SocketAddr::V4 { octets, port } => {
            lemma_v4_reads_back(octets, port);
        },
        SocketAddr::V6 { groups, scope, port } => {
            lemma_v6_reads_back(groups, scope, port);
        },
    }
}

/// A number has one text of digits that does not begin with a needless zero.
proof fn lemma_one_text(p: Seq<char>)
    requires
        text::all_digits(p),
        p.len() == 1 || p[0] != '0',
    ensures
        text::digits_value(p) >= 0,
        p[0] != '0' ==> text::digits_value(p) > 0,
        text::decimal(text::digits_value(p) as nat) == p,
    decreases p.len(),
{
    let d = text::digit_value(p.last());
    assert('0' <= p[p.len() - 1] <= '9');
    if p.len() == 1 {
        assert(p.drop_last() =~= Seq::empty());
        assert(text::digits_value(p.drop_last()) == 0);
        assert(text::digits_value(p) == d);
        assert(text::decimal(d as nat) =~= p);
    } else {
        let q = p.drop_last();
        assert(q[0] == p[0]);
        assert(text::all_digits(q)) by {
            assert forall|i: int| 0 <= i < q.len() implies '0' <= #[trigger] q[i] <= '9' by {
                assert(q[i] == p[i]);
            }
        }
        lemma_one_text(q);
        let n = text::digits_value(p);
        assert(n == text::digits_value(q) * 10 + d);
        assert(n / 10 == text::digits_value(q));
        assert(n % 10 == d);
        assert(text::decimal(n as nat) =~= p);
    }
}

/// An IPv4 address is written in one way: whatever reads as one is its own text.
pub proof fn law_ipv4_addresses_have_one_text(v: &[char], from: usize, to: usize, r: Option<[u8; 4]>)
    requires
        from <= to <= v@.len(),
        call_ensures(parse_ipv4, (v, from, to), r),
    ensures
        r is Some ==> v@.subrange(from as int, to as int) == ipv4_text(r->0@),
        forall|o: Seq<u8>| o.len() == 4 && v@.subrange(from as int, to as int) == #[trigger] ipv4_text(o) ==> r is Some
            && r->0@ == o,
{
    let s = v@.subrange(from as int, to as int);
    if r is Some {
        let p = text::split_on(s, '.');
        text::law_splitting_loses_nothing(s, '.');
        let o = r->0@;
        assert(is_octet(p[0]) && is_octet(p[1]) && is_octet(p[2]) && is_octet(p[3]));
        lemma_one_text(p[0]);
        lemma_one_text(p[1]);
        lemma_one_text(p[2]);
        lemma_one_text(p[3]);
        assert(o[0] == text::digits_value(p[0]) && o[1] == text::digits_value(p[1]) && o[2] == text::digits_value(p[2])
            && o[3] == text::digits_value(p[3]));
        let p1 = p.skip(1);
        let p2 = p1.skip(1);
        let p3 = p2.skip(1);
        assert(p1[0] == p[1] && p2[0] == p[2] && p3[0] == p[3]);
        assert(text::put_together(p3, '.') == p[3]);
        assert(text::put_together(p2, '.') == p[2].push('.') + p[3]);
        assert(text::put_together(p1, '.') == p[1].push('.') + (p[2].push('.') + p[3]));
        assert(text::put_together(p, '.') == p[0].push('.') + (p[1].push('.') + (p[2].push('.') + p[3])));
        assert(s =~= ipv4_text(o));
    }
    assert forall|o: Seq<u8>| o.len() == 4 && s == #[trigger] ipv4_text(o) implies r is Some && r->0@ == o by {
        lemma_ipv4_text(o);
    }
}

} // verus!
