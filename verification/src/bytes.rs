//! Byte strings: fixed-width integers, fixed-size pieces, comparison.

use vstd::prelude::*;
use vstd::slice::*;

verus! {

/// The `n` low-order bytes of `x`, most significant first.
pub open spec fn be_bytes(x: nat, n: nat) -> Seq<u8>
    decreases n,
{
    if n == 0 {
        Seq::empty()
    } else {
        be_bytes(x / 256, (n - 1) as nat).push((x % 256) as u8)
    }
}

/// 256 to the power of `n`.
pub open spec fn pow256(n: nat) -> nat
    decreases n,
{
    if n == 0 {
        1
    } else {
        256 * pow256((n - 1) as nat)
    }
}

/// The number written in `s` in base 256, most significant byte first.
pub open spec fn be_value(s: Seq<u8>) -> nat
    decreases s.len(),
{
    if s.len() == 0 {
        0
    } else {
        be_value(s.drop_last()) * 256 + s.last() as nat
    }
}

/// The `n` low-order bytes of `x`, least significant first.
pub open spec fn le_bytes(x: nat, n: nat) -> Seq<u8>
    decreases n,
{
    if n == 0 {
        Seq::empty()
    } else {
        seq![(x % 256) as u8] + le_bytes(x / 256, (n - 1) as nat)
    }
}

pub proof fn lemma_be_bytes_len(x: nat, n: nat)
    ensures
        be_bytes(x, n).len() == n,
    decreases n,
{
    if n > 0 {
        lemma_be_bytes_len(x / 256, (n - 1) as nat);
    }
}

pub proof fn lemma_le_bytes_len(x: nat, n: nat)
    ensures
        le_bytes(x, n).len() == n,
    decreases n,
{
    if n > 0 {
        lemma_le_bytes_len(x / 256, (n - 1) as nat);
    }
}

/// Reading back what was written gives the number, where it fits.
pub proof fn lemma_be_roundtrip(x: nat, n: nat)
    requires
        x < pow256(n),
    ensures
        be_value(be_bytes(x, n)) == x,
    decreases n,
{
    if n == 0 {
    } else {
        lemma_be_roundtrip(x / 256, (n - 1) as nat);
        let s = be_bytes(x, n);
        assert(s.drop_last() =~= be_bytes(x / 256, (n - 1) as nat));
        assert(s.last() as nat == x % 256);
    }
}

/// Every byte string is what writing its value gives.
pub proof fn lemma_be_value_bytes(s: Seq<u8>)
    ensures
        be_bytes(be_value(s), s.len()) == s,
        be_value(s) < pow256(s.len()),
    decreases s.len(),
{
    if s.len() == 0 {
        assert(be_bytes(be_value(s), s.len()) =~= s);
    } else {
        lemma_be_value_bytes(s.drop_last());
        let v = be_value(s);
        assert(v / 256 == be_value(s.drop_last()));
        assert(v % 256 == s.last() as nat);
        assert(be_bytes(v, s.len()) =~= s);
    }
}

/// Two numbers that fit in `n` bytes and are written alike, least significant byte first,
/// are equal.
pub proof fn lemma_le_injective(x: nat, y: nat, n: nat)
    requires
        x < pow256(n),
        y < pow256(n),
        le_bytes(x, n) == le_bytes(y, n),
    ensures
        x == y,
    decreases n,
{
    if n > 0 {
        let (a, b) = (le_bytes(x, n), le_bytes(y, n));
        assert(a[0] as nat == x % 256 && b[0] as nat == y % 256);
        assert(a.skip(1) =~= le_bytes(x / 256, (n - 1) as nat));
        assert(b.skip(1) =~= le_bytes(y / 256, (n - 1) as nat));
        lemma_le_injective(x / 256, y / 256, (n - 1) as nat);
    }
}

/// Two numbers that fit in `n` bytes and are written alike are equal.
pub proof fn lemma_be_injective(x: nat, y: nat, n: nat)
    requires
        x < pow256(n),
        y < pow256(n),
        be_bytes(x, n) == be_bytes(y, n),
    ensures
        x == y,
{
    lemma_be_roundtrip(x, n);
    lemma_be_roundtrip(y, n);
}

/// Powers of 256 that bound the machine integers.
pub proof fn lemma_pow256()
    ensures
        pow256(2) == 0x1_0000,
        pow256(4) == 0x1_0000_0000,
        pow256(8) == 0x1_0000_0000_0000_0000,
{
    reveal_with_fuel(pow256, 9);
}

/// The value of two bytes.
pub proof fn lemma_be_value_2(s: Seq<u8>)
    requires
        s.len() == 2,
    ensures
        be_value(s) == s[0] * 256 + s[1],
{
    assert(s.drop_last().drop_last().len() == 0);
    assert(be_value(s.drop_last().drop_last()) == 0);
    assert(be_value(s.drop_last()) == s[0]);
}

/// Appends the `n` low-order bytes of `x`, most significant first.
pub fn push_be(out: &mut Vec<u8>, x: u64, n: usize)
    ensures
        final(out)@ == old(out)@ + be_bytes(x as nat, n as nat),
    decreases n,
{
    if n > 0 {
        push_be(out, x / 256, n - 1);
        out.push((x % 256) as u8);
        assert(out@ =~= old(out)@ + be_bytes(x as nat, n as nat));
    } else {
        assert(out@ =~= old(out)@ + be_bytes(x as nat, n as nat));
    }
}

/// Appends the `n` low-order bytes of `x`, least significant first.
pub fn push_le(out: &mut Vec<u8>, x: u64, n: usize)
    ensures
        final(out)@ == old(out)@ + le_bytes(x as nat, n as nat),
    decreases n,
{
    if n > 0 {
        out.push((x % 256) as u8);
        push_le(out, x / 256, n - 1);
    }
    assert(out@ =~= old(out)@ + le_bytes(x as nat, n as nat));
}

/// The number in the two bytes of `s` at `at`.
pub fn read_be16(s: &[u8], at: usize) -> (r: u16)
    requires
        at + 2 <= s.len(),
    ensures
        r as nat == be_value(s@.subrange(at as int, at + 2)),
{
    proof {
        lemma_be_value_2(s@.subrange(at as int, at + 2));
    }
    (s[at] as u16) * 256 + s[at + 1] as u16
}

/// The number in the four bytes of `s` at `at`.
pub fn read_be32(s: &[u8], at: usize) -> (r: u32)
    requires
        at + 4 <= s.len(),
    ensures
        r as nat == be_value(s@.subrange(at as int, at + 4)),
{
    proof {
        let t = s@.subrange(at as int, at + 4);
        assert(t.drop_last().drop_last() =~= s@.subrange(at as int, at + 2));
        lemma_be_value_2(t.drop_last().drop_last());
        assert(be_value(t.drop_last()) == be_value(t.drop_last().drop_last()) * 256 + t[2]);
        assert(be_value(t) == be_value(t.drop_last()) * 256 + t[3]);
    }
    let hi: u32 = read_be16(s, at) as u32;
    (hi * 256 + s[at + 2] as u32) * 256 + s[at + 3] as u32
}

/// The number in the four bytes of `s` at `at`, least significant first.
pub fn read_le32(s: &[u8], at: usize) -> (r: u32)
    requires
        at + 4 <= s.len(),
    ensures
        r == s@[at as int] + s@[at + 1] * 256 + s@[at + 2] * 65536 + s@[at + 3] * 16777216,
{
    let hi: u32 = s[at + 3] as u32 * 256 + s[at + 2] as u32;
    (hi * 256 + s[at + 1] as u32) * 256 + s[at] as u32
}

/// The number in the eight bytes of `s` at `at`, least significant first.
pub fn read_le64(s: &[u8], at: usize) -> (r: u64)
    requires
        at + 8 <= s.len(),
    ensures
        le_bytes(r as nat, 8) == s@.subrange(at as int, at + 8),
{
    proof {
        lemma_pow256();
    }
    let mut x: u64 = 0;
    let mut i: usize = 8;
    assert(le_bytes(0, 0) =~= s@.subrange(at + 8, at + 8));
    while i > 0
        invariant
            i <= 8,
            at + 8 <= s.len(),
            x < pow256((8 - i) as nat),
            le_bytes(x as nat, (8 - i) as nat) == s@.subrange(at + i, at + 8),
        decreases i,
    {
        proof {
            lemma_pow256();
            reveal_with_fuel(pow256, 9);
        }
        let rest: u64 = x;
        i = i - 1;
        x = rest * 256 + s[at + i] as u64;
        assert(x as nat / 256 == rest as nat && x as nat % 256 == s@[at + i] as nat);
        assert(le_bytes(x as nat, (8 - i) as nat) =~= s@.subrange(at + i, at + 8));
    }
    x
}

/// Whether two byte strings are equal.
pub fn bytes_eq(a: &[u8], b: &[u8]) -> (r: bool)
    ensures
        r == (a@ == b@),
{
    if a.len() != b.len() {
        return false;
    }
    let mut i: usize = 0;
    while i < a.len()
        invariant
            i <= a@.len(),
            a@.len() == b@.len(),
            a@.take(i as int) == b@.take(i as int),
        decreases a@.len() - i,
    {
        if a[i] != b[i] {
            assert(a@[i as int] != b@[i as int]);
            return false;
        }
        i += 1;
        assert(a@.take(i as int) =~= b@.take(i as int)) by {
            assert(a@.take(i as int) =~= a@.take(i - 1).push(a@[i - 1]));
            assert(b@.take(i as int) =~= b@.take(i - 1).push(b@[i - 1]));
        }
    }
    assert(a@ =~= a@.take(i as int));
    assert(b@ =~= b@.take(i as int));
    true
}

/// `a` comes before `b` in the byte-wise lexicographic order.
pub open spec fn bytes_lt(a: Seq<u8>, b: Seq<u8>) -> bool
    decreases a.len(),
{
    if b.len() == 0 {
        false
    } else if a.len() == 0 {
        true
    } else {
        a[0] < b[0] || (a[0] == b[0] && bytes_lt(a.skip(1), b.skip(1)))
    }
}

/// Of two different byte strings one comes first, and only one.
pub proof fn lemma_bytes_lt_total(a: Seq<u8>, b: Seq<u8>)
    ensures
        bytes_lt(a, b) || bytes_lt(b, a) || a == b,
        !(bytes_lt(a, b) && bytes_lt(b, a)),
        !bytes_lt(a, a),
    decreases a.len(),
{
    if a.len() > 0 {
        lemma_bytes_lt_total(a.skip(1), a.skip(1));
    }
    if a.len() > 0 && b.len() > 0 {
        lemma_bytes_lt_total(a.skip(1), b.skip(1));
        if a[0] == b[0] && a.skip(1) == b.skip(1) {
            assert(a =~= seq![a[0]] + a.skip(1));
            assert(b =~= seq![b[0]] + b.skip(1));
        }
    } else if a.len() == 0 && b.len() == 0 {
        assert(a =~= b);
    }
}

/// The byte-wise lexicographic order is transitive.
pub proof fn lemma_bytes_lt_trans(a: Seq<u8>, b: Seq<u8>, c: Seq<u8>)
    requires
        bytes_lt(a, b),
        bytes_lt(b, c),
    ensures
        bytes_lt(a, c),
    decreases a.len(),
{
    if a.len() > 0 && b.len() > 0 && c.len() > 0 && a[0] == b[0] && b[0] == c[0] {
        lemma_bytes_lt_trans(a.skip(1), b.skip(1), c.skip(1));
    }
}

/// Whether `a` comes before `b` in the byte-wise lexicographic order.
pub fn bytes_before(a: &[u8], b: &[u8]) -> (r: bool)
    ensures
        r == bytes_lt(a@, b@),
{
    let mut i: usize = 0;
    assert(a@.skip(0) =~= a@);
    assert(b@.skip(0) =~= b@);
    while i < a.len() && i < b.len()
        invariant
            i <= a@.len(),
            i <= b@.len(),
            bytes_lt(a@, b@) == bytes_lt(a@.skip(i as int), b@.skip(i as int)),
        decreases a@.len() - i,
    {
        if a[i] != b[i] {
            return a[i] < b[i];
        }
        assert(a@.skip(i as int).skip(1) =~= a@.skip(i + 1));
        assert(b@.skip(i as int).skip(1) =~= b@.skip(i + 1));
        i += 1;
    }
    i < b.len()
}

/// The 32 bytes of `s` that start at `at`.
pub fn array_32(s: &[u8], at: usize) -> (r: [u8; 32])
    requires
        at + 32 <= s.len(),
    ensures
        r@ == s@.subrange(at as int, at + 32),
{
    let mut r: [u8; 32] = [0u8; 32];
    let mut i: usize = 0;
    while i < 32
        invariant
            i <= 32,
            at + 32 <= s.len(),
            forall|j: int| 0 <= j < i ==> r@[j] == s@[at + j],
        decreases 32 - i,
    {
        r[i] = s[at + i];
        i += 1;
    }
    assert(r@ =~= s@.subrange(at as int, at + 32));
    r
}

/// The 20 bytes of `s` that start at `at`.
pub fn array_20(s: &[u8], at: usize) -> (r: [u8; 20])
    requires
        at + 20 <= s.len(),
    ensures
        r@ == s@.subrange(at as int, at + 20),
{
    let mut r: [u8; 20] = [0u8; 20];
    let mut i: usize = 0;
    while i < 20
        invariant
            i <= 20,
            at + 20 <= s.len(),
            forall|j: int| 0 <= j < i ==> r@[j] == s@[at + j],
        decreases 20 - i,
    {
        r[i] = s[at + i];
        i += 1;
    }
    assert(r@ =~= s@.subrange(at as int, at + 20));
    r
}

/// The 16 bytes of `s` that start at `at`.
pub fn array_16(s: &[u8], at: usize) -> (r: [u8; 16])
    requires
        at + 16 <= s.len(),
    ensures
        r@ == s@.subrange(at as int, at + 16),
{
    let mut r: [u8; 16] = [0u8; 16];
    let mut i: usize = 0;
    while i < 16
        invariant
            i <= 16,
            at + 16 <= s.len(),
            forall|j: int| 0 <= j < i ==> r@[j] == s@[at + j],
        decreases 16 - i,
    {
        r[i] = s[at + i];
        i += 1;
    }
    assert(r@ =~= s@.subrange(at as int, at + 16));
    r
}

/// The 64 bytes of `s` that start at `at`.
pub fn array_64(s: &[u8], at: usize) -> (r: [u8; 64])
    requires
        at + 64 <= s.len(),
    ensures
        r@ == s@.subrange(at as int, at + 64),
{
    let mut r: [u8; 64] = [0u8; 64];
    let mut i: usize = 0;
    while i < 64
        invariant
            i <= 64,
            at + 64 <= s.len(),
            forall|j: int| 0 <= j < i ==> r@[j] == s@[at + j],
        decreases 64 - i,
    {
        r[i] = s[at + i];
        i += 1;
    }
    assert(r@ =~= s@.subrange(at as int, at + 64));
    r
}

/// Appends a byte string.
pub fn append(out: &mut Vec<u8>, s: &[u8])
    ensures
        final(out)@ == old(out)@ + s@,
{
    out.extend_from_slice(s);
    assert(out@ =~= old(out)@ + s@);
}

/// The bytes of `s` from `from` up to `to`, as a vector.
pub fn copy_range(s: &[u8], from: usize, to: usize) -> (r: Vec<u8>)
    requires
        from <= to <= s@.len(),
    ensures
        r@ == s@.subrange(from as int, to as int),
{
    slice_to_vec(slice_subrange(s, from, to))
}

/// A number that was written most significant byte first is read as that number.
pub proof fn law_written_numbers_read_back(
    x: u64,
    before: Vec<u8>,
    two: Vec<u8>,
    four: Vec<u8>,
    s2: &[u8],
    s4: &[u8],
    r2: u16,
    r4: u32,
    at: usize,
)
    requires
        at == before@.len(),
        exists|v: &mut Vec<u8>|
            *v == before && *final(v) == two && #[trigger] call_ensures(push_be, (v, x, 2), ()),
        exists|v: &mut Vec<u8>|
            *v == before && *final(v) == four && #[trigger] call_ensures(push_be, (v, x, 4), ()),
        s2@ == two@,
        s4@ == four@,
        call_ensures(read_be16, (s2, at), r2),
        call_ensures(read_be32, (s4, at), r4),
    ensures
        x < 0x1_0000 ==> r2 == x,
        x < 0x1_0000_0000 ==> r4 == x,
        two@.len() == at + 2,
        four@.len() == at + 4,
{
    lemma_pow256();
    lemma_be_bytes_len(x as nat, 2);
    lemma_be_bytes_len(x as nat, 4);
    assert(s2@.subrange(at as int, at + 2) =~= be_bytes(x as nat, 2));
    assert(s4@.subrange(at as int, at + 4) =~= be_bytes(x as nat, 4));
    if x < 0x1_0000 {
        lemma_be_roundtrip(x as nat, 2);
    }
    if x < 0x1_0000_0000 {
        lemma_be_roundtrip(x as nat, 4);
    }
}

/// The same of eight bytes, least significant first.
pub proof fn law_small_ends_read_back(x: u64, before: Vec<u8>, after: Vec<u8>, s: &[u8], r: u64, at: usize)
    requires
        at == before@.len(),
        exists|v: &mut Vec<u8>|
            *v == before && *final(v) == after && #[trigger] call_ensures(push_le, (v, x, 8), ()),
        s@ == after@,
        call_ensures(read_le64, (s, at), r),
    ensures
        r == x,
{
    lemma_le_bytes_len(x as nat, 8);
    assert(s@.subrange(at as int, at + 8) =~= le_bytes(x as nat, 8));
    lemma_pow256();
    lemma_le_injective(r as nat, x as nat, 8);
}

/// One of two different byte strings comes before the other, and a string comes before
/// every longer one that begins with it.
pub proof fn law_byte_strings_are_ordered(a: &[u8], b: &[u8], ab: bool, ba: bool, same: bool)
    requires
        call_ensures(bytes_before, (a, b), ab),
        call_ensures(bytes_before, (b, a), ba),
        call_ensures(bytes_eq, (a, b), same),
    ensures
        same <==> a@ == b@,
        !(ab && ba),
        !same ==> ab || ba,
        same ==> !ab && !ba,
{
    lemma_bytes_lt_total(a@, b@);
}

} // verus!
