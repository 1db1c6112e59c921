//! Text: characters, decimal numbers, hexadecimal.

use vstd::prelude::*;
use vstd::string::*;
use vstd::utf8::*;

verus! {

/// `String::push`: appends one character.
pub assume_specification[ String::push ](s: &mut String, c: char)
    ensures
        final(s)@ == old(s)@.push(c),
;

/// The characters of `s`, in order.
pub fn chars_of(s: &str) -> (v: Vec<char>)
    ensures
        v@ == s@,
{
    let mut v: Vec<char> = Vec::new();
    for c in it: s.chars()
        invariant
            v@ == it.seq().take(it.index() as int),
            it.seq() == s@,
    {
        v.push(c);
    }
    v
}

/// Appends the characters of `v` from `from` up to `to`.
pub fn append_chars(out: &mut String, v: &[char], from: usize, to: usize)
    requires
        from <= to <= v@.len(),
    ensures
        final(out)@ == old(out)@ + v@.subrange(from as int, to as int),
{
    let mut i: usize = from;
    assert(out@ =~= old(out)@ + v@.subrange(from as int, from as int));
    while i < to
        invariant
            from <= i <= to <= v@.len(),
            out@ == old(out)@ + v@.subrange(from as int, i as int),
        decreases to - i,
    {
        out.push(v[i]);
        i += 1;
        assert(v@.subrange(from as int, i as int) =~= v@.subrange(from as int, i - 1).push(v@[i - 1]));
        assert(out@ =~= old(out)@ + v@.subrange(from as int, i as int));
    }
}

/// The characters of `v` from `from` up to `to`, as a string.
pub fn string_of(v: &[char], from: usize, to: usize) -> (s: String)
    requires
        from <= to <= v@.len(),
    ensures
        s@ == v@.subrange(from as int, to as int),
{
    let mut s: String = String::new();
    append_chars(&mut s, v, from, to);
    assert(s@ =~= v@.subrange(from as int, to as int));
    s
}

/// `==` on `str`: the strings hold the same characters.
pub assume_specification[ <str as PartialEq>::eq ](a: &str, b: &str) -> (r: bool)
    ensures
        r == (a@ == b@),
;

/// Whether two strings are equal.
pub fn str_eq(a: &str, b: &str) -> (r: bool)
    ensures
        r == (a@ == b@),
{
    *a == *b
}

/// `s` begins with `p`.
pub open spec fn starts_with(s: Seq<char>, p: Seq<char>) -> bool {
    p.len() <= s.len() && s.take(p.len() as int) == p
}

/// `s` ends with `p`.
pub open spec fn ends_with(s: Seq<char>, p: Seq<char>) -> bool {
    p.len() <= s.len() && s.skip(s.len() - p.len()) == p
}

/// Whether `v` holds the characters of `p` at `at`.
pub fn has_at(v: &[char], at: usize, p: &str) -> (r: bool)
    requires
        at <= v@.len(),
    ensures
        r == (at + p@.len() <= v@.len() && v@.subrange(at as int, at + p@.len()) == p@),
{
    let q: Vec<char> = chars_of(p);
    if q.len() > v.len() - at {
        return false;
    }
    let mut i: usize = 0;
    while i < q.len()
        invariant
            i <= q@.len(),
            q@ == p@,
            at + q@.len() <= v.len(),
            forall|j: int| 0 <= j < i ==> v@[at + j] == q@[j],
        decreases q@.len() - i,
    {
        if v[at + i] != q[i] {
            assert(v@.subrange(at as int, at + q@.len())[i as int] != q@[i as int]);
            return false;
        }
        i += 1;
    }
    assert(v@.subrange(at as int, at + q@.len()) =~= q@);
    true
}

/// Whether `s` begins with `p`.
pub fn str_starts_with(s: &str, p: &str) -> (r: bool)
    ensures
        r == starts_with(s@, p@),
{
    let v: Vec<char> = chars_of(s);
    assert(p@.len() <= v@.len() ==> v@.subrange(0, p@.len() as int) =~= v@.take(p@.len() as int));
    has_at(&v, 0, p)
}

/// The concatenation of two strings.
pub fn join2(a: &str, b: &str) -> (r: String)
    ensures
        r@ == a@ + b@,
{
    let mut r: String = a.to_owned();
    r.append(b);
    r
}

/// The concatenation of three strings.
pub fn join3(a: &str, b: &str, c: &str) -> (r: String)
    ensures
        r@ == a@ + b@ + c@,
{
    let mut r: String = a.to_owned();
    r.append(b);
    r.append(c);
    r
}

/// The decimal digit of `d`.
pub open spec fn digit(d: nat) -> char {
    (48 + d) as char
}

/// `n` in decimal, without leading zeros.
pub open spec fn decimal(n: nat) -> Seq<char>
    decreases n,
{
    if n < 10 {
        seq![digit(n)]
    } else {
        decimal(n / 10).push(digit(n % 10))
    }
}

/// Ten to the power of `n`.
pub open spec fn pow10(n: nat) -> nat
    decreases n,
{
    if n == 0 {
        1
    } else {
        10 * pow10((n - 1) as nat)
    }
}

/// A decimal is made of digits, and no longer than its bound allows.
pub proof fn lemma_decimal(n: nat, k: nat)
    requires
        n < pow10(k),
        k > 0,
    ensures
        1 <= decimal(n).len() <= k,
        forall|i: int| 0 <= i < decimal(n).len() ==> '0' <= #[trigger] decimal(n)[i] <= '9',
    decreases n,
{
    if n >= 10 {
        assert(k > 1) by {
            if k == 1 {
                assert(pow10(1) == 10 * pow10(0));
            }
        }
        lemma_decimal(n / 10, (k - 1) as nat);
    }
}

/// The character of a decimal digit.
pub fn digit_char(d: u8) -> (c: char)
    requires
        d < 10,
    ensures
        c == digit(d as nat),
{
    (48 + d) as char
}

/// Appends `n` in decimal.
pub fn append_decimal(out: &mut String, n: u64)
    ensures
        final(out)@ == old(out)@ + decimal(n as nat),
    decreases n,
{
    if n >= 10 {
        append_decimal(out, n / 10);
    }
    out.push(digit_char((n % 10) as u8));
    assert(out@ =~= old(out)@ + decimal(n as nat));
}

/// `n` in decimal.
pub fn decimal_string(n: u64) -> (s: String)
    ensures
        s@ == decimal(n as nat),
{
    let mut s: String = String::new();
    append_decimal(&mut s, n);
    assert(s@ =~= decimal(n as nat));
    s
}

/// The value of a decimal digit, `-1` of any other character.
pub open spec fn digit_value(c: char) -> int {
    if '0' <= c <= '9' {
        c as int - 48
    } else {
        -1
    }
}

/// `s` is a non-empty string of decimal digits.
pub open spec fn all_digits(s: Seq<char>) -> bool {
    s.len() > 0 && forall|i: int| 0 <= i < s.len() ==> digit_value(#[trigger] s[i]) >= 0
}

/// The number that a string of decimal digits stands for.
pub open spec fn digits_value(s: Seq<char>) -> int
    decreases s.len(),
{
    if s.len() == 0 {
        0
    } else {
        digits_value(s.drop_last()) * 10 + digit_value(s.last())
    }
}

/// The text of an unsigned number that fits below `limit`: an optional `+`
/// and decimal digits, as the standard library's integer parsers read it.
pub open spec fn number_text(s: Seq<char>, limit: int) -> bool {
    let d = if s.len() > 0 && s[0] == '+' { s.skip(1) } else { s };
    all_digits(d) && digits_value(d) < limit
}

/// The value of the text of an unsigned number.
pub open spec fn number_value(s: Seq<char>) -> int {
    if s.len() > 0 && s[0] == '+' {
        digits_value(s.skip(1))
    } else {
        digits_value(s)
    }
}

proof fn lemma_digits_value_monotone(s: Seq<char>, i: int)
    requires
        0 <= i <= s.len(),
        forall|j: int| 0 <= j < s.len() ==> digit_value(#[trigger] s[j]) >= 0,
    ensures
        0 <= digits_value(s.take(i)) <= digits_value(s),
    decreases s.len() - i, s.len(),
{
    if i < s.len() {
        lemma_digits_value_monotone(s, i + 1);
        let t = s.take(i + 1);
        assert(t.drop_last() =~= s.take(i));
        assert(t.last() == s[i]);
        lemma_digits_value_nonneg(s.take(i));
    } else {
        assert(s.take(i) =~= s);
        lemma_digits_value_nonneg(s);
    }
}

proof fn lemma_digits_value_nonneg(s: Seq<char>)
    requires
        forall|j: int| 0 <= j < s.len() ==> digit_value(#[trigger] s[j]) >= 0,
    ensures
        0 <= digits_value(s),
    decreases s.len(),
{
    if s.len() > 0 {
        lemma_digits_value_nonneg(s.drop_last());
    }
}

/// Reads the unsigned number in the characters of `v` from `from` up to `to`,
/// when it is at most `max`.
pub fn parse_long_number(v: &[char], from: usize, to: usize, max: u64) -> (r: Option<u64>)
    requires
        from <= to <= v@.len(),
    ensures
        r is Some == number_text(v@.subrange(from as int, to as int), max + 1),
        r matches Some(n) ==> n == number_value(v@.subrange(from as int, to as int)),
{
    let ghost s = v@.subrange(from as int, to as int);
    let mut i: usize = from;
    if from < to && v[from] == '+' {
        i = from + 1;
    }
    let ghost d = if s.len() > 0 && s[0] == '+' {
        s.skip(1)
    } else {
        s
    };
    let start: usize = i;
    assert(d =~= v@.subrange(start as int, to as int));
    if start >= to {
        return None;
    }
    let mut n: u128 = 0;
    while i < to
        invariant
            start <= i <= to <= v@.len(),
            start < to,
            from <= to,
            s == v@.subrange(from as int, to as int),
            d == (if s.len() > 0 && s[0] == '+' {
                s.skip(1)
            } else {
                s
            }),
            d == v@.subrange(start as int, to as int),
            n == digits_value(d.take(i - start)),
            n <= max,
            forall|j: int| 0 <= j < i - start ==> digit_value(#[trigger] d[j]) >= 0,
        decreases to - i,
    {
        let c: char = v[i];
        assert(c == d[i - start]);
        if c < '0' || c > '9' {
            assert(digit_value(d[i - start]) < 0);
            return None;
        }
        n = n * 10 + (c as u128 - 48);
        assert(d.take(i - start + 1).drop_last() =~= d.take(i - start));
        i += 1;
        if n > max as u128 {
            proof {
                if all_digits(d) {
                    lemma_digits_value_monotone(d, i - start);
                }
            }
            return None;
        }
    }
    assert(d.take(i - start) =~= d);
    Some(n as u64)
}

/// Reads the unsigned number of at most `max` in the characters of `v` from `from`
/// up to `to`.
pub fn parse_number(v: &[char], from: usize, to: usize, max: u32) -> (r: Option<u32>)
    requires
        from <= to <= v@.len(),
    ensures
        r is Some == number_text(v@.subrange(from as int, to as int), max + 1),
        r matches Some(n) ==> n == number_value(v@.subrange(from as int, to as int)),
{
    match parse_long_number(v, from, to, max as u64) {
        Some(n) => Some(n as u32),
        None => None,
    }
}

/// A character of Unicode's property White_Space.
pub open spec fn is_space(c: char) -> bool {
    let n = c as u32;
    0x09 <= n <= 0x0d || n == 0x20 || n == 0x85 || n == 0xa0 || n == 0x1680 || 0x2000 <= n <= 0x200a
        || n == 0x2028 || n == 0x2029 || n == 0x202f || n == 0x205f || n == 0x3000
}

/// Whether a character is white space.
pub fn is_space_char(c: char) -> (r: bool)
    ensures
        r == is_space(c),
{
    let n: u32 = c as u32;
    (0x09 <= n && n <= 0x0d) || n == 0x20 || n == 0x85 || n == 0xa0 || n == 0x1680 || (0x2000 <= n
        && n <= 0x200a) || n == 0x2028 || n == 0x2029 || n == 0x202f || n == 0x205f || n == 0x3000
}

/// `s` without white space at its start.
pub open spec fn trimmed_start(s: Seq<char>) -> Seq<char>
    decreases s.len(),
{
    if s.len() > 0 && is_space(s[0]) {
        trimmed_start(s.skip(1))
    } else {
        s
    }
}

/// `s` without white space at its end.
pub open spec fn trimmed_end(s: Seq<char>) -> Seq<char>
    decreases s.len(),
{
    if s.len() > 0 && is_space(s.last()) {
        trimmed_end(s.drop_last())
    } else {
        s
    }
}

/// `s` without white space at either end.
pub open spec fn trimmed(s: Seq<char>) -> Seq<char> {
    trimmed_end(trimmed_start(s))
}

/// The range of the characters of `v` from `from` up to `to`, without white space
/// at either end.
pub fn trim_range(v: &[char], from: usize, to: usize) -> (r: (usize, usize))
    requires
        from <= to <= v@.len(),
    ensures
        from <= r.0 <= r.1 <= to,
        v@.subrange(r.0 as int, r.1 as int) == trimmed(v@.subrange(from as int, to as int)),
{
    let ghost s = v@.subrange(from as int, to as int);
    let mut a: usize = from;
    while a < to && is_space_char(v[a])
        invariant
            from <= a <= to <= v@.len(),
            trimmed_start(s) == trimmed_start(v@.subrange(a as int, to as int)),
        decreases to - a,
    {
        assert(v@.subrange(a as int, to as int).skip(1) =~= v@.subrange(a + 1, to as int));
        a += 1;
    }
    let ghost t = v@.subrange(a as int, to as int);
    assert(trimmed_start(s) == t);
    let mut b: usize = to;
    while a < b && is_space_char(v[b - 1])
        invariant
            from <= a <= b <= to <= v@.len(),
            trimmed_end(t) == trimmed_end(v@.subrange(a as int, b as int)),
        decreases b - a,
    {
        assert(v@.subrange(a as int, b as int).drop_last() =~= v@.subrange(a as int, b - 1));
        b = b - 1;
    }
    (a, b)
}

/// The lower-case form of an ASCII letter; any other character itself.
pub open spec fn lower(c: char) -> char {
    if 'A' <= c <= 'Z' {
        (c as u32 + 32) as char
    } else {
        c
    }
}

/// `s` with its ASCII letters in lower case.
pub open spec fn lowered(s: Seq<char>) -> Seq<char> {
    s.map_values(|c: char| lower(c))
}

/// The lower-case form of an ASCII letter.
pub fn lower_char(c: char) -> (r: char)
    ensures
        r == lower(c),
{
    if 'A' <= c && c <= 'Z' {
        ((c as u8) + 32) as char
    } else {
        c
    }
}

/// `s` without the characters `c` at its start.
pub open spec fn without_leading(s: Seq<char>, c: char) -> Seq<char>
    decreases s.len(),
{
    if s.len() > 0 && s[0] == c {
        without_leading(s.skip(1), c)
    } else {
        s
    }
}

/// `s` without the characters `c` at its end.
pub open spec fn without_trailing(s: Seq<char>, c: char) -> Seq<char>
    decreases s.len(),
{
    if s.len() > 0 && s.last() == c {
        without_trailing(s.drop_last(), c)
    } else {
        s
    }
}

/// Where the characters of `v` from `from` up to `to` begin, behind leading `c`s.
pub fn skip_leading(v: &[char], from: usize, to: usize, c: char) -> (r: usize)
    requires
        from <= to <= v@.len(),
    ensures
        from <= r <= to,
        v@.subrange(r as int, to as int) == without_leading(
            v@.subrange(from as int, to as int),
            c,
        ),
{
    let ghost s = v@.subrange(from as int, to as int);
    let mut a: usize = from;
    while a < to && v[a] == c
        invariant
            from <= a <= to <= v@.len(),
            without_leading(s, c) == without_leading(v@.subrange(a as int, to as int), c),
        decreases to - a,
    {
        assert(v@.subrange(a as int, to as int).skip(1) =~= v@.subrange(a + 1, to as int));
        a += 1;
    }
    a
}

/// Where the characters of `v` from `from` up to `to` end, before trailing `c`s.
pub fn skip_trailing(v: &[char], from: usize, to: usize, c: char) -> (r: usize)
    requires
        from <= to <= v@.len(),
    ensures
        from <= r <= to,
        v@.subrange(from as int, r as int) == without_trailing(
            v@.subrange(from as int, to as int),
            c,
        ),
{
    let ghost s = v@.subrange(from as int, to as int);
    let mut b: usize = to;
    while from < b && v[b - 1] == c
        invariant
            from <= b <= to <= v@.len(),
            without_trailing(s, c) == without_trailing(v@.subrange(from as int, b as int), c),
        decreases b - from,
    {
        assert(v@.subrange(from as int, b as int).drop_last() =~= v@.subrange(from as int, b - 1));
        b = b - 1;
    }
    b
}

/// The index of the first `c` in `s`, its length when there is none.
pub open spec fn index_of(s: Seq<char>, c: char) -> int
    decreases s.len(),
{
    if s.len() == 0 {
        0
    } else if s[0] == c {
        0
    } else {
        1 + index_of(s.skip(1), c)
    }
}

/// The parts of `s` between the characters `c`.
pub open spec fn split_on(s: Seq<char>, c: char) -> Seq<Seq<char>>
    decreases s.len(),
{
    let i = index_of(s, c);
    if 0 <= i < s.len() {
        seq![s.take(i)] + split_on(s.skip(i + 1), c)
    } else {
        seq![s]
    }
}

/// What the index of a character means.
pub proof fn lemma_index_of(s: Seq<char>, c: char)
    ensures
        0 <= index_of(s, c) <= s.len(),
        index_of(s, c) < s.len() ==> s[index_of(s, c)] == c,
        forall|j: int| 0 <= j < index_of(s, c) ==> s[j] != c,
    decreases s.len(),
{
    if s.len() > 0 && s[0] != c {
        lemma_index_of(s.skip(1), c);
        let i = index_of(s.skip(1), c);
        assert forall|j: int| 0 <= j < 1 + i implies s[j] != c by {
            if j > 0 {
                assert(s.skip(1)[j - 1] == s[j]);
            }
        }
        if i < s.len() - 1 {
            assert(s.skip(1)[i] == s[i + 1]);
        }
    }
}

/// A position with `c` and none before it is the index of `c`.
pub proof fn lemma_index_of_is(s: Seq<char>, c: char, i: int)
    requires
        0 <= i <= s.len(),
        i < s.len() ==> s[i] == c,
        forall|j: int| 0 <= j < i ==> s[j] != c,
    ensures
        index_of(s, c) == i,
{
    lemma_index_of(s, c);
    let k = index_of(s, c);
    if k < i {
        assert(s[k] != c);
    }
}

/// Where the first `c` is among the characters of `v` from `from` up to `to`.
pub fn find_char(v: &[char], from: usize, to: usize, c: char) -> (r: usize)
    requires
        from <= to <= v@.len(),
    ensures
        r == from + index_of(v@.subrange(from as int, to as int), c),
        from <= r <= to,
{
    let ghost s = v@.subrange(from as int, to as int);
    let mut i: usize = from;
    while i < to && v[i] != c
        invariant
            from <= i <= to <= v@.len(),
            s == v@.subrange(from as int, to as int),
            forall|j: int| 0 <= j < i - from ==> s[j] != c,
        decreases to - i,
    {
        assert(s[i - from] == v@[i as int]);
        i += 1;
    }
    proof {
        lemma_index_of_is(s, c, i - from);
    }
    i
}

/// The characters of `v` in the range `p`.
pub open spec fn piece(v: Seq<char>, p: (usize, usize)) -> Seq<char> {
    v.subrange(p.0 as int, p.1 as int)
}

/// `parts` are ranges of `v` with the texts `texts`.
pub open spec fn pieces_are(v: Seq<char>, parts: Seq<(usize, usize)>, texts: Seq<Seq<char>>) -> bool {
    &&& parts.len() == texts.len()
    &&& forall|i: int|
        0 <= i < parts.len() ==> (#[trigger] parts[i]).0 <= parts[i].1 <= v.len() && piece(
            v,
            parts[i],
        ) == texts[i]
}

/// The ranges of the parts between the characters `c`, among the characters of
/// `v` from `from` up to `to`.
pub fn split_ranges(v: &[char], from: usize, to: usize, c: char) -> (r: Vec<(usize, usize)>)
    requires
        from <= to <= v@.len(),
    ensures
        pieces_are(v@, r@, split_on(v@.subrange(from as int, to as int), c)),
        r@.len() > 0,
{
    let ghost whole = split_on(v@.subrange(from as int, to as int), c);
    let ghost mut done: Seq<Seq<char>> = Seq::empty();
    let mut r: Vec<(usize, usize)> = Vec::new();
    let mut start: usize = from;
    assert(whole =~= done + split_on(v@.subrange(start as int, to as int), c));
    let mut i: usize = find_char(v, start, to, c);
    while i < to
        invariant
            from <= start <= i <= to <= v@.len(),
            i == start + index_of(v@.subrange(start as int, to as int), c),
            whole == done + split_on(v@.subrange(start as int, to as int), c),
            pieces_are(v@, r@, done),
        decreases to - i,
    {
        let ghost rest = v@.subrange(start as int, to as int);
        r.push((start, i));
        proof {
            let k = index_of(rest, c);
            let first = rest.take(k);
            assert(first =~= piece(v@, (start, i)));
            assert(rest.skip(k + 1) =~= v@.subrange(i + 1, to as int));
            assert(done + (seq![first] + split_on(rest.skip(k + 1), c)) =~= done.push(first)
                + split_on(rest.skip(k + 1), c));
            done = done.push(first);
        }
        start = i + 1;
        i = find_char(v, start, to, c);
    }
    r.push((start, to));
    proof {
        let rest = v@.subrange(start as int, to as int);
        assert(split_on(rest, c) =~= seq![rest]);
        assert(whole =~= done.push(rest));
    }
    r
}

/// The length of the run of characters at the start of `s` that are not white
/// space.
pub open spec fn word_len(s: Seq<char>) -> int
    decreases s.len(),
{
    if s.len() > 0 && !is_space(s[0]) {
        1 + word_len(s.skip(1))
    } else {
        0
    }
}

/// The words of `s`: its longest pieces without white space.
pub open spec fn words(s: Seq<char>) -> Seq<Seq<char>>
    decreases s.len(),
{
    if s.len() == 0 {
        Seq::empty()
    } else if is_space(s[0]) {
        words(s.skip(1))
    } else {
        let n = word_len(s);
        if 0 < n <= s.len() {
            seq![s.take(n)] + words(s.skip(n))
        } else {
            Seq::empty()
        }
    }
}

/// The ranges of the words among the characters of `v` from `from` up to `to`.
pub fn word_ranges(v: &[char], from: usize, to: usize) -> (r: Vec<(usize, usize)>)
    requires
        from <= to <= v@.len(),
    ensures
        pieces_are(v@, r@, words(v@.subrange(from as int, to as int))),
{
    let ghost all = words(v@.subrange(from as int, to as int));
    let mut r: Vec<(usize, usize)> = Vec::new();
    let mut i: usize = from;
    let ghost mut done: Seq<Seq<char>> = Seq::empty();
    while i < to
        invariant
            from <= i <= to <= v@.len(),
            all == done + words(v@.subrange(i as int, to as int)),
            pieces_are(v@, r@, done),
        decreases to - i,
    {
        let ghost s = v@.subrange(i as int, to as int);
        if is_space_char(v[i]) {
            assert(s.skip(1) =~= v@.subrange(i + 1, to as int));
            i += 1;
        } else {
            let start: usize = i;
            while i < to && !is_space_char(v[i])
                invariant
                    start <= i <= to <= v@.len(),
                    s == v@.subrange(start as int, to as int),
                    word_len(s) == (i - start) + word_len(v@.subrange(i as int, to as int)),
                decreases to - i,
            {
                assert(v@.subrange(i as int, to as int).skip(1) =~= v@.subrange(i + 1, to as int));
                i += 1;
            }
            let ghost n = i - start;
            assert(word_len(s) == n);
            assert(n > 0) by {
                assert(s[0] == v@[start as int]);
            }
            assert(s.skip(n) =~= v@.subrange(i as int, to as int));
            assert(s.take(n) =~= v@.subrange(start as int, i as int));
            let ghost rest = words(v@.subrange(i as int, to as int));
            assert(words(s) == seq![s.take(n)] + rest);
            r.push((start, i));
            proof {
                assert(done + (seq![s.take(n)] + rest) =~= done.push(s.take(n)) + rest);
                done = done.push(s.take(n));
            }
        }
    }
    assert(words(v@.subrange(i as int, to as int)) =~= Seq::empty());
    assert(all =~= done);
    r
}

/// The lower-case hexadecimal digit of `d`.
pub open spec fn hex_digit(d: nat) -> char {
    if d < 10 {
        (48 + d) as char
    } else {
        (87 + d) as char
    }
}

/// `b` in lower-case hexadecimal, two digits a byte.
pub open spec fn hex_of(b: Seq<u8>) -> Seq<char> {
    Seq::new(
        2 * b.len(),
        |i: int| hex_digit(if i % 2 == 0 { (b[i / 2] / 16) as nat } else { (b[i / 2] % 16) as nat }),
    )
}

/// The value of a hexadecimal digit of either case, `-1` of any other character.
pub open spec fn hex_value(c: char) -> int {
    if '0' <= c <= '9' {
        c as int - 48
    } else if 'a' <= c <= 'f' {
        c as int - 87
    } else if 'A' <= c <= 'F' {
        c as int - 55
    } else {
        -1
    }
}

/// `s` is an even number of hexadecimal digits.
pub open spec fn is_hex(s: Seq<char>) -> bool {
    s.len() % 2 == 0 && forall|i: int| 0 <= i < s.len() ==> hex_value(#[trigger] s[i]) >= 0
}

/// The bytes that `s` writes in hexadecimal.
pub open spec fn unhex(s: Seq<char>) -> Seq<u8> {
    Seq::new(s.len() / 2, |i: int| (hex_value(s[2 * i]) * 16 + hex_value(s[2 * i + 1])) as u8)
}

/// Hexadecimal text reads back as the bytes it was written from.
pub proof fn lemma_hex_roundtrip(b: Seq<u8>)
    ensures
        is_hex(hex_of(b)),
        unhex(hex_of(b)) == b,
{
    assert(unhex(hex_of(b)) =~= b);
}

/// Hexadecimal text spells the bytes whose own text is its lower-case form.
pub proof fn lemma_unhex_lowered(s: Seq<char>)
    requires
        is_hex(s),
    ensures
        hex_of(unhex(s)) == lowered(s),
{
    let b = unhex(s);
    let r = hex_of(b);
    let l = lowered(s);
    assert(r.len() == l.len());
    assert forall|i: int| 0 <= i < l.len() implies r[i] == l[i] by {
        let k = i / 2;
        assert(hex_value(s[2 * k]) >= 0 && hex_value(s[2 * k + 1]) >= 0);
        assert(b[k] == (hex_value(s[2 * k]) * 16 + hex_value(s[2 * k + 1])) as u8);
        assert(i == 2 * k || i == 2 * k + 1);
    }
    assert(r =~= l);
}

/// `n` in lower-case hexadecimal, without leading zeros.
pub open spec fn hex_number(n: nat) -> Seq<char>
    decreases n,
{
    if n < 16 {
        seq![hex_digit(n)]
    } else {
        hex_number(n / 16).push(hex_digit(n % 16))
    }
}

/// The character of a hexadecimal digit.
pub fn hex_digit_char(d: u8) -> (c: char)
    requires
        d < 16,
    ensures
        c == hex_digit(d as nat),
{
    if d < 10 {
        (48 + d) as char
    } else {
        (87 + d) as char
    }
}

/// Appends `n` in lower-case hexadecimal.
pub fn append_hex_number(out: &mut String, n: u64)
    ensures
        final(out)@ == old(out)@ + hex_number(n as nat),
    decreases n,
{
    if n >= 16 {
        append_hex_number(out, n / 16);
    }
    out.push(hex_digit_char((n % 16) as u8));
    assert(out@ =~= old(out)@ + hex_number(n as nat));
}

/// The value of a hexadecimal digit of either case.
pub fn hex_digit_value(c: char) -> (r: Option<u8>)
    ensures
        r is Some == (hex_value(c) >= 0),
        r matches Some(d) ==> d == hex_value(c) && d < 16,
{
    if '0' <= c && c <= '9' {
        Some((c as u32 - 48) as u8)
    } else if 'a' <= c && c <= 'f' {
        Some((c as u32 - 87) as u8)
    } else if 'A' <= c && c <= 'F' {
        Some((c as u32 - 55) as u8)
    } else {
        None
    }
}

/// The text with which `hex::decode` reports that `s` is no hexadecimal.
pub uninterp spec fn hex_error_text(s: Seq<char>) -> Seq<char>;

/// `hex::encode`: two lower-case digits for each byte, in order.
#[verifier::external_body]
pub(crate) fn hex_encode(b: &[u8]) -> (s: String)
    ensures
        s@ == hex_of(b@),
{
    hex::encode(b)
}

/// `hex::decode`: the bytes that the digits of either case write; an error,
/// with the text of its `Display`, for an odd number of digits or any other
/// character.
#[verifier::external_body]
pub(crate) fn hex_decode(s: &str) -> (r: Result<Vec<u8>, String>)
    ensures
        r is Ok == is_hex(s@),
        r matches Ok(b) ==> b@ == unhex(s@),
        r matches Err(e) ==> e@ == hex_error_text(s@),
{
    hex::decode(s).map_err(|e| e.to_string())
}

/// What `String::from_utf8_lossy` makes of bytes that are no UTF-8.
pub uninterp spec fn lossy_text(b: Seq<u8>) -> Seq<char>;

/// The text of `b`, with the standard replacement for what is no UTF-8.
pub open spec fn text_of(b: Seq<u8>) -> Seq<char> {
    if valid_utf8(b) {
        decode_utf8(b)
    } else {
        lossy_text(b)
    }
}

/// `String::from_utf8_lossy`: the text that UTF-8 bytes encode; of other bytes
/// a text that depends on them alone.
#[verifier::external_body]
pub(crate) fn utf8_lossy(b: &[u8]) -> (s: String)
    ensures
        s@ == if valid_utf8(b@) {
            decode_utf8(b@)
        } else {
            lossy_text(b@)
        },
{
    String::from_utf8_lossy(b).to_string()
}

/// `std::str::from_utf8`: the text that UTF-8 bytes encode; nothing for bytes that
/// are no UTF-8.
#[verifier::external_body]
pub(crate) fn utf8_checked(b: &[u8]) -> (r: Option<String>)
    ensures
        r is Some == valid_utf8(b@),
        r matches Some(s) ==> s@ == decode_utf8(b@),
{
    std::str::from_utf8(b).ok().map(|s| s.to_string())
}

/// A text is encoded piece by piece.
pub proof fn lemma_encode_concat(a: Seq<char>, b: Seq<char>)
    ensures
        encode_utf8(a + b) == encode_utf8(a) + encode_utf8(b),
    decreases a.len(),
{
    if a.len() == 0 {
        assert(a + b =~= b);
        assert(encode_utf8(a) + encode_utf8(b) =~= encode_utf8(b));
    } else {
        let t = a.drop_first();
        lemma_encode_concat(t, b);
        assert((a + b).drop_first() =~= t + b);
        assert((a + b)[0] == a[0]);
        assert(encode_utf8(a + b) =~= encode_utf8(a) + encode_utf8(b));
    }
}

/// The byte of an ASCII character stands in UTF-8 text for nothing else.
pub proof fn lemma_ascii_bytes(b: Seq<u8>, c: u8)
    requires
        c < 0x80,
        valid_utf8(b),
        forall|i: int| 0 <= i < decode_utf8(b).len() ==> #[trigger] decode_utf8(b)[i] != c as char,
    ensures
        forall|i: int| 0 <= i < b.len() ==> #[trigger] b[i] != c,
    decreases b.len(),
{
    if b.len() > 0 {
        let rest = pop_first_scalar(b);
        let n = length_of_first_scalar(b);
        let text = decode_utf8(b);
        assert(text == seq![decode_first_scalar(b) as char] + decode_utf8(rest));
        assert(text[0] == decode_first_scalar(b) as char);
        assert forall|i: int| 0 <= i < decode_utf8(rest).len() implies #[trigger] decode_utf8(rest)[i]
            != c as char by {
            assert(text[i + 1] == decode_utf8(rest)[i]);
        }
        lemma_ascii_bytes(rest, c);
        assert(b[0] != c) by {
            if b[0] == c {
                assert((c & 0x7f) as u32 == c as u32) by (bit_vector)
                    requires
                        c < 0x80,
                ;
            }
        }
        assert forall|i: int| 0 <= i < b.len() implies #[trigger] b[i] != c by {
            if i >= n {
                assert(rest[i - n] == b[i]);
            }
        }
    }
}

/// A number's decimal form reads back as the number.
pub proof fn lemma_decimal_value(n: nat)
    ensures
        digits_value(decimal(n)) == n,
        all_digits(decimal(n)),
        decimal(n)[0] != '+',
        trimmed(decimal(n)) == decimal(n),
        forall|i: int| 0 <= i < decimal(n).len() ==> '0' <= #[trigger] decimal(n)[i] <= '9',
    decreases n,
{
    let d = decimal(n);
    if n >= 10 {
        lemma_decimal_value(n / 10);
        assert(d.drop_last() =~= decimal(n / 10));
        assert(d[0] == decimal(n / 10)[0]);
    } else {
        assert(d.drop_last() =~= Seq::empty());
        assert(digits_value(Seq::empty()) == 0);
    }
    assert(d.last() == digit(n % 10));
    assert(!is_space(d[0]));
    assert(!is_space(d.last()));
}

/// The texts of a list of strings.
pub open spec fn texts(v: Seq<String>) -> Seq<Seq<char>> {
    v.map_values(|s: String| s@)
}

/// The text in quotes, with what cannot be printed escaped.
pub uninterp spec fn quoted(s: Seq<char>) -> Seq<char>;

/// `<str as std::fmt::Debug>::fmt`: the text in quotes, escaped. It depends on the text
/// alone.
#[verifier::external_body]
pub(crate) fn quote(s: &str) -> (r: String)
    ensures
        r@ == quoted(s@),
{
    format!("{:?}", s)
}

/// `a` is white space from end to end.
pub open spec fn is_blank_text(a: Seq<char>) -> bool {
    forall|i: int| 0 <= i < a.len() ==> is_space(#[trigger] a[i])
}

proof fn lemma_trimmed_start_parts(s: Seq<char>)
    ensures
        trimmed_start(s).len() <= s.len(),
        s == s.take(s.len() - trimmed_start(s).len()) + trimmed_start(s),
        is_blank_text(s.take(s.len() - trimmed_start(s).len())),
        trimmed_start(s).len() > 0 ==> !is_space(trimmed_start(s)[0]),
    decreases s.len(),
{
    if s.len() > 0 && is_space(s[0]) {
        let t = s.skip(1);
        lemma_trimmed_start_parts(t);
        let n = s.len() - trimmed_start(s).len();
        assert(s.take(n) =~= seq![s[0]] + t.take(n - 1));
        assert(s =~= s.take(n) + trimmed_start(s)) by {
            assert(t == t.take(n - 1) + trimmed_start(t));
            assert(s =~= seq![s[0]] + t);
            assert(seq![s[0]] + (t.take(n - 1) + trimmed_start(t)) =~= (seq![s[0]] + t.take(n - 1)) + trimmed_start(t));
        }
        assert forall|i: int| 0 <= i < s.take(n).len() implies is_space(#[trigger] s.take(n)[i]) by {
            if i > 0 {
                assert(s.take(n)[i] == t.take(n - 1)[i - 1]);
            }
        }
    } else {
        assert(s =~= s.take(0) + s);
    }
}

proof fn lemma_trimmed_end_parts(s: Seq<char>)
    ensures
        trimmed_end(s).len() <= s.len(),
        s == trimmed_end(s) + s.skip(trimmed_end(s).len() as int),
        is_blank_text(s.skip(trimmed_end(s).len() as int)),
        trimmed_end(s).len() > 0 ==> !is_space(trimmed_end(s).last()) && trimmed_end(s)[0] == s[0],
    decreases s.len(),
{
    if s.len() > 0 && is_space(s.last()) {
        let t = s.drop_last();
        lemma_trimmed_end_parts(t);
        let n = trimmed_end(s).len() as int;
        assert(s.skip(n) =~= t.skip(n).push(s.last()));
        assert(s =~= trimmed_end(s) + s.skip(n)) by {
            assert(s =~= t.push(s.last()));
            assert((trimmed_end(t) + t.skip(n)).push(s.last()) =~= trimmed_end(t) + t.skip(n).push(s.last()));
        }
        assert forall|i: int| 0 <= i < s.skip(n).len() implies is_space(#[trigger] s.skip(n)[i]) by {
            if i < t.skip(n).len() {
                assert(s.skip(n)[i] == t.skip(n)[i]);
            }
        }
    } else {
        assert(s =~= s + s.skip(s.len() as int));
    }
}

/// Trimming takes the white space off both ends and nothing else: what is left stands in
/// the text between two blank pieces, and neither begins nor ends with white space.
pub proof fn law_trimming_takes_off_white_space(v: &[char], from: usize, to: usize, r: (usize, usize))
    requires
        from <= to <= v@.len(),
        call_ensures(trim_range, (v, from, to), r),
    ensures
        ({
            let t = v@.subrange(r.0 as int, r.1 as int);
            &&& t.len() > 0 ==> !is_space(t[0]) && !is_space(t.last())
            &&& exists|a: Seq<char>, b: Seq<char>|
                #![trigger is_blank_text(a), is_blank_text(b)]
                v@.subrange(from as int, to as int) == a + t + b && is_blank_text(a) && is_blank_text(b)
        }),
{
    let s = v@.subrange(from as int, to as int);
    lemma_trimmed_start_parts(s);
    let u = trimmed_start(s);
    lemma_trimmed_end_parts(u);
    let t = trimmed_end(u);
    let a = s.take(s.len() - u.len());
    let b = u.skip(t.len() as int);
    assert(is_blank_text(a) && is_blank_text(b));
    assert(a + (t + b) =~= a + t + b);
}

/// The parts with the separator between them.
pub open spec fn put_together(parts: Seq<Seq<char>>, c: char) -> Seq<char>
    decreases parts.len(),
{
    if parts.len() == 0 {
        Seq::empty()
    } else if parts.len() == 1 {
        parts[0]
    } else {
        parts[0].push(c) + put_together(parts.skip(1), c)
    }
}

/// Splitting loses nothing: the parts, with the separator between them, are the text, and
/// no part holds the separator.
pub proof fn law_splitting_loses_nothing(s: Seq<char>, c: char)
    ensures
        split_on(s, c).len() > 0,
        put_together(split_on(s, c), c) == s,
        forall|i: int| 0 <= i < split_on(s, c).len() ==> !(#[trigger] split_on(s, c)[i]).contains(c),
    decreases s.len(),
{
    lemma_index_of(s, c);
    let i = index_of(s, c);
    let p = split_on(s, c);
    if i < s.len() {
        let rest = s.skip(i + 1);
        law_splitting_loses_nothing(rest, c);
        let q = split_on(rest, c);
        assert(p.skip(1) =~= q);
        assert(s =~= s.take(i).push(c) + rest);
        assert forall|k: int| 0 <= k < p.len() implies !(#[trigger] p[k]).contains(c) by {
            if k > 0 {
                assert(p[k] == q[k - 1]);
            }
        }
    } else {
        assert(p =~= seq![s]);
    }
}

/// The ranges that a text is split into are these parts.
pub proof fn law_ranges_are_the_parts(v: &[char], from: usize, to: usize, c: char, r: Vec<(usize, usize)>)
    requires
        from <= to <= v@.len(),
        call_ensures(split_ranges, (v, from, to, c), r),
    ensures
        put_together(Seq::new(r@.len(), |i: int| piece(v@, r@[i])), c) == v@.subrange(from as int, to as int),
{
    let s = v@.subrange(from as int, to as int);
    law_splitting_loses_nothing(s, c);
    assert(Seq::new(r@.len(), |i: int| piece(v@, r@[i])) =~= split_on(s, c));
}

/// `w` is not empty and holds no white space.
pub open spec fn is_word(w: Seq<char>) -> bool {
    w.len() > 0 && forall|k: int| 0 <= k < w.len() ==> !is_space(#[trigger] w[k])
}

proof fn lemma_words_are_words(s: Seq<char>)
    ensures
        forall|i: int| 0 <= i < words(s).len() ==> is_word(#[trigger] words(s)[i]),
    decreases s.len(),
{
    if s.len() > 0 {
        if is_space(s[0]) {
            lemma_words_are_words(s.skip(1));
            assert(words(s) == words(s.skip(1)));
        } else {
            lemma_word_len(s);
            let n = word_len(s);
            if n > 0 {
                lemma_words_are_words(s.skip(n));
                assert(is_word(s.take(n)));
            }
            let w = words(s);
            assert forall|i: int| 0 <= i < w.len() implies is_word(#[trigger] w[i]) by {
                if i > 0 {
                    assert(w[i] == words(s.skip(n))[i - 1]);
                }
            }
        }
    } else {
        assert(words(s).len() == 0);
    }
}

proof fn lemma_word_len(s: Seq<char>)
    ensures
        0 <= word_len(s) <= s.len(),
        forall|k: int| 0 <= k < word_len(s) ==> !is_space(#[trigger] s[k]),
        word_len(s) < s.len() ==> is_space(s[word_len(s)]),
    decreases s.len(),
{
    if s.len() > 0 && !is_space(s[0]) {
        lemma_word_len(s.skip(1));
        assert forall|k: int| 0 <= k < word_len(s) implies !is_space(#[trigger] s[k]) by {
            if k > 0 {
                assert(s.skip(1)[k - 1] == s[k]);
            }
        }
    }
}

/// Every word is a piece without white space, and none is empty.
pub proof fn law_words_hold_no_white_space(v: &[char], from: usize, to: usize, r: Vec<(usize, usize)>, i: int)
    requires
        from <= to <= v@.len(),
        call_ensures(word_ranges, (v, from, to), r),
        0 <= i < r@.len(),
    ensures
        is_word(piece(v@, r@[i])),
{
    let s = v@.subrange(from as int, to as int);
    lemma_words_are_words(s);
    assert(piece(v@, r@[i]) == words(s)[i]);
}

/// A number that was written in digits is read as that number where it is allowed, and not
/// at all where it is too large.
pub proof fn law_numbers_read_back(n: u64, written: String, v: &[char], to: usize, max: u64, r: Option<u64>)
    requires
        call_ensures(decimal_string, (n,), written),
        v@ == written@,
        to == v@.len(),
        call_ensures(parse_long_number, (v, 0, to, max), r),
    ensures
        r == if n <= max {
            Some(n)
        } else {
            None
        },
{
    lemma_decimal_value(n as nat);
    assert(v@.subrange(0, to as int) =~= v@);
}

/// Lower case changes the twenty-six capital letters and nothing else.
pub proof fn law_lower_case(c: char, r: char)
    requires
        call_ensures(lower_char, (c,), r),
    ensures
        'A' <= c <= 'Z' ==> 'a' <= r <= 'z' && r as u32 - 'a' as u32 == c as u32 - 'A' as u32,
        !('A' <= c <= 'Z') ==> r == c,
{
}

/// A word alone is the only word of its text.
pub proof fn lemma_one_word(w: Seq<char>)
    requires
        is_word(w),
    ensures
        word_len(w) == w.len(),
        words(w) == seq![w],
{
    lemma_word_len(w);
    let n = word_len(w);
    if n < w.len() {
        assert(is_space(w[n]));
    }
    assert(w.take(n) =~= w);
    assert(w.skip(n) =~= Seq::empty());
    assert(words(w.skip(n)) =~= Seq::empty());
    assert(words(w) =~= seq![w]);
}

/// The words of a word, a space and a text are that word and those of the text.
pub proof fn lemma_words_front(w: Seq<char>, rest: Seq<char>)
    requires
        is_word(w),
    ensures
        words(w.push(' ') + rest) == seq![w] + words(rest),
{
    let s = w.push(' ') + rest;
    lemma_word_len(s);
    let n = word_len(s);
    let k = w.len() as int;
    assert(s[k] == ' ' && is_space(s[k]));
    if n < k {
        assert(s[n] == w[n]);
    }
    assert(n == k);
    assert(s.take(k) =~= w);
    assert(s.skip(k)[0] == ' ');
    assert(s.skip(k).skip(1) =~= rest);
    assert(words(s.skip(k)) == words(rest));
}

} // verus!
