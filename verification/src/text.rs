//! Verified byte-string utilities.
//!
//! All note text in this library is UTF-8 held as bytes, so ranges recorded
//! into buffers are exact byte ranges. The helpers here give the string
//! operations the parsers need, each specified against a spec-level
//! definition over `Seq<u8>`.

use vstd::prelude::*;

verus! {

/// ASCII whitespace: space, tab, newline, carriage return, form feed.
pub open spec fn is_space(b: u8) -> bool {
    b == 32 || b == 9 || b == 10 || b == 13 || b == 12
}

/// Executable twin of `is_space`.
pub fn byte_is_space(b: u8) -> (r: bool)
    ensures
        r == is_space(b),
{
    b == 32 || b == 9 || b == 10 || b == 13 || b == 12
}

/// `s` with leading whitespace removed.
pub open spec fn trim_start_spec(s: Seq<u8>) -> Seq<u8>
    decreases s.len(),
{
    if s.len() > 0 && is_space(s[0]) {
        trim_start_spec(s.skip(1))
    } else {
        s
    }
}

/// `s` with trailing whitespace removed.
pub open spec fn trim_end_spec(s: Seq<u8>) -> Seq<u8>
    decreases s.len(),
{
    if s.len() > 0 && is_space(s[s.len() - 1]) {
        trim_end_spec(s.take(s.len() - 1))
    } else {
        s
    }
}

/// `s` with whitespace removed from both ends.
pub open spec fn trim_spec(s: Seq<u8>) -> Seq<u8> {
    trim_end_spec(trim_start_spec(s))
}

proof fn lemma_trim_start_range(s: Seq<u8>, i: int)
    requires
        0 <= i <= s.len(),
        forall|j: int| 0 <= j < i ==> is_space(s[j]),
        i < s.len() ==> !is_space(s[i]),
    ensures
        trim_start_spec(s) =~= s.skip(i),
    decreases i,
{
    if i > 0 {
        assert(trim_start_spec(s) == trim_start_spec(s.skip(1)));
        lemma_trim_start_range(s.skip(1), i - 1);
        assert(s.skip(1).skip(i - 1) =~= s.skip(i));
    } else {
        if s.len() > 0 && is_space(s[0]) {
            assert(false);
        }
        assert(s.skip(0) =~= s);
    }
}

proof fn lemma_trim_end_range(s: Seq<u8>, i: int)
    requires
        0 <= i <= s.len(),
        forall|j: int| i <= j < s.len() ==> is_space(s[j]),
        i > 0 ==> !is_space(s[i - 1]),
    ensures
        trim_end_spec(s) =~= s.take(i),
    decreases s.len() - i,
{
    if i < s.len() {
        assert(is_space(s[s.len() - 1]));
        assert(trim_end_spec(s) == trim_end_spec(s.take(s.len() - 1)));
        lemma_trim_end_range(s.take(s.len() - 1), i);
        assert(s.take(s.len() - 1).take(i) =~= s.take(i));
    } else {
        if s.len() > 0 && is_space(s[s.len() - 1]) {
            assert(false);
        }
        assert(s.take(s.len() as int) =~= s);
    }
}

/// Copy of `s` with ASCII whitespace trimmed from both ends.
pub fn trim(s: &[u8]) -> (r: Vec<u8>)
    ensures
        r@ =~= trim_spec(s@),
{
    let len: usize = s.len();
    let mut start: usize = 0;
    while start < len && byte_is_space(s[start])
        invariant
            0 <= start <= len,
            len == s@.len(),
            forall|j: int| 0 <= j < start ==> is_space(s@[j]),
        decreases len - start,
    {
        start = start + 1;
    }
    let mut end: usize = len;
    while end > start && byte_is_space(s[end - 1])
        invariant
            start <= end <= len,
            len == s@.len(),
            forall|j: int| 0 <= j < start ==> is_space(s@[j]),
            start < len ==> !is_space(s@[start as int]),
            forall|j: int| end <= j < len ==> is_space(s@[j]),
        decreases end,
    {
        end = end - 1;
    }
    let mut r: Vec<u8> = Vec::new();
    let mut i: usize = start;
    while i < end
        invariant
            start <= i <= end <= len,
            len == s@.len(),
            r@ =~= s@.subrange(start as int, i as int),
        decreases end - i,
    {
        r.push(s[i]);
        i = i + 1;
    }
    proof {
        lemma_trim_start_range(s@, start as int);
        let t = s@.skip(start as int);
        lemma_trim_end_range(t, end - start);
        assert(t.take(end - start) =~= s@.subrange(start as int, end as int));
        assert(r@ =~= s@.subrange(start as int, end as int));
    }
    r
}

/// Lowercases one ASCII byte; other bytes are unchanged.
pub open spec fn lower_byte(b: u8) -> u8 {
    if 65 <= b <= 90 {
        (b + 32) as u8
    } else {
        b
    }
}

/// `s` with every ASCII letter lowercased.
pub open spec fn lower_spec(s: Seq<u8>) -> Seq<u8> {
    s.map_values(|b: u8| lower_byte(b))
}

/// Copy of `s` with ASCII letters lowercased.
pub fn to_lowercase(s: &[u8]) -> (r: Vec<u8>)
    ensures
        r@ =~= lower_spec(s@),
{
    let mut r: Vec<u8> = Vec::new();
    let mut i: usize = 0;
    while i < s.len()
        invariant
            0 <= i <= s@.len(),
            r@.len() == i,
            forall|j: int| 0 <= j < i ==> r@[j] == lower_byte(s@[j]),
        decreases s@.len() - i,
    {
        let b: u8 = s[i];
        if 65 <= b && b <= 90 {
            r.push(b + 32);
        } else {
            r.push(b);
        }
        i = i + 1;
    }
    r
}

/// Whether the bytes of `n` appear at position `i` of `h`.
pub open spec fn matches_at(h: Seq<u8>, n: Seq<u8>, i: int) -> bool {
    0 <= i && i + n.len() <= h.len() && h.subrange(i, i + n.len()) =~= n
}

/// Whether `n` occurs anywhere in `h`.
pub open spec fn contains_seq(h: Seq<u8>, n: Seq<u8>) -> bool {
    exists|i: int| matches_at(h, n, i)
}

/// Whether `n` occurs at position `i` of `h`; executable.
pub fn check_match_at(h: &[u8], n: &[u8], i: usize) -> (r: bool)
    requires
        i + n@.len() <= h@.len(),
    ensures
        r == matches_at(h@, n@, i as int),
{
    let hl: usize = h.len();
    let mut j: usize = 0;
    while j < n.len()
        invariant
            0 <= j <= n@.len(),
            i + n@.len() <= h@.len(),
            hl == h@.len(),
            forall|k: int| 0 <= k < j ==> h@[i + k] == n@[k],
        decreases n@.len() - j,
    {
        if h[i + j] != n[j] {
            assert(h@.subrange(i as int, i + n@.len())[j as int] != n@[j as int]);
            return false;
        }
        j = j + 1;
    }
    assert(h@.subrange(i as int, i + n@.len()) =~= n@);
    true
}

/// Index of the first occurrence of `n` in `h`, if any.
pub fn find_seq(h: &[u8], n: &[u8]) -> (r: Option<usize>)
    ensures
        match r {
            Some(i) => matches_at(h@, n@, i as int) && forall|j: int|
                0 <= j < i ==> !matches_at(h@, n@, j),
            None => !contains_seq(h@, n@),
        },
{
    if n.len() > h.len() {
        return None;
    }
    if n.len() == 0 {
        assert(h@.subrange(0, 0) =~= n@);
        return Some(0);
    }
    let last: usize = h.len() - n.len();
    let mut i: usize = 0;
    while i <= last
        invariant
            0 <= i <= last + 1,
            n@.len() >= 1,
            last == h@.len() - n@.len(),
            last < usize::MAX,
            forall|j: int| 0 <= j < i ==> !matches_at(h@, n@, j),
        decreases last + 1 - i,
    {
        if check_match_at(h, n, i) {
            return Some(i);
        }
        i = i + 1;
    }
    assert(forall|j: int| matches_at(h@, n@, j) ==> 0 <= j <= last as int);
    None
}

/// Whether `n` occurs anywhere in `h`; executable.
pub fn contains_bytes(h: &[u8], n: &[u8]) -> (r: bool)
    ensures
        r == contains_seq(h@, n@),
{
    find_seq(h, n).is_some()
}

/// Whether two byte strings hold the same bytes.
pub fn bytes_eq(a: &[u8], b: &[u8]) -> (r: bool)
    ensures
        r == (a@ =~= b@),
{
    if a.len() != b.len() {
        return false;
    }
    let mut i: usize = 0;
    while i < a.len()
        invariant
            0 <= i <= a@.len(),
            a@.len() == b@.len(),
            forall|j: int| 0 <= j < i ==> a@[j] == b@[j],
        decreases a@.len() - i,
    {
        if a[i] != b[i] {
            return false;
        }
        i = i + 1;
    }
    true
}

/// Whether `s` starts with `p`.
pub open spec fn starts_with_spec(s: Seq<u8>, p: Seq<u8>) -> bool {
    p.len() <= s.len() && s.take(p.len() as int) =~= p
}

/// Whether `s` ends with `p`.
pub open spec fn ends_with_spec(s: Seq<u8>, p: Seq<u8>) -> bool {
    p.len() <= s.len() && s.skip(s.len() - p.len()) =~= p
}

/// Whether `s` starts with `p`; executable.
pub fn starts_with(s: &[u8], p: &[u8]) -> (r: bool)
    ensures
        r == starts_with_spec(s@, p@),
{
    if p.len() > s.len() {
        return false;
    }
    let r = check_match_at(s, p, 0);
    assert(s@.subrange(0, p@.len() as int) =~= s@.take(p@.len() as int));
    r
}

/// Whether `s` ends with `p`; executable.
pub fn ends_with(s: &[u8], p: &[u8]) -> (r: bool)
    ensures
        r == ends_with_spec(s@, p@),
{
    if p.len() > s.len() {
        return false;
    }
    let at: usize = s.len() - p.len();
    let r = check_match_at(s, p, at);
    assert(s@.subrange(at as int, at + p@.len()) =~= s@.skip(s@.len() - p@.len()));
    r
}

/// Copy of `s[from..to]`.
pub fn subrange_vec(s: &[u8], from: usize, to: usize) -> (r: Vec<u8>)
    requires
        0 <= from <= to <= s@.len(),
    ensures
        r@ =~= s@.subrange(from as int, to as int),
{
    let mut r: Vec<u8> = Vec::new();
    let mut i: usize = from;
    while i < to
        invariant
            from <= i <= to <= s@.len(),
            r@ =~= s@.subrange(from as int, i as int),
        decreases to - i,
    {
        r.push(s[i]);
        i = i + 1;
    }
    r
}

/// Index of the first occurrence of byte `b` in `s`, or `s.len()` if absent.
pub open spec fn find_byte_spec(s: Seq<u8>, b: u8) -> int
    decreases s.len(),
{
    if s.len() == 0 {
        0
    } else if s[0] == b {
        0
    } else {
        1 + find_byte_spec(s.skip(1), b)
    }
}

pub proof fn lemma_find_byte_spec(s: Seq<u8>, b: u8)
    ensures
        0 <= find_byte_spec(s, b) <= s.len(),
        find_byte_spec(s, b) < s.len() ==> s[find_byte_spec(s, b)] == b,
        forall|j: int| 0 <= j < find_byte_spec(s, b) ==> s[j] != b,
    decreases s.len(),
{
    if s.len() > 0 && s[0] != b {
        lemma_find_byte_spec(s.skip(1), b);
        assert forall|j: int| 0 <= j < find_byte_spec(s, b) implies s[j] != b by {
            if j > 0 {
                assert(s.skip(1)[j - 1] != b);
            }
        }
    }
}

proof fn lemma_find_byte_at(s: Seq<u8>, b: u8, i: int)
    requires
        0 <= i <= s.len(),
        forall|j: int| 0 <= j < i ==> s[j] != b,
        i < s.len() ==> s[i] == b,
    ensures
        find_byte_spec(s, b) == i,
    decreases i,
{
    if s.len() == 0 {
    } else if i == 0 {
    } else {
        assert(s[0] != b);
        lemma_find_byte_at(s.skip(1), b, i - 1);
    }
}

/// First position of byte `b` in `s`, or `s.len()` when `b` is absent.
pub fn find_byte(s: &[u8], b: u8) -> (r: usize)
    ensures
        r == find_byte_spec(s@, b),
        r <= s@.len(),
{
    let mut i: usize = 0;
    while i < s.len()
        invariant
            0 <= i <= s@.len(),
            forall|j: int| 0 <= j < i ==> s@[j] != b,
        decreases s@.len() - i,
    {
        if s[i] == b {
            proof {
                lemma_find_byte_at(s@, b, i as int);
            }
            return i;
        }
        i = i + 1;
    }
    proof {
        lemma_find_byte_at(s@, b, s@.len() as int);
    }
    i
}

/// Decimal value of a digit string (most significant digit first).
pub open spec fn dec_value(s: Seq<u8>) -> int
    decreases s.len(),
{
    if s.len() == 0 {
        0
    } else {
        dec_value(s.drop_last()) * 10 + (s.last() - 48)
    }
}

/// Whether every byte of `s` is an ASCII digit.
pub open spec fn all_digits(s: Seq<u8>) -> bool {
    forall|i: int| 0 <= i < s.len() ==> 48 <= #[trigger] s[i] <= 57
}

/// The digit part of an unsigned decimal literal: everything after an
/// optional leading `+`.
pub open spec fn digits_part(s: Seq<u8>) -> Seq<u8> {
    if s.len() > 0 && s[0] == 43 {
        s.skip(1)
    } else {
        s
    }
}

/// Whether `s` is an unsigned decimal literal that fits in a `u64`,
/// in the shape `u64::from_str` accepts: an optional `+`, then at
/// least one digit.
pub open spec fn is_u64_literal(s: Seq<u8>) -> bool {
    let d = digits_part(s);
    d.len() > 0 && all_digits(d) && dec_value(d) <= u64::MAX
}

proof fn lemma_dec_value_take(s: Seq<u8>, i: int)
    requires
        0 <= i < s.len(),
    ensures
        dec_value(s.take(i + 1)) == dec_value(s.take(i)) * 10 + (s[i] - 48),
{
    assert(s.take(i + 1).drop_last() =~= s.take(i));
    assert(s.take(i + 1).last() == s[i]);
}

/// Parses an unsigned 64-bit decimal literal, as `str::parse::<u64>` does:
/// an optional leading `+`, then one or more digits; overflow fails.
pub fn parse_u64(s: &[u8]) -> (r: Option<u64>)
    ensures
        r.is_some() == is_u64_literal(s@),
        r.is_some() ==> r->0 == dec_value(digits_part(s@)),
{
    let start: usize = if s.len() > 0 && s[0] == 43 {
        1
    } else {
        0
    };
    proof {
        assert(digits_part(s@) =~= s@.skip(start as int));
    }
    if s.len() == start {
        return None;
    }
    let ghost d = s@.skip(start as int);
    let mut acc: u64 = 0;
    let mut i: usize = start;
    while i < s.len()
        invariant
            start <= i <= s@.len(),
            start < s@.len(),
            d =~= s@.skip(start as int),
            d =~= digits_part(s@),
            all_digits(d.take(i - start)),
            acc == dec_value(d.take(i - start)),
        decreases s@.len() - i,
    {
        let b: u8 = s[i];
        if b < 48 || b > 57 {
            assert(d[i - start] == b);
            assert(!all_digits(d));
            return None;
        }
        let digit: u64 = (b - 48) as u64;
        if acc > (u64::MAX - digit) / 10 {
            proof {
                lemma_dec_value_take(d, i - start);
                assert(dec_value(d.take(i - start + 1)) > u64::MAX) by (nonlinear_arith)
                    requires
                        dec_value(d.take(i - start + 1)) == dec_value(d.take(i - start)) * 10
                            + digit,
                        dec_value(d.take(i - start)) > (u64::MAX - digit) / 10,
                        0 <= digit <= 9,
                ;
                if all_digits(d) {
                    lemma_dec_value_prefix_le(d, i - start + 1);
                }
            }
            return None;
        }
        proof {
            lemma_dec_value_take(d, i - start);
            assert(acc * 10 + digit <= u64::MAX) by (nonlinear_arith)
                requires
                    acc <= (u64::MAX - digit) / 10,
                    digit <= 9,
            ;
        }
        acc = acc * 10 + digit;
        i = i + 1;
        assert(d.take(i - start).drop_last() =~= d.take(i - 1 - start));
    }
    assert(d.take(d.len() as int) =~= d);
    Some(acc)
}

/// The value of an all-digit string is never negative.
proof fn lemma_dec_value_nonneg(s: Seq<u8>)
    requires
        all_digits(s),
    ensures
        dec_value(s) >= 0,
    decreases s.len(),
{
    if s.len() > 0 {
        assert(all_digits(s.drop_last()));
        lemma_dec_value_nonneg(s.drop_last());
        assert(dec_value(s.drop_last()) * 10 >= 0) by (nonlinear_arith)
            requires
                dec_value(s.drop_last()) >= 0,
        ;
    }
}

/// A longer digit string is worth at least as much as its prefix.
proof fn lemma_dec_value_prefix_le(s: Seq<u8>, i: int)
    requires
        0 <= i <= s.len(),
        all_digits(s),
    ensures
        dec_value(s.take(i)) <= dec_value(s),
    decreases s.len() - i,
{
    if i < s.len() {
        lemma_dec_value_take(s, i);
        lemma_dec_value_prefix_le(s, i + 1);
        assert(all_digits(s.take(i)));
        lemma_dec_value_nonneg(s.take(i));
        assert(dec_value(s.take(i)) <= dec_value(s.take(i)) * 10 + (s[i] - 48))
            by (nonlinear_arith)
            requires
                dec_value(s.take(i)) >= 0,
                48 <= s[i] <= 57,
        ;
    } else {
        assert(s.take(i) =~= s);
    }
}

/// Decimal digits of `n`, most significant first: nonempty, all digits,
/// no leading zero unless `n` is zero, and reading them back gives `n`.
pub fn format_u64(n: u64) -> (r: Vec<u8>)
    ensures
        r@.len() > 0,
        all_digits(r@),
        dec_value(r@) == n,
        r@[0] == 48 ==> n == 0 && r@.len() == 1,
    decreases n,
{
    if n < 10 {
        let mut r: Vec<u8> = Vec::new();
        r.push((n as u8) + 48);
        proof {
            assert(r@.drop_last() =~= Seq::<u8>::empty());
            assert(dec_value(Seq::<u8>::empty()) == 0);
            assert(r@.last() == n + 48);
        }
        r
    } else {
        let mut r = format_u64(n / 10);
        let ghost prev = r@;
        let digit: u8 = ((n % 10) as u8) + 48;
        r.push(digit);
        proof {
            assert(r@.drop_last() =~= prev);
            assert(r@.last() == digit);
            assert(dec_value(r@) == dec_value(prev) * 10 + (digit - 48));
            assert(n == (n / 10) * 10 + n % 10) by (nonlinear_arith);
            assert(r@[0] == prev[0]);
        }
        r
    }
}

/// Joins the byte strings of `parts` with `sep` between consecutive parts.
pub open spec fn join_spec(parts: Seq<Seq<u8>>, sep: Seq<u8>) -> Seq<u8>
    decreases parts.len(),
{
    if parts.len() == 0 {
        Seq::empty()
    } else if parts.len() == 1 {
        parts[0]
    } else {
        parts[0] + sep + join_spec(parts.skip(1), sep)
    }
}

/// Splits `s` on newline bytes the way `str::lines` does: `\n` separates
/// lines, a final trailing line break produces no empty final line, and a
/// `\r` immediately before a `\n` is dropped.
pub open spec fn lines_spec(s: Seq<u8>) -> Seq<Seq<u8>>
    decreases s.len(),
    via lines_spec_decreases
{
    if s.len() == 0 {
        Seq::empty()
    } else {
        let k = find_byte_spec(s, 10);
        if k < s.len() {
            seq![strip_cr(s.take(k))] + lines_spec(s.skip(k + 1))
        } else {
            seq![strip_cr(s)]
        }
    }
}

#[via_fn]
proof fn lines_spec_decreases(s: Seq<u8>) {
    lemma_find_byte_spec(s, 10);
}

/// Drops one trailing carriage return, if present.
pub open spec fn strip_cr(s: Seq<u8>) -> Seq<u8> {
    if s.len() > 0 && s[s.len() - 1] == 13 {
        s.take(s.len() - 1)
    } else {
        s
    }
}

/// Splits `s` into lines, as `str::lines` does.
pub fn split_lines(s: &[u8]) -> (r: Vec<Vec<u8>>)
    ensures
        r@.map_values(|l: Vec<u8>| l@) =~= lines_spec(s@),
{
    let mut r: Vec<Vec<u8>> = Vec::new();
    let mut pos: usize = 0;
    proof {
        assert(s@.skip(0) =~= s@);
        assert(r@.map_values(|l: Vec<u8>| l@) =~= Seq::<Seq<u8>>::empty());
    }
    while pos < s.len()
        invariant
            0 <= pos <= s@.len(),
            lines_spec(s@) =~= r@.map_values(|l: Vec<u8>| l@) + lines_spec(s@.skip(pos as int)),
        decreases s@.len() - pos,
    {
        let ghost rest = s@.skip(pos as int);
        let mut k: usize = pos;
        while k < s.len() && s[k] != 10
            invariant
                pos <= k <= s@.len(),
                forall|j: int| pos <= j < k ==> s@[j] != 10,
            decreases s@.len() - k,
        {
            k = k + 1;
        }
        proof {
            assert(forall|j: int| 0 <= j < k - pos ==> rest[j] != 10);
            lemma_find_byte_at(rest, 10, k - pos);
        }
        let mut end: usize = k;
        if end > pos && s[end - 1] == 13 {
            end = end - 1;
        }
        let piece = subrange_vec(s, pos, end);
        proof {
            assert(rest.take(k - pos) =~= s@.subrange(pos as int, k as int));
            assert(strip_cr(rest.take(k - pos)) =~= s@.subrange(pos as int, end as int));
        }
        r.push(piece);
        if k < s.len() {
            proof {
                assert(rest.skip(k - pos + 1) =~= s@.skip(k + 1));
                assert(lines_spec(rest) =~= seq![strip_cr(rest.take(k - pos))] + lines_spec(
                    s@.skip(k + 1),
                ));
                assert(r@.map_values(|l: Vec<u8>| l@) =~= r@.map_values(
                    |l: Vec<u8>| l@,
                ).drop_last().push(s@.subrange(pos as int, end as int)));
            }
            pos = k + 1;
        } else {
            proof {
                assert(lines_spec(rest) =~= seq![strip_cr(rest.take(k - pos))]);
                assert(r@.map_values(|l: Vec<u8>| l@) =~= r@.map_values(
                    |l: Vec<u8>| l@,
                ).drop_last().push(s@.subrange(pos as int, end as int)));
                assert(lines_spec(s@.skip(s@.len() as int)) =~= Seq::<Seq<u8>>::empty());
            }
            pos = s.len();
        }
    }
    assert(lines_spec(s@.skip(pos as int)) =~= Seq::<Seq<u8>>::empty());
    r
}


/// The bytes of an ASCII string literal, character by character.
pub open spec fn str_bytes(s: &str) -> Seq<u8> {
    Seq::new(s@.len(), |i: int| s@[i] as u8)
}

/// Byte view of an ASCII string slice.
pub fn lit_bytes(s: &str) -> (r: &[u8])
    requires
        vstd::string::is_ascii(s),
    ensures
        r@ =~= str_bytes(s),
{
    proof {
        vstd::string::is_ascii_spec_bytes(s);
    }
    s.as_bytes()
}

/// Index of the first occurrence of `n` in `h`, or `h.len()` when `n` is
/// absent (for a nonempty `n`).
pub open spec fn find_sub_spec(h: Seq<u8>, n: Seq<u8>) -> int
    decreases h.len(),
{
    if matches_at(h, n, 0) {
        0
    } else if h.len() == 0 {
        0
    } else {
        1 + find_sub_spec(h.skip(1), n)
    }
}

pub proof fn lemma_find_sub_spec(h: Seq<u8>, n: Seq<u8>)
    requires
        n.len() > 0,
    ensures
        0 <= find_sub_spec(h, n) <= h.len(),
        find_sub_spec(h, n) < h.len() ==> matches_at(h, n, find_sub_spec(h, n)),
        forall|j: int| 0 <= j < find_sub_spec(h, n) ==> !matches_at(h, n, j),
    decreases h.len(),
{
    if !matches_at(h, n, 0) && h.len() > 0 {
        lemma_find_sub_spec(h.skip(1), n);
        let k = find_sub_spec(h, n);
        if k - 1 < h.skip(1).len() && matches_at(h.skip(1), n, k - 1) {
            assert(h.subrange(k, k + n.len()) =~= h.skip(1).subrange(k - 1, k - 1 + n.len()));
        }
        assert forall|j: int| 0 <= j < k implies !matches_at(h, n, j) by {
            if j > 0 {
                assert(!matches_at(h.skip(1), n, j - 1));
                if matches_at(h, n, j) {
                    assert(h.skip(1).subrange(j - 1, j - 1 + n.len()) =~= h.subrange(
                        j,
                        j + n.len(),
                    ));
                }
            }
        }
    }
}

proof fn lemma_find_sub_at(h: Seq<u8>, n: Seq<u8>, i: int)
    requires
        n.len() > 0,
        0 <= i <= h.len(),
        forall|j: int| 0 <= j < i ==> !matches_at(h, n, j),
        i < h.len() ==> matches_at(h, n, i),
        i == h.len() ==> !contains_seq(h, n),
    ensures
        find_sub_spec(h, n) == i,
    decreases i,
{
    if h.len() == 0 {
    } else if i == 0 {
        if !matches_at(h, n, 0) {
            assert(forall|j: int| !matches_at(h, n, j));
            assert(h.len() > 0);
            lemma_find_sub_spec(h.skip(1), n);
            if find_sub_spec(h.skip(1), n) < h.skip(1).len() {
                let k = find_sub_spec(h.skip(1), n);
                assert(matches_at(h.skip(1), n, k));
                assert(h.subrange(k + 1, k + 1 + n.len()) =~= h.skip(1).subrange(
                    k,
                    k + n.len(),
                ));
                assert(matches_at(h, n, k + 1));
            }
            assert(i == h.len() ==> !contains_seq(h, n));
            assert(false);
        }
    } else {
        assert(!matches_at(h, n, 0));
        assert forall|j: int| 0 <= j < i - 1 implies !matches_at(h.skip(1), n, j) by {
            if matches_at(h.skip(1), n, j) {
                assert(h.subrange(j + 1, j + 1 + n.len()) =~= h.skip(1).subrange(
                    j,
                    j + n.len(),
                ));
                assert(matches_at(h, n, j + 1));
                assert(!matches_at(h, n, j + 1));
            }
        }
        if i - 1 < h.skip(1).len() {
            assert(matches_at(h, n, i));
            assert(h.skip(1).subrange(i - 1, i - 1 + n.len()) =~= h.subrange(i, i + n.len()));
            assert(matches_at(h.skip(1), n, i - 1));
        } else {
            assert(i == h.len());
            if contains_seq(h.skip(1), n) {
                let j = choose|j: int| matches_at(h.skip(1), n, j);
                assert(h.subrange(j + 1, j + 1 + n.len()) =~= h.skip(1).subrange(
                    j,
                    j + n.len(),
                ));
                assert(matches_at(h, n, j + 1));
                assert(false);
            }
        }
        lemma_find_sub_at(h.skip(1), n, i - 1);
    }
}

/// First position of `n` in `h`, or `h.len()` when `n` does not occur.
pub fn find_sub(h: &[u8], n: &[u8]) -> (r: usize)
    requires
        n@.len() > 0,
    ensures
        r == find_sub_spec(h@, n@),
        r <= h@.len(),
{
    match find_seq(h, n) {
        Some(i) => {
            proof {
                lemma_find_sub_at(h@, n@, i as int);
            }
            i
        },
        None => {
            proof {
                lemma_find_sub_at(h@, n@, h@.len() as int);
            }
            h.len()
        },
    }
}

/// Appending one more part extends a nonempty join by a separator and
/// that part.
pub proof fn lemma_join_push(parts: Seq<Seq<u8>>, sep: Seq<u8>, p: Seq<u8>)
    requires
        parts.len() >= 1,
    ensures
        join_spec(parts.push(p), sep) =~= join_spec(parts, sep) + sep + p,
    decreases parts.len(),
{
    if parts.len() == 1 {
        assert(parts.push(p).skip(1) =~= seq![p]);
        assert(join_spec(parts.push(p), sep) == parts[0] + sep + join_spec(seq![p], sep));
    } else {
        assert(parts.push(p).skip(1) =~= parts.skip(1).push(p));
        lemma_join_push(parts.skip(1), sep, p);
    }
}


/// Replaces `buffer[start..end]` with `insert`.
pub fn splice(buffer: &mut Vec<u8>, start: usize, end: usize, insert: &[u8]) -> (delta: i64)
    requires
        start <= end <= old(buffer)@.len(),
        old(buffer)@.len() < 0x4000_0000_0000_0000,
        insert@.len() < 0x4000_0000_0000_0000,
    ensures
        final(buffer)@ =~= old(buffer)@.subrange(0, start as int) + insert@ + old(buffer)@.skip(
            end as int,
        ),
        delta == insert@.len() - (end - start),
{
    let mut out: Vec<u8> = Vec::new();
    let mut i: usize = 0;
    while i < start
        invariant
            0 <= i <= start <= buffer@.len(),
            out@ =~= buffer@.subrange(0, i as int),
        decreases start - i,
    {
        out.push(buffer[i]);
        i = i + 1;
    }
    let mut j: usize = 0;
    while j < insert.len()
        invariant
            0 <= j <= insert@.len(),
            start <= buffer@.len(),
            out@ =~= buffer@.subrange(0, start as int) + insert@.subrange(0, j as int),
        decreases insert@.len() - j,
    {
        out.push(insert[j]);
        j = j + 1;
    }
    let mut k: usize = end;
    while k < buffer.len()
        invariant
            end <= k <= buffer@.len(),
            start <= end <= buffer@.len(),
            out@ =~= buffer@.subrange(0, start as int) + insert@ + buffer@.subrange(
                end as int,
                k as int,
            ),
        decreases buffer@.len() - k,
    {
        out.push(buffer[k]);
        k = k + 1;
    }
    assert(out@ =~= buffer@.subrange(0, start as int) + insert@ + buffer@.skip(end as int));
    let ghost old_view = buffer@;
    *buffer = out;
    (insert.len() as i64) - ((end - start) as i64)
}

/// Splits `s` on byte `b`, keeping empty pieces, the way `str::split`
/// does: splitting the empty string gives one empty piece.
pub open spec fn split_on_byte_spec(s: Seq<u8>, b: u8) -> Seq<Seq<u8>>
    decreases s.len(),
    via split_on_byte_spec_decreases
{
    let k = find_byte_spec(s, b);
    if k < s.len() {
        seq![s.take(k)] + split_on_byte_spec(s.skip(k + 1), b)
    } else {
        seq![s]
    }
}

#[via_fn]
proof fn split_on_byte_spec_decreases(s: Seq<u8>, b: u8) {
    lemma_find_byte_spec(s, b);
}

/// Splits `s` on byte `b`, keeping empty pieces.
pub fn split_on_byte(s: &[u8], b: u8) -> (r: Vec<Vec<u8>>)
    ensures
        r@.map_values(|p: Vec<u8>| p@) =~= split_on_byte_spec(s@, b),
        r@.len() >= 1,
{
    let mut r: Vec<Vec<u8>> = Vec::new();
    let mut pos: usize = 0;
    proof {
        assert(s@.skip(0) =~= s@);
        assert(r@.map_values(|p: Vec<u8>| p@) =~= Seq::<Seq<u8>>::empty());
    }
    loop
        invariant
            0 <= pos <= s@.len(),
            split_on_byte_spec(s@, b) =~= r@.map_values(|p: Vec<u8>| p@) + split_on_byte_spec(
                s@.skip(pos as int),
                b,
            ),
        decreases s@.len() - pos + 1,
    {
        let ghost rest = s@.skip(pos as int);
        let mut k: usize = pos;
        while k < s.len() && s[k] != b
            invariant
                pos <= k <= s@.len(),
                forall|j: int| pos <= j < k ==> s@[j] != b,
            decreases s@.len() - k,
        {
            k = k + 1;
        }
        proof {
            assert(forall|j: int| 0 <= j < k - pos ==> rest[j] != b);
            lemma_find_byte_at(rest, b, k - pos);
            assert(rest.take(k - pos) =~= s@.subrange(pos as int, k as int));
        }
        let piece = subrange_vec(s, pos, k);
        r.push(piece);
        proof {
            assert(r@.map_values(|p: Vec<u8>| p@) =~= r@.map_values(
                |p: Vec<u8>| p@,
            ).drop_last().push(s@.subrange(pos as int, k as int)));
        }
        if k < s.len() {
            proof {
                assert(rest.skip(k - pos + 1) =~= s@.skip(k + 1));
            }
            pos = k + 1;
        } else {
            return r;
        }
    }
}


/// After a start-trim, a nonempty result never leads with whitespace.
pub proof fn lemma_trim_start_head(s: Seq<u8>)
    ensures
        trim_start_spec(s).len() > 0 ==> !is_space(trim_start_spec(s)[0]),
    decreases s.len(),
{
    if s.len() > 0 && is_space(s[0]) {
        lemma_trim_start_head(s.skip(1));
    }
}

/// An end-trim gives a prefix that never ends with whitespace.
pub proof fn lemma_trim_end_props(s: Seq<u8>)
    ensures
        trim_end_spec(s).len() <= s.len(),
        trim_end_spec(s) =~= s.take(trim_end_spec(s).len() as int),
        trim_end_spec(s).len() > 0 ==> !is_space(trim_end_spec(s)[trim_end_spec(s).len() - 1]),
    decreases s.len(),
{
    if s.len() > 0 && is_space(s[s.len() - 1]) {
        lemma_trim_end_props(s.take(s.len() - 1));
        assert(s.take(s.len() - 1).take(trim_end_spec(s).len() as int) =~= s.take(
            trim_end_spec(s).len() as int,
        ));
    } else {
        assert(s.take(s.len() as int) =~= s);
    }
}

/// Trimming twice is trimming once.
pub proof fn lemma_trim_idempotent(s: Seq<u8>)
    ensures
        trim_spec(trim_spec(s)) =~= trim_spec(s),
{
    let a = trim_start_spec(s);
    let t = trim_end_spec(a);
    lemma_trim_start_head(s);
    lemma_trim_end_props(a);
    if t.len() > 0 {
        assert(t[0] == a[0]);
        assert(!is_space(t[0]));
        assert(trim_start_spec(t) =~= t);
        assert(!is_space(t[t.len() - 1]));
        assert(trim_end_spec(t) =~= t);
    } else {
        assert(trim_start_spec(t) =~= t);
        assert(trim_end_spec(trim_start_spec(t)) =~= t);
    }
}

} // verus!
