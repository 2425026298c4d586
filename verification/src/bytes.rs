//! Little-endian fields and byte-string matching.

use vstd::prelude::*;

verus! {

/// The little-endian `u16` at `offset`.
pub open spec fn u16_at(s: Seq<u8>, offset: int) -> u16 {
    (s[offset] + 256 * s[offset + 1]) as u16
}

/// The little-endian `u32` at `offset`.
pub open spec fn u32_at(s: Seq<u8>, offset: int) -> u32 {
    (s[offset] + 256 * s[offset + 1] + 65536 * s[offset + 2] + 16777216 * s[offset + 3]) as u32
}

/// The little-endian `u64` at `offset`.
pub open spec fn u64_at(s: Seq<u8>, offset: int) -> u64 {
    (u32_at(s, offset) + 4294967296 * u32_at(s, offset + 4)) as u64
}

/// The two little-endian bytes of `v`.
#[verifier::opaque]
pub open spec fn le16(v: u16) -> Seq<u8> {
    seq![(v % 256) as u8, (v / 256) as u8]
}

/// The four little-endian bytes of `v`.
#[verifier::opaque]
pub open spec fn le32(v: u32) -> Seq<u8> {
    seq![
        (v % 256) as u8,
        (v / 256 % 256) as u8,
        (v / 65536 % 256) as u8,
        (v / 16777216) as u8,
    ]
}

/// The eight little-endian bytes of `v`.
#[verifier::opaque]
pub open spec fn le64(v: u64) -> Seq<u8> {
    le32((v % 4294967296) as u32) + le32((v / 4294967296) as u32)
}

/// A written `u16` takes two bytes.
pub broadcast proof fn lemma_le16_len(v: u16)
    ensures
        #[trigger] le16(v).len() == 2,
{
    reveal(le16);
}

/// A written `u32` takes four bytes.
pub broadcast proof fn lemma_le32_len(v: u32)
    ensures
        #[trigger] le32(v).len() == 4,
{
    reveal(le32);
}

/// A written `u64` takes eight bytes.
pub broadcast proof fn lemma_le64_len(v: u64)
    ensures
        #[trigger] le64(v).len() == 8,
{
    reveal(le64);
    reveal(le32);
}

/// Reading back the two bytes written for a `u16` gives the value.
pub proof fn lemma_le16_roundtrip(v: u16)
    ensures
        le16(v).len() == 2,
        u16_at(le16(v), 0) == v,
{
    reveal(le16);
}

/// Reading back the four bytes written for a `u32` gives the value.
pub proof fn lemma_le32_roundtrip(v: u32)
    ensures
        le32(v).len() == 4,
        u32_at(le32(v), 0) == v,
{
    reveal(le32);
}

/// A `u16` whose bytes stand at `offset` reads back.
pub proof fn lemma_u16_at(s: Seq<u8>, offset: int, v: u16)
    requires
        0 <= offset,
        offset + 2 <= s.len(),
        s.subrange(offset, offset + 2) == le16(v),
    ensures
        u16_at(s, offset) == v,
{
    let part = s.subrange(offset, offset + 2);
    assert(part[0] == s[offset] && part[1] == s[offset + 1]);
    lemma_le16_roundtrip(v);
}

/// A `u32` whose bytes stand at `offset` reads back.
pub proof fn lemma_u32_at(s: Seq<u8>, offset: int, v: u32)
    requires
        0 <= offset,
        offset + 4 <= s.len(),
        s.subrange(offset, offset + 4) == le32(v),
    ensures
        u32_at(s, offset) == v,
{
    let part = s.subrange(offset, offset + 4);
    assert(part[0] == s[offset] && part[1] == s[offset + 1]);
    assert(part[2] == s[offset + 2] && part[3] == s[offset + 3]);
    lemma_le32_roundtrip(v);
}

/// A `u64` whose bytes stand at `offset` reads back.
pub proof fn lemma_u64_at(s: Seq<u8>, offset: int, v: u64)
    requires
        0 <= offset,
        offset + 8 <= s.len(),
        s.subrange(offset, offset + 8) == le64(v),
    ensures
        u64_at(s, offset) == v,
{
    reveal(le64);
    let lo = (v % 4294967296) as u32;
    let hi = (v / 4294967296) as u32;
    let part = s.subrange(offset, offset + 8);
    lemma_le32_roundtrip(lo);
    lemma_le32_roundtrip(hi);
    assert(s.subrange(offset, offset + 4) =~= part.subrange(0, 4));
    assert(part.subrange(0, 4) =~= le32(lo));
    assert(s.subrange(offset + 4, offset + 8) =~= part.subrange(4, 8));
    assert(part.subrange(4, 8) =~= le32(hi));
    lemma_u32_at(s, offset, lo);
    lemma_u32_at(s, offset + 4, hi);
}

/// The little-endian `u16` at `offset` of a slice that holds it.
pub fn load_u16(s: &[u8], offset: usize) -> (v: u16)
    requires
        offset + 2 <= s@.len(),
    ensures
        v == u16_at(s@, offset as int),
{
    s[offset] as u16 + 256 * (s[offset + 1] as u16)
}

/// The little-endian `u32` at `offset` of a slice that holds it.
pub fn load_u32(s: &[u8], offset: usize) -> (v: u32)
    requires
        offset + 4 <= s@.len(),
    ensures
        v == u32_at(s@, offset as int),
{
    s[offset] as u32 + 256 * (s[offset + 1] as u32) + 65536 * (s[offset + 2] as u32)
        + 16777216 * (s[offset + 3] as u32)
}

/// The little-endian `u64` at `offset` of a slice that holds it.
pub fn load_u64(s: &[u8], offset: usize) -> (v: u64)
    requires
        offset + 8 <= s.len(),
    ensures
        v == u64_at(s@, offset as int),
{
    load_u32(s, offset) as u64 + 4294967296 * (load_u32(s, offset + 4) as u64)
}

/// Appends the two little-endian bytes of `v`.
pub fn push_u16(out: &mut Vec<u8>, v: u16)
    ensures
        final(out)@ == old(out)@ + le16(v),
{
    out.push((v % 256) as u8);
    out.push((v / 256) as u8);
    proof {
        reveal(le16);
        assert(out@ =~= old(out)@ + le16(v));
    }
}

/// Appends the four little-endian bytes of `v`.
pub fn push_u32(out: &mut Vec<u8>, v: u32)
    ensures
        final(out)@ == old(out)@ + le32(v),
{
    out.push((v % 256) as u8);
    out.push((v / 256 % 256) as u8);
    out.push((v / 65536 % 256) as u8);
    out.push((v / 16777216) as u8);
    proof {
        reveal(le32);
        assert(out@ =~= old(out)@ + le32(v));
    }
}

/// Appends the eight little-endian bytes of `v`.
pub fn push_u64(out: &mut Vec<u8>, v: u64)
    ensures
        final(out)@ == old(out)@ + le64(v),
{
    push_u32(out, (v % 4294967296) as u32);
    push_u32(out, (v / 4294967296) as u32);
    proof {
        reveal(le64);
        assert(out@ =~= old(out)@ + le64(v));
    }
}

/// `pattern` stands in `s` at `at`.
pub open spec fn matches_at(s: Seq<u8>, pattern: Seq<u8>, at: int) -> bool {
    &&& 0 <= at
    &&& at + pattern.len() <= s.len()
    &&& s.subrange(at, at + pattern.len()) == pattern
}

/// `pattern` stands somewhere in `s`.
pub open spec fn contains_bytes(s: Seq<u8>, pattern: Seq<u8>) -> bool {
    exists|at: int| #[trigger] matches_at(s, pattern, at)
}

/// `s` begins with `pattern`.
pub open spec fn starts_with_bytes(s: Seq<u8>, pattern: Seq<u8>) -> bool {
    matches_at(s, pattern, 0)
}

/// `s` ends with `pattern`.
pub open spec fn ends_with_bytes(s: Seq<u8>, pattern: Seq<u8>) -> bool {
    matches_at(s, pattern, s.len() - pattern.len())
}

/// An ASCII upper-case letter becomes lower-case, any other byte stays.
pub open spec fn lower_byte(b: u8) -> u8 {
    if 65 <= b <= 90 {
        (b + 32) as u8
    } else {
        b
    }
}

/// Every byte of `s` in ASCII lower case.
pub open spec fn lower_bytes(s: Seq<u8>) -> Seq<u8> {
    s.map_values(|b: u8| lower_byte(b))
}

/// Does `pattern` stand in `s` at `at`?
pub fn bytes_match_at(s: &[u8], pattern: &[u8], at: usize) -> (found: bool)
    requires
        at <= s@.len(),
    ensures
        found == matches_at(s@, pattern@, at as int),
{
    if pattern.len() > s.len() - at {
        return false;
    }
    let mut i: usize = 0;
    while i < pattern.len()
        invariant
            i <= pattern@.len(),
            at + pattern@.len() <= s.len(),
            forall|j: int| 0 <= j < i ==> s@[at + j] == pattern@[j],
        decreases pattern@.len() - i,
    {
        if s[at + i] != pattern[i] {
            proof {
                assert(s@.subrange(at as int, at + pattern@.len())[i as int] == s@[at + i]);
            }
            return false;
        }
        i += 1;
    }
    proof {
        assert(s@.subrange(at as int, at + pattern@.len()) =~= pattern@);
    }
    true
}

/// Are the two byte strings equal?
pub fn bytes_equal(a: &[u8], b: &[u8]) -> (same: bool)
    ensures
        same == (a@ == b@),
{
    if a.len() != b.len() {
        return false;
    }
    let same: bool = bytes_match_at(a, b, 0);
    proof {
        assert(a@.subrange(0, b@.len() as int) =~= a@);
    }
    same
}

/// Does `pattern` stand somewhere in `s`?
pub fn bytes_contain(s: &[u8], pattern: &[u8]) -> (found: bool)
    ensures
        found == contains_bytes(s@, pattern@),
{
    if pattern.len() > s.len() {
        return false;
    }
    let last: usize = s.len() - pattern.len();
    let mut at: usize = 0;
    while at <= last
        invariant
            pattern@.len() <= s@.len(),
            last == s@.len() - pattern@.len(),
            at <= last + 1,
            forall|j: int| 0 <= j < at ==> !#[trigger] matches_at(s@, pattern@, j),
        decreases last + 1 - at,
    {
        if bytes_match_at(s, pattern, at) {
            return true;
        }
        if at == last {
            return false;
        }
        at += 1;
    }
    false
}

/// Does `s` begin with `pattern`?
pub fn bytes_start_with(s: &[u8], pattern: &[u8]) -> (found: bool)
    ensures
        found == starts_with_bytes(s@, pattern@),
{
    bytes_match_at(s, pattern, 0)
}

/// Does `s` end with `pattern`?
pub fn bytes_end_with(s: &[u8], pattern: &[u8]) -> (found: bool)
    ensures
        found == ends_with_bytes(s@, pattern@),
{
    if pattern.len() > s.len() {
        return false;
    }
    bytes_match_at(s, pattern, s.len() - pattern.len())
}

/// The bytes from `start` to `end`, where that range lies in `s`.
pub fn bytes_range(s: &[u8], start: usize, end: usize) -> (part: Option<&[u8]>)
    ensures
        match part {
            Some(p) => start <= end <= s@.len() && p@ == s@.subrange(start as int, end as int),
            None => !(start <= end <= s@.len()),
        },
{
    if start <= end && end <= s.len() {
        Some(&s[start..end])
    } else {
        None
    }
}

/// A copy of `s` in ASCII lower case.
pub fn bytes_to_lower(s: &[u8]) -> (lower: Vec<u8>)
    ensures
        lower@ == lower_bytes(s@),
{
    let mut lower: Vec<u8> = Vec::with_capacity(s.len());
    let mut i: usize = 0;
    while i < s.len()
        invariant
            i <= s@.len(),
            lower@.len() == i,
            forall|j: int| 0 <= j < i ==> lower@[j] == lower_byte(s@[j]),
        decreases s@.len() - i,
    {
        let b: u8 = s[i];
        if 65 <= b && b <= 90 {
            lower.push(b + 32);
        } else {
            lower.push(b);
        }
        i += 1;
    }
    proof {
        assert(lower@ =~= lower_bytes(s@));
    }
    lower
}

/// Where `pattern` first stands in `s` from `at` on.
pub open spec fn first_match_from(s: Seq<u8>, pattern: Seq<u8>, at: int) -> Option<int>
    decreases s.len() + 1 - at,
{
    if at < 0 || at > s.len() {
        None
    } else if matches_at(s, pattern, at) {
        Some(at)
    } else {
        first_match_from(s, pattern, at + 1)
    }
}

/// Where `pattern` last stands in `s`, at `at` or before.
pub open spec fn last_match_upto(s: Seq<u8>, pattern: Seq<u8>, at: int) -> Option<int>
    decreases at + 1,
{
    if at < 0 {
        None
    } else if matches_at(s, pattern, at) {
        Some(at)
    } else {
        last_match_upto(s, pattern, at - 1)
    }
}

/// Where `pattern` first stands in `s`.
pub open spec fn first_match(s: Seq<u8>, pattern: Seq<u8>) -> Option<int> {
    first_match_from(s, pattern, 0)
}

/// Where `pattern` last stands in `s`.
pub open spec fn last_match(s: Seq<u8>, pattern: Seq<u8>) -> Option<int> {
    last_match_upto(s, pattern, s.len() as int)
}

/// Position of the first `pattern` in `s`.
pub fn bytes_find(s: &[u8], pattern: &[u8]) -> (found: Option<usize>)
    ensures
        match found {
            Some(at) => first_match(s@, pattern@) == Some(at as int) && at + pattern@.len()
                <= s@.len(),
            None => first_match(s@, pattern@) is None,
        },
{
    let mut at: usize = 0;
    while at < s.len()
        invariant
            at <= s@.len(),
            first_match(s@, pattern@) == first_match_from(s@, pattern@, at as int),
        decreases s@.len() - at,
    {
        if bytes_match_at(s, pattern, at) {
            return Some(at);
        }
        at += 1;
    }
    if bytes_match_at(s, pattern, at) {
        return Some(at);
    }
    proof {
        assert(first_match_from(s@, pattern@, at + 1) is None);
    }
    None
}

/// Position of the last `pattern` in `s`.
pub fn bytes_rfind(s: &[u8], pattern: &[u8]) -> (found: Option<usize>)
    ensures
        match found {
            Some(at) => last_match(s@, pattern@) == Some(at as int) && at + pattern@.len()
                <= s@.len(),
            None => last_match(s@, pattern@) is None,
        },
{
    let mut at: usize = s.len();
    loop
        invariant
            at <= s@.len(),
            last_match(s@, pattern@) == last_match_upto(s@, pattern@, at as int),
        decreases at,
    {
        if bytes_match_at(s, pattern, at) {
            return Some(at);
        }
        if at == 0 {
            proof {
                assert(last_match_upto(s@, pattern@, -1) is None);
            }
            return None;
        }
        at -= 1;
    }
}

/// `b` is an ASCII decimal digit.
pub open spec fn is_digit(b: u8) -> bool {
    48 <= b <= 57
}

/// The number that a string of digits writes.
pub open spec fn digits_value(s: Seq<u8>) -> nat
    decreases s.len(),
{
    if s.len() == 0 {
        0
    } else {
        10 * digits_value(s.drop_last()) + (s.last() - 48) as nat
    }
}

/// `s` without one leading plus sign.
pub open spec fn without_plus(s: Seq<u8>) -> Seq<u8> {
    if s.len() > 0 && s[0] == 43 {
        s.skip(1)
    } else {
        s
    }
}

/// The number that `s` writes in decimal: one digit or more, after at most one
/// plus sign.
pub open spec fn decimal(s: Seq<u8>) -> Option<nat> {
    let body = without_plus(s);
    if body.len() > 0 && (forall|i: int| 0 <= i < body.len() ==> is_digit(#[trigger] body[i])) {
        Some(digits_value(body))
    } else {
        None
    }
}

/// The number that `s` writes in decimal, where it is at most `max`.
pub fn parse_decimal(s: &[u8], max: u64) -> (value: Option<u64>)
    ensures
        match value {
            Some(v) => v <= max && decimal(s@) == Some(v as nat),
            None => match decimal(s@) {
                Some(v) => v > max,
                None => true,
            },
        },
{
    let mut start: usize = 0;
    if s.len() > 0 && s[0] == 43 {
        start = 1;
    }
    let ghost body = without_plus(s@);
    proof {
        if start == 0 {
            assert(s@.skip(0) =~= s@);
        }
        assert(body == s@.skip(start as int));
        assert(body.take(0) =~= seq![]);
    }
    if start == s.len() {
        return None;
    }
    let mut value: u64 = 0;
    let mut i: usize = start;
    let mut over: bool = false;
    while i < s.len()
        invariant
            start <= i <= s@.len(),
            body == s@.skip(start as int),
            body == without_plus(s@),
            forall|j: int| 0 <= j < i - start ==> is_digit(#[trigger] body[j]),
            over ==> digits_value(body.take(i - start)) > max,
            !over ==> digits_value(body.take(i - start)) == value && value <= max,
        decreases s@.len() - i,
    {
        let b: u8 = s[i];
        assert(body[i - start] == b);
        if b < 48 || b > 57 {
            assert(!is_digit(body[i - start]));
            return None;
        }
        proof {
            let next = body.take(i - start + 1);
            assert(next.drop_last() =~= body.take(i - start));
            assert(next.last() == b);
        }
        if !over {
            let digit: u64 = (b - 48) as u64;
            if digit > max || value > max / 10 || value * 10 > max - digit {
                over = true;
            } else {
                value = value * 10 + digit;
            }
        }
        i += 1;
    }
    proof {
        assert(body.take(i - start) =~= body);
    }
    if over {
        None
    } else {
        Some(value)
    }
}

/// The decimal digits of a number.
pub open spec fn digits_of(n: nat) -> Seq<u8>
    decreases n,
{
    if n < 10 {
        seq![(48 + n) as u8]
    } else {
        digits_of(n / 10).push((48 + n % 10) as u8)
    }
}

/// Appends the decimal digits of a number.
pub fn push_decimal(out: &mut Vec<u8>, n: u64)
    ensures
        final(out)@ == old(out)@ + digits_of(n as nat),
    decreases n,
{
    let ghost before = out@;
    if n >= 10 {
        push_decimal(out, n / 10);
        out.push(48 + (n % 10) as u8);
        proof {
            assert(out@ =~= before + digits_of(n as nat));
        }
    } else {
        out.push(48 + n as u8);
        proof {
            assert(out@ =~= before + digits_of(n as nat));
        }
    }
}

/// Appends bytes.
pub fn push_bytes(out: &mut Vec<u8>, bytes: &[u8])
    ensures
        final(out)@ == old(out)@ + bytes@,
{
    let ghost before = out@;
    let mut i: usize = 0;
    while i < bytes.len()
        invariant
            i <= bytes@.len(),
            out@ == before + bytes@.take(i as int),
        decreases bytes@.len() - i,
    {
        out.push(bytes[i]);
        proof {
            assert(out@ =~= before + bytes@.take(i + 1));
        }
        i += 1;
    }
    proof {
        assert(bytes@.take(i as int) =~= bytes@);
    }
}

/// Are two texts the same?
pub fn text_equal(a: &str, b: &str) -> (same: bool)
    ensures
        same == (a@ == b@),
{
    proof {
        vstd::utf8::encode_utf8_decode_utf8(a@);
        vstd::utf8::encode_utf8_decode_utf8(b@);
    }
    bytes_equal(a.as_bytes(), b.as_bytes())
}

/// Reading the decimal digits of a number gives the number back.
pub proof fn law_decimal_reads_digits(n: nat)
    ensures
        decimal(digits_of(n)) == Some(n),
{
    lemma_digits(n);
}

proof fn lemma_digits(n: nat)
    ensures
        digits_of(n).len() > 0,
        forall|i: int| 0 <= i < digits_of(n).len() ==> is_digit(#[trigger] digits_of(n)[i]),
        digits_value(digits_of(n)) == n,
    decreases n,
{
    if n >= 10 {
        lemma_digits(n / 10);
        assert(digits_of(n).drop_last() =~= digits_of(n / 10));
    } else {
        assert(digits_of(n).drop_last() =~= Seq::<u8>::empty());
        assert(digits_value(Seq::<u8>::empty()) == 0);
    }
}

/// The text that `bytes` encode, where they are UTF-8. Calls
/// `std::str::from_utf8`, which succeeds exactly on valid UTF-8 and hands the
/// same bytes back as a string.
#[verifier::external_body]
pub(crate) fn text_of(bytes: &[u8]) -> (text: Option<&str>)
    ensures
        match text {
            Some(t) => vstd::utf8::valid_utf8(bytes@) && vstd::string::StringSliceAdditionalSpecFns::spec_bytes(t) == bytes@,
            None => !vstd::utf8::valid_utf8(bytes@),
        },
{
    std::str::from_utf8(bytes).ok()
}

/// Numbers stand with their lowest byte first, and what was written is read
/// back wherever it stands.
pub proof fn law_numbers_stand_lowest_byte_first(s: Seq<u8>, at: int)
    requires
        0 <= at,
        at + 8 <= s.len(),
    ensures
        u16_at(s, at) as int == s[at] + 0x100 * s[at + 1],
        u32_at(s, at) as int == s[at] + 0x100 * s[at + 1] + 0x1_0000 * s[at + 2] + 0x100_0000 * s[at
            + 3],
        u64_at(s, at) as int == u32_at(s, at) + 0x1_0000_0000 * u32_at(s, at + 4),
        forall|v: u16| s.subrange(at, at + 2) == #[trigger] le16(v) ==> u16_at(s, at) == v,
        forall|v: u32| s.subrange(at, at + 4) == #[trigger] le32(v) ==> u32_at(s, at) == v,
        forall|v: u64| s.subrange(at, at + 8) == #[trigger] le64(v) ==> u64_at(s, at) == v,
{
    assert forall|v: u16| s.subrange(at, at + 2) == #[trigger] le16(v) implies u16_at(s, at)
        == v by {
        lemma_u16_at(s, at, v);
    }
    assert forall|v: u32| s.subrange(at, at + 4) == #[trigger] le32(v) implies u32_at(s, at)
        == v by {
        lemma_u32_at(s, at, v);
    }
    assert forall|v: u64| s.subrange(at, at + 8) == #[trigger] le64(v) implies u64_at(s, at)
        == v by {
        lemma_u64_at(s, at, v);
    }
}

proof fn lemma_first_match(s: Seq<u8>, pattern: Seq<u8>, from: int)
    requires
        0 <= from,
    ensures
        match first_match_from(s, pattern, from) {
            Some(at) => from <= at && matches_at(s, pattern, at) && forall|i: int|
                from <= i < at ==> !#[trigger] matches_at(s, pattern, i),
            None => forall|i: int| from <= i ==> !#[trigger] matches_at(s, pattern, i),
        },
    decreases s.len() + 1 - from,
{
    if from <= s.len() && !matches_at(s, pattern, from) {
        lemma_first_match(s, pattern, from + 1);
    }
}

proof fn lemma_last_match(s: Seq<u8>, pattern: Seq<u8>, upto: int)
    ensures
        match last_match_upto(s, pattern, upto) {
            Some(at) => 0 <= at <= upto && matches_at(s, pattern, at) && forall|i: int|
                at < i <= upto ==> !#[trigger] matches_at(s, pattern, i),
            None => forall|i: int| i <= upto ==> !#[trigger] matches_at(s, pattern, i),
        },
    decreases upto + 1,
{
    if upto >= 0 && !matches_at(s, pattern, upto) {
        lemma_last_match(s, pattern, upto - 1);
    }
}

/// A search from the front finds the first place where the pattern stands, one
/// from the back the last, and none where it stands nowhere.
pub proof fn law_searches_find_the_ends(s: Seq<u8>, pattern: Seq<u8>)
    ensures
        match first_match(s, pattern) {
            Some(at) => 0 <= at && at + pattern.len() <= s.len() && s.subrange(
                at,
                at + pattern.len(),
            ) == pattern && forall|i: int|
                0 <= i < at ==> !#[trigger] matches_at(s, pattern, i),
            None => forall|i: int| !#[trigger] matches_at(s, pattern, i),
        },
        match last_match(s, pattern) {
            Some(at) => 0 <= at && at + pattern.len() <= s.len() && s.subrange(
                at,
                at + pattern.len(),
            ) == pattern && forall|i: int|
                at < i ==> !#[trigger] matches_at(s, pattern, i),
            None => forall|i: int| !#[trigger] matches_at(s, pattern, i),
        },
        contains_bytes(s, pattern) == first_match(s, pattern) is Some,
        contains_bytes(s, pattern) == last_match(s, pattern) is Some,
{
    lemma_first_match(s, pattern, 0);
    lemma_last_match(s, pattern, s.len() as int);
}

/// Lowering changes the capitals of the alphabet into their small letters and
/// nothing else, and changes nothing the second time.
pub proof fn law_lowering_changes_capitals(s: Seq<u8>)
    ensures
        lower_bytes(s).len() == s.len(),
        forall|i: int|
            0 <= i < s.len() ==> #[trigger] lower_bytes(s)[i] == if 0x41 <= s[i] <= 0x5a {
                s[i] + 0x20
            } else {
                s[i] as int
            },
        lower_bytes(lower_bytes(s)) == lower_bytes(s),
{
    assert(lower_bytes(lower_bytes(s)) =~= lower_bytes(s));
}

/// What is pushed is loaded again from where it stands.
pub proof fn law_pushed_numbers_are_loaded(out: &mut Vec<u8>, v: u32)
    requires
        call_ensures(push_u32, (out, v), ()),
    ensures
        final(out)@.len() == old(out)@.len() + 4,
        final(out)@.take(old(out)@.len() as int) == old(out)@,
        u32_at(final(out)@, old(out)@.len() as int) == v,
{
    lemma_le32_roundtrip(v);
    reveal(le32);
    let at = old(out)@.len() as int;
    assert(final(out)@.take(at) =~= old(out)@);
    assert(final(out)@.subrange(at, at + 4) =~= le32(v));
    lemma_u32_at(final(out)@, at, v);
}

/// A number that is written out is parsed again, where it is small enough.
pub proof fn law_written_numbers_are_parsed(digits: &[u8], n: u64, max: u64, value: Option<u64>)
    requires
        digits@ == digits_of(n as nat),
        call_ensures(parse_decimal, (digits, max), value),
    ensures
        n <= max ==> value == Some(n),
        n > max ==> value is None,
{
    law_decimal_reads_digits(n as nat);
}

} // verus!
