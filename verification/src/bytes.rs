//! Byte-level building blocks shared by the codecs: UTF-8 validity,
//! ASCII case folding, NUL scanning, big-endian integer fields, and a few
//! verified `Vec<u8>` helpers.

use vstd::prelude::*;

verus! {

// ---------------------------------------------------------------------------
// Small Vec helpers
// ---------------------------------------------------------------------------

/// Appends every byte of `src` to `out`.
pub fn append_bytes(out: &mut Vec<u8>, src: &[u8])
    ensures
        final(out)@ == old(out)@ + src@,
{
    let mut i: usize = 0;
    while i < src.len()
        invariant
            i <= src@.len(),
            out@ == old(out)@ + src@.subrange(0, i as int),
        decreases src@.len() - i,
    {
        out.push(src[i]);
        i = i + 1;
        assert(old(out)@ + src@.subrange(0, i - 1 as int) + seq![src@[i - 1]] =~= old(out)@
            + src@.subrange(0, i as int));
    }
    assert(src@.subrange(0, src@.len() as int) =~= src@);
}

/// Copies `s[a..b]` into a fresh vector.
pub fn copy_range(s: &[u8], a: usize, b: usize) -> (r: Vec<u8>)
    requires
        a <= b <= s@.len(),
    ensures
        r@ == s@.subrange(a as int, b as int),
{
    let mut r: Vec<u8> = Vec::new();
    let mut i: usize = a;
    while i < b
        invariant
            a <= i <= b <= s@.len(),
            r@ == s@.subrange(a as int, i as int),
        decreases b - i,
    {
        r.push(s[i]);
        i = i + 1;
        assert(s@.subrange(a as int, i - 1 as int) + seq![s@[i - 1]] =~= s@.subrange(
            a as int,
            i as int,
        ));
    }
    r
}

/// Compares two byte strings for equality.
pub fn bytes_eq(a: &[u8], b: &[u8]) -> (r: bool)
    ensures
        r == (a@ == b@),
{
    if a.len() != b.len() {
        assert(a@ != b@);
        return false;
    }
    let mut i: usize = 0;
    while i < a.len()
        invariant
            i <= a@.len(),
            a@.len() == b@.len(),
            forall|j: int| 0 <= j < i ==> a@[j] == b@[j],
        decreases a@.len() - i,
    {
        if a[i] != b[i] {
            return false;
        }
        i = i + 1;
    }
    assert(a@ =~= b@);
    true
}

// ---------------------------------------------------------------------------
// ASCII case folding
// ---------------------------------------------------------------------------

/// ASCII lowercase of one byte; all other bytes are unchanged.
pub open spec fn lower_byte(b: u8) -> u8 {
    if 0x41 <= b <= 0x5A {
        (b + 0x20) as u8
    } else {
        b
    }
}

/// ASCII lowercase of a byte string.
pub open spec fn lower(s: Seq<u8>) -> Seq<u8> {
    Seq::new(s.len(), |i: int| lower_byte(s[i]))
}

/// Case folding is idempotent.
pub proof fn lemma_lower_idempotent(s: Seq<u8>)
    ensures
        lower(lower(s)) == lower(s),
{
    assert(lower(lower(s)) =~= lower(s));
}

/// Lowercases a byte string, folding ASCII uppercase letters only.
pub fn lower_bytes(s: &[u8]) -> (r: Vec<u8>)
    ensures
        r@ == lower(s@),
{
    let mut r: Vec<u8> = Vec::new();
    let mut i: usize = 0;
    while i < s.len()
        invariant
            i <= s@.len(),
            r@.len() == i,
            forall|j: int| 0 <= j < i ==> r@[j] == lower_byte(s@[j]),
        decreases s@.len() - i,
    {
        let b = s[i];
        if 0x41 <= b && b <= 0x5A {
            r.push(b + 0x20);
        } else {
            r.push(b);
        }
        i = i + 1;
    }
    assert(r@ =~= lower(s@));
    r
}

// ---------------------------------------------------------------------------
// NUL scanning
// ---------------------------------------------------------------------------

/// The index of the first 0x00 at or after `i`, or `s.len()` if there is none.
pub open spec fn first_nul_from(s: Seq<u8>, i: int) -> int
    decreases s.len() - i when 0 <= i <= s.len()
{
    if i >= s.len() {
        s.len() as int
    } else if s[i] == 0 {
        i
    } else {
        first_nul_from(s, i + 1)
    }
}

/// The index of the first 0x00 in `s`, or `s.len()` if there is none.
pub open spec fn first_nul(s: Seq<u8>) -> int {
    first_nul_from(s, 0)
}

/// `first_nul_from` lands on a NUL when one exists, and never earlier.
pub proof fn lemma_first_nul_from(s: Seq<u8>, i: int)
    requires
        0 <= i <= s.len(),
    ensures
        i <= first_nul_from(s, i) <= s.len(),
        first_nul_from(s, i) < s.len() ==> s[first_nul_from(s, i)] == 0,
        forall|j: int| i <= j < first_nul_from(s, i) ==> s[j] != 0,
    decreases s.len() - i,
{
    if i < s.len() && s[i] != 0 {
        lemma_first_nul_from(s, i + 1);
    }
}

/// In `a + [0] + b`, if `a` holds no NUL, the first NUL is exactly at `a.len()`.
pub proof fn lemma_first_nul_of_terminated(a: Seq<u8>, b: Seq<u8>)
    requires
        forall|j: int| 0 <= j < a.len() ==> a[j] != 0,
    ensures
        first_nul(a + seq![0u8] + b) == a.len(),
{
    let s = a + seq![0u8] + b;
    lemma_first_nul_from(s, 0);
    let p = first_nul(s);
    assert(s[a.len() as int] == 0);
    if p < a.len() {
        assert(s[p] == a[p]);
    }
    if p > a.len() {
        assert(first_nul_from(s, 0) > a.len() ==> s[a.len() as int] != 0);
    }
}

/// Finds the first NUL byte in `s`, returning `s.len()` if there is none.
pub fn find_nul(s: &[u8]) -> (r: usize)
    ensures
        r as int == first_nul(s@),
{
    let mut i: usize = 0;
    while i < s.len()
        invariant
            i <= s@.len(),
            first_nul(s@) == first_nul_from(s@, i as int),
        decreases s@.len() - i,
    {
        if s[i] == 0 {
            return i;
        }
        i = i + 1;
    }
    i
}

// ---------------------------------------------------------------------------
// UTF-8 validity
// ---------------------------------------------------------------------------

/// The length of the UTF-8 sequence introduced by lead byte `b0`,
/// or 0 if `b0` can never lead a valid sequence.
pub open spec fn utf8_len(b0: u8) -> int {
    if b0 < 0x80 {
        1
    } else if 0xC2 <= b0 <= 0xDF {
        2
    } else if 0xE0 <= b0 <= 0xEF {
        3
    } else if 0xF0 <= b0 <= 0xF4 {
        4
    } else {
        0
    }
}

/// Whether `b` is a UTF-8 continuation byte.
pub open spec fn is_cont(b: u8) -> bool {
    0x80 <= b <= 0xBF
}

/// Whether a complete, minimally-encoded UTF-8 scalar value starts at `s[i]`.
/// The lead-byte ranges exclude overlong encodings, surrogates, and values
/// beyond U+10FFFF.
pub open spec fn valid_char_at(s: Seq<u8>, i: int) -> bool {
    let n = utf8_len(s[i]);
    &&& 0 <= i < s.len()
    &&& n > 0
    &&& i + n <= s.len()
    &&& (n == 2 ==> is_cont(s[i + 1]))
    &&& (n == 3 ==> {
        &&& is_cont(s[i + 1])
        &&& is_cont(s[i + 2])
        &&& (s[i] == 0xE0 ==> s[i + 1] >= 0xA0)
        &&& (s[i] == 0xED ==> s[i + 1] <= 0x9F)
    })
    &&& (n == 4 ==> {
        &&& is_cont(s[i + 1])
        &&& is_cont(s[i + 2])
        &&& is_cont(s[i + 3])
        &&& (s[i] == 0xF0 ==> s[i + 1] >= 0x90)
        &&& (s[i] == 0xF4 ==> s[i + 1] <= 0x8F)
    })
}

/// Whether `s[i..]` is a sequence of valid UTF-8 scalar values.
pub open spec fn is_utf8_from(s: Seq<u8>, i: int) -> bool
    decreases s.len() - i when 0 <= i <= s.len()
{
    if i >= s.len() {
        true
    } else if valid_char_at(s, i) {
        is_utf8_from(s, i + utf8_len(s[i]))
    } else {
        false
    }
}

/// Whether `s` is valid UTF-8.
pub open spec fn is_utf8(s: Seq<u8>) -> bool {
    is_utf8_from(s, 0)
}

/// Pure-ASCII byte strings are valid UTF-8.
pub proof fn lemma_ascii_is_utf8(s: Seq<u8>)
    requires
        forall|j: int| 0 <= j < s.len() ==> s[j] < 0x80,
    ensures
        is_utf8(s),
{
    lemma_ascii_is_utf8_from(s, 0);
}

proof fn lemma_ascii_is_utf8_from(s: Seq<u8>, i: int)
    requires
        0 <= i <= s.len(),
        forall|j: int| 0 <= j < s.len() ==> s[j] < 0x80,
    ensures
        is_utf8_from(s, i),
    decreases s.len() - i,
{
    if i < s.len() {
        assert(valid_char_at(s, i));
        lemma_ascii_is_utf8_from(s, i + 1);
    }
}

/// Checks whether `s` is valid, minimally-encoded UTF-8.
pub fn is_utf8_bytes(s: &[u8]) -> (r: bool)
    ensures
        r == is_utf8(s@),
{
    let len = s.len();
    let mut i: usize = 0;
    while i < len
        invariant
            i <= len,
            len == s@.len(),
            is_utf8(s@) == is_utf8_from(s@, i as int),
        decreases len - i,
    {
        let b0 = s[i];
        if b0 < 0x80 {
            i = i + 1;
        } else if b0 < 0xC2 {
            assert(!valid_char_at(s@, i as int));
            return false;
        } else if b0 <= 0xDF {
            if len - i < 2 || !is_cont_byte(s[i + 1]) {
                assert(!valid_char_at(s@, i as int));
                return false;
            }
            i = i + 2;
        } else if b0 <= 0xEF {
            if len - i < 3 || !is_cont_byte(s[i + 1]) || !is_cont_byte(s[i + 2]) {
                assert(!valid_char_at(s@, i as int));
                return false;
            }
            if b0 == 0xE0 && s[i + 1] < 0xA0 {
                assert(!valid_char_at(s@, i as int));
                return false;
            }
            if b0 == 0xED && s[i + 1] > 0x9F {
                assert(!valid_char_at(s@, i as int));
                return false;
            }
            i = i + 3;
        } else if b0 <= 0xF4 {
            if len - i < 4 || !is_cont_byte(s[i + 1]) || !is_cont_byte(s[i + 2]) || !is_cont_byte(
                s[i + 3],
            ) {
                assert(!valid_char_at(s@, i as int));
                return false;
            }
            if b0 == 0xF0 && s[i + 1] < 0x90 {
                assert(!valid_char_at(s@, i as int));
                return false;
            }
            if b0 == 0xF4 && s[i + 1] > 0x8F {
                assert(!valid_char_at(s@, i as int));
                return false;
            }
            i = i + 4;
        } else {
            assert(!valid_char_at(s@, i as int));
            return false;
        }
    }
    true
}

/// Whether `b` is a UTF-8 continuation byte.
fn is_cont_byte(b: u8) -> (r: bool)
    ensures
        r == is_cont(b),
{
    0x80 <= b && b <= 0xBF
}

/// A valid UTF-8 string never starts with a continuation byte.
pub proof fn lemma_utf8_first_not_cont(s: Seq<u8>)
    requires
        is_utf8(s),
        s.len() > 0,
    ensures
        !is_cont(s[0]),
{
    assert(valid_char_at(s, 0));
}

// ---------------------------------------------------------------------------
// Truncation at a UTF-8 boundary
// ---------------------------------------------------------------------------

/// The largest position at or below `c` that does not fall inside a
/// multi-byte UTF-8 sequence: walking down from `c`, the first position that
/// is the end of `s` or carries a non-continuation byte (0 if none is found).
pub open spec fn trunc_cut_from(s: Seq<u8>, c: int) -> int
    decreases c when c >= 0
{
    if c <= 0 {
        0
    } else if c == s.len() || (c < s.len() && !is_cont(s[c])) {
        c
    } else {
        trunc_cut_from(s, c - 1)
    }
}

/// The truncation point for an error message: the largest prefix length of
/// at most 255 that does not split a multi-byte UTF-8 sequence.
pub open spec fn trunc_cut(s: Seq<u8>) -> int {
    trunc_cut_from(s, if s.len() > 255 { 255 } else { s.len() as int })
}

proof fn lemma_trunc_cut_from_props(s: Seq<u8>, c: int)
    requires
        0 <= c <= s.len(),
    ensures
        0 <= trunc_cut_from(s, c) <= c,
        trunc_cut_from(s, c) == 0 || trunc_cut_from(s, c) == s.len() || !is_cont(
            s[trunc_cut_from(s, c)],
        ),
    decreases c,
{
    if c > 0 && !(c == s.len() || (c < s.len() && !is_cont(s[c]))) {
        lemma_trunc_cut_from_props(s, c - 1);
    }
}

/// For valid UTF-8 input, the truncation point is in range and lands on a
/// character boundary: the end of the string or a non-continuation byte.
pub proof fn lemma_trunc_cut_bounds(s: Seq<u8>)
    requires
        is_utf8(s),
    ensures
        0 <= trunc_cut(s) <= 255,
        trunc_cut(s) <= s.len(),
        trunc_cut(s) == s.len() || !is_cont(s[trunc_cut(s)]),
{
    let c = if s.len() > 255 {
        255
    } else {
        s.len() as int
    };
    lemma_trunc_cut_from_props(s, c);
    if trunc_cut(s) == 0 && s.len() > 0 {
        lemma_utf8_first_not_cont(s);
    }
}

// ---------------------------------------------------------------------------
// Big-endian integer fields
// ---------------------------------------------------------------------------

/// The value of four big-endian bytes.
pub open spec fn be32_of(b0: u8, b1: u8, b2: u8, b3: u8) -> u32 {
    ((b0 as u32) << 24) | ((b1 as u32) << 16) | ((b2 as u32) << 8) | (b3 as u32)
}

/// The value of eight big-endian bytes.
pub open spec fn be64_of(b0: u8, b1: u8, b2: u8, b3: u8, b4: u8, b5: u8, b6: u8, b7: u8) -> u64 {
    ((b0 as u64) << 56) | ((b1 as u64) << 48) | ((b2 as u64) << 40) | ((b3 as u64) << 32) | ((
    b4 as u64) << 24) | ((b5 as u64) << 16) | ((b6 as u64) << 8) | (b7 as u64)
}

/// The four-byte big-endian encoding of `n`.
pub open spec fn spec_u32_be(n: u32) -> Seq<u8> {
    seq![
        ((n >> 24) & 0xFF) as u8,
        ((n >> 16) & 0xFF) as u8,
        ((n >> 8) & 0xFF) as u8,
        (n & 0xFF) as u8,
    ]
}

/// The eight-byte big-endian encoding of `n`.
pub open spec fn spec_u64_be(n: u64) -> Seq<u8> {
    seq![
        ((n >> 56) & 0xFF) as u8,
        ((n >> 48) & 0xFF) as u8,
        ((n >> 40) & 0xFF) as u8,
        ((n >> 32) & 0xFF) as u8,
        ((n >> 24) & 0xFF) as u8,
        ((n >> 16) & 0xFF) as u8,
        ((n >> 8) & 0xFF) as u8,
        (n & 0xFF) as u8,
    ]
}

/// Reading back the four-byte big-endian encoding of `n` yields `n`.
pub proof fn lemma_u32_be_round_trip(n: u32)
    ensures
        be32_of(
            ((n >> 24) & 0xFF) as u8,
            ((n >> 16) & 0xFF) as u8,
            ((n >> 8) & 0xFF) as u8,
            (n & 0xFF) as u8,
        ) == n,
{
    assert(be32_of(
        ((n >> 24) & 0xFF) as u8,
        ((n >> 16) & 0xFF) as u8,
        ((n >> 8) & 0xFF) as u8,
        (n & 0xFF) as u8,
    ) == n) by (bit_vector);
}

/// Reading back the eight-byte big-endian encoding of `n` yields `n`.
pub proof fn lemma_u64_be_round_trip(n: u64)
    ensures
        be64_of(
            ((n >> 56) & 0xFF) as u8,
            ((n >> 48) & 0xFF) as u8,
            ((n >> 40) & 0xFF) as u8,
            ((n >> 32) & 0xFF) as u8,
            ((n >> 24) & 0xFF) as u8,
            ((n >> 16) & 0xFF) as u8,
            ((n >> 8) & 0xFF) as u8,
            (n & 0xFF) as u8,
        ) == n,
{
    assert(be64_of(
        ((n >> 56) & 0xFF) as u8,
        ((n >> 48) & 0xFF) as u8,
        ((n >> 40) & 0xFF) as u8,
        ((n >> 32) & 0xFF) as u8,
        ((n >> 24) & 0xFF) as u8,
        ((n >> 16) & 0xFF) as u8,
        ((n >> 8) & 0xFF) as u8,
        (n & 0xFF) as u8,
    ) == n) by (bit_vector);
}

/// Appends the four-byte big-endian encoding of `n` to `out`.
pub fn push_u32_be(out: &mut Vec<u8>, n: u32)
    ensures
        final(out)@ == old(out)@ + spec_u32_be(n),
{
    proof {
        assert((n >> 24) & 0xFF < 256 && (n >> 16) & 0xFF < 256 && (n >> 8) & 0xFF < 256 && n
            & 0xFF < 256) by (bit_vector);
    }
    out.push(((n >> 24) & 0xFF) as u8);
    out.push(((n >> 16) & 0xFF) as u8);
    out.push(((n >> 8) & 0xFF) as u8);
    out.push((n & 0xFF) as u8);
    assert(final(out)@ =~= old(out)@ + spec_u32_be(n));
}

/// Appends the eight-byte big-endian encoding of `n` to `out`.
pub fn push_u64_be(out: &mut Vec<u8>, n: u64)
    ensures
        final(out)@ == old(out)@ + spec_u64_be(n),
{
    proof {
        assert((n >> 56) & 0xFF < 256 && (n >> 48) & 0xFF < 256 && (n >> 40) & 0xFF < 256 && (n
            >> 32) & 0xFF < 256 && (n >> 24) & 0xFF < 256 && (n >> 16) & 0xFF < 256 && (n >> 8)
            & 0xFF < 256 && n & 0xFF < 256) by (bit_vector);
    }
    out.push(((n >> 56) & 0xFF) as u8);
    out.push(((n >> 48) & 0xFF) as u8);
    out.push(((n >> 40) & 0xFF) as u8);
    out.push(((n >> 32) & 0xFF) as u8);
    out.push(((n >> 24) & 0xFF) as u8);
    out.push(((n >> 16) & 0xFF) as u8);
    out.push(((n >> 8) & 0xFF) as u8);
    out.push((n & 0xFF) as u8);
    assert(final(out)@ =~= old(out)@ + spec_u64_be(n));
}

} // verus!
