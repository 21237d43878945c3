//! Byte-level building blocks of the wire format: big-endian 32-bit integers,
//! NUL-terminated strings, UTF-8 validity, and decimal rendering of counters.

use vstd::prelude::*;

verus! {

broadcast use vstd::seq::group_seq_axioms;

// ---------------------------------------------------------------------------
// Two's-complement bridge between the signed 32-bit integers the protocol
// speaks of and the unsigned form the byte conversions use.
// ---------------------------------------------------------------------------

pub open spec fn i32_to_u32(x: i32) -> u32 {
    if x >= 0 {
        x as u32
    } else {
        (x + 0x1_0000_0000) as u32
    }
}

pub open spec fn u32_to_i32(x: u32) -> i32 {
    if x < 0x8000_0000 {
        x as i32
    } else {
        (x - 0x1_0000_0000) as i32
    }
}

pub proof fn lemma_i32_u32_roundtrip(x: i32)
    ensures
        u32_to_i32(i32_to_u32(x)) == x,
{
}

pub fn i32_bits(x: i32) -> (r: u32)
    ensures
        r == i32_to_u32(x),
{
    if x >= 0 {
        x as u32
    } else {
        ((x as i64) + 0x1_0000_0000i64) as u32
    }
}

pub fn u32_value(x: u32) -> (r: i32)
    ensures
        r == u32_to_i32(x),
{
    if x < 0x8000_0000 {
        x as i32
    } else {
        ((x as i64) - 0x1_0000_0000i64) as i32
    }
}

// ---------------------------------------------------------------------------
// Big-endian byte layout of a 32-bit integer.
// ---------------------------------------------------------------------------

pub open spec fn spec_u32_to_be_bytes(x: u32) -> Seq<u8> {
    seq![
        ((x >> 24) & 0xff) as u8,
        ((x >> 16) & 0xff) as u8,
        ((x >> 8) & 0xff) as u8,
        (x & 0xff) as u8,
    ]
}

pub open spec fn spec_u32_from_be_bytes(s: Seq<u8>) -> u32
    recommends
        s.len() == 4,
{
    ((s[0] as u32) << 24) | ((s[1] as u32) << 16) | ((s[2] as u32) << 8) | (s[3] as u32)
}

pub proof fn lemma_u32_be_roundtrip(x: u32)
    ensures
        spec_u32_to_be_bytes(x).len() == 4,
        spec_u32_from_be_bytes(spec_u32_to_be_bytes(x)) == x,
{
    let b0 = ((x >> 24) & 0xff) as u8;
    let b1 = ((x >> 16) & 0xff) as u8;
    let b2 = ((x >> 8) & 0xff) as u8;
    let b3 = (x & 0xff) as u8;
    assert(((((x >> 24) & 0xff) as u8) as u32) << 24 | ((((x >> 16) & 0xff) as u8) as u32) << 16
        | ((((x >> 8) & 0xff) as u8) as u32) << 8 | (((x & 0xff) as u8) as u32) == x)
        by (bit_vector);
    assert(spec_u32_from_be_bytes(spec_u32_to_be_bytes(x)) == ((b0 as u32) << 24 | (b1 as u32)
        << 16 | (b2 as u32) << 8 | (b3 as u32)));
}

/// The big-endian bytes of a signed 32-bit value, as the protocol writes it.
pub open spec fn spec_i32_to_be_bytes(x: i32) -> Seq<u8> {
    spec_u32_to_be_bytes(i32_to_u32(x))
}

pub open spec fn spec_i32_from_be_bytes(s: Seq<u8>) -> i32
    recommends
        s.len() == 4,
{
    u32_to_i32(spec_u32_from_be_bytes(s))
}

pub proof fn lemma_i32_be_roundtrip(x: i32)
    ensures
        spec_i32_to_be_bytes(x).len() == 4,
        spec_i32_from_be_bytes(spec_i32_to_be_bytes(x)) == x,
{
    lemma_u32_be_roundtrip(i32_to_u32(x));
    lemma_i32_u32_roundtrip(x);
}

// ---------------------------------------------------------------------------
// NUL-terminated strings.
// ---------------------------------------------------------------------------

/// Index of the first NUL byte of `s`, or `s.len()` if there is none.
pub open spec fn nul_pos(s: Seq<u8>) -> int
    decreases s.len(),
{
    if s.len() == 0 {
        0
    } else if s[0] == 0 {
        0
    } else {
        1 + nul_pos(s.skip(1))
    }
}

pub open spec fn no_nul(s: Seq<u8>) -> bool {
    forall|i: int| 0 <= i < s.len() ==> s[i] != 0
}

pub proof fn lemma_nul_pos_bounds(s: Seq<u8>)
    ensures
        0 <= nul_pos(s) <= s.len(),
        nul_pos(s) < s.len() ==> s[nul_pos(s)] == 0,
        forall|j: int| 0 <= j < nul_pos(s) ==> s[j] != 0,
    decreases s.len(),
{
    if s.len() == 0 {
    } else if s[0] == 0 {
    } else {
        lemma_nul_pos_bounds(s.skip(1));
        assert forall|j: int| 0 <= j < nul_pos(s) implies s[j] != 0 by {
            if j > 0 {
                assert(s.skip(1)[j - 1] != 0);
            }
        }
    }
}

/// A scan that saw no NUL before `m`, and one at `m` unless the sequence
/// ends there, has found the first NUL.
pub proof fn lemma_nul_pos_is(s: Seq<u8>, m: int)
    requires
        0 <= m <= s.len(),
        forall|k: int| 0 <= k < m ==> s[k] != 0,
        m < s.len() ==> s[m] == 0,
    ensures
        nul_pos(s) == m,
    decreases s.len(),
{
    if s.len() == 0 {
    } else if m == 0 {
    } else {
        assert(s[0] != 0);
        assert forall|k: int| 0 <= k < m - 1 implies s.skip(1)[k] != 0 by {
            assert(s.skip(1)[k] == s[k + 1]);
        }
        lemma_nul_pos_is(s.skip(1), m - 1);
    }
}

/// A string with no interior NUL followed by its terminator puts the first
/// NUL exactly at the string's end, whatever follows.
pub proof fn lemma_nul_pos_terminated(v: Seq<u8>, rest: Seq<u8>)
    requires
        no_nul(v),
    ensures
        nul_pos(v + seq![0u8] + rest) == v.len(),
    decreases v.len(),
{
    let s = v + seq![0u8] + rest;
    if v.len() == 0 {
        assert(s[0] == 0);
    } else {
        assert(s[0] == v[0]);
        assert(s.skip(1) =~= v.skip(1) + seq![0u8] + rest);
        lemma_nul_pos_terminated(v.skip(1), rest);
    }
}

// ---------------------------------------------------------------------------
// UTF-8 validity, as the framing layer checks it on every decoded string.
// ---------------------------------------------------------------------------

pub open spec fn utf8_cont(b: u8) -> bool {
    0x80 <= b <= 0xbf
}

/// Well-formedness of a byte sequence as UTF-8, one encoded scalar value at a
/// time (the shortest-form and surrogate restrictions included).
pub open spec fn is_utf8(s: Seq<u8>) -> bool
    decreases s.len(),
{
    if s.len() == 0 {
        true
    } else {
        let b0 = s[0];
        if b0 < 0x80 {
            is_utf8(s.skip(1))
        } else if 0xc2 <= b0 <= 0xdf {
            s.len() >= 2 && utf8_cont(s[1]) && is_utf8(s.skip(2))
        } else if b0 == 0xe0 {
            s.len() >= 3 && 0xa0 <= s[1] <= 0xbf && utf8_cont(s[2]) && is_utf8(s.skip(3))
        } else if 0xe1 <= b0 <= 0xec || b0 == 0xee || b0 == 0xef {
            s.len() >= 3 && utf8_cont(s[1]) && utf8_cont(s[2]) && is_utf8(s.skip(3))
        } else if b0 == 0xed {
            s.len() >= 3 && 0x80 <= s[1] <= 0x9f && utf8_cont(s[2]) && is_utf8(s.skip(3))
        } else if b0 == 0xf0 {
            s.len() >= 4 && 0x90 <= s[1] <= 0xbf && utf8_cont(s[2]) && utf8_cont(s[3]) && is_utf8(
                s.skip(4),
            )
        } else if 0xf1 <= b0 <= 0xf3 {
            s.len() >= 4 && utf8_cont(s[1]) && utf8_cont(s[2]) && utf8_cont(s[3]) && is_utf8(
                s.skip(4),
            )
        } else if b0 == 0xf4 {
            s.len() >= 4 && 0x80 <= s[1] <= 0x8f && utf8_cont(s[2]) && utf8_cont(s[3]) && is_utf8(
                s.skip(4),
            )
        } else {
            false
        }
    }
}

pub open spec fn all_ascii(s: Seq<u8>) -> bool {
    forall|i: int| 0 <= i < s.len() ==> s[i] < 0x80
}

pub proof fn lemma_ascii_is_utf8(s: Seq<u8>)
    requires
        all_ascii(s),
    ensures
        is_utf8(s),
    decreases s.len(),
{
    if s.len() > 0 {
        lemma_ascii_is_utf8(s.skip(1));
    }
}

/// Whether `v` is well-formed UTF-8; checks one encoded character per step.
pub fn is_utf8_exec(v: &[u8]) -> (r: bool)
    ensures
        r == is_utf8(v@),
{
    let n: usize = v.len();
    let mut i: usize = 0;
    assert(v@.skip(0) =~= v@);
    loop
        invariant
            0 <= i <= n,
            n == v@.len(),
            is_utf8(v@) == is_utf8(v@.skip(i as int)),
        decreases n - i,
    {
        if i == n {
            assert(v@.skip(i as int) =~= Seq::<u8>::empty());
            return true;
        }
        let s = Ghost(v@.skip(i as int));
        assert(s@[0] == v@[i as int]);
        let left: usize = n - i;
        let b0 = v[i];
        let width: usize = if b0 < 0x80 {
            1
        } else if 0xc2 <= b0 && b0 <= 0xdf {
            if !(left >= 2 && cont_at(v, i + 1)) {
                assert(!is_utf8(s@));
                return false;
            }
            2
        } else if b0 == 0xe0 {
            if !(left >= 3 && 0xa0 <= v[i + 1] && v[i + 1] <= 0xbf && cont_at(v, i + 2)) {
                assert(!is_utf8(s@));
                return false;
            }
            3
        } else if (0xe1 <= b0 && b0 <= 0xec) || b0 == 0xee || b0 == 0xef {
            if !(left >= 3 && cont_at(v, i + 1) && cont_at(v, i + 2)) {
                assert(!is_utf8(s@));
                return false;
            }
            3
        } else if b0 == 0xed {
            if !(left >= 3 && 0x80 <= v[i + 1] && v[i + 1] <= 0x9f && cont_at(v, i + 2)) {
                assert(!is_utf8(s@));
                return false;
            }
            3
        } else if b0 == 0xf0 {
            if !(left >= 4 && 0x90 <= v[i + 1] && v[i + 1] <= 0xbf && cont_at(v, i + 2) && cont_at(
                v,
                i + 3,
            )) {
                assert(!is_utf8(s@));
                return false;
            }
            4
        } else if 0xf1 <= b0 && b0 <= 0xf3 {
            if !(left >= 4 && cont_at(v, i + 1) && cont_at(v, i + 2) && cont_at(v, i + 3)) {
                assert(!is_utf8(s@));
                return false;
            }
            4
        } else if b0 == 0xf4 {
            if !(left >= 4 && 0x80 <= v[i + 1] && v[i + 1] <= 0x8f && cont_at(v, i + 2) && cont_at(
                v,
                i + 3,
            )) {
                assert(!is_utf8(s@));
                return false;
            }
            4
        } else {
            assert(!is_utf8(s@));
            return false;
        };
        assert(is_utf8(s@) == is_utf8(s@.skip(width as int)));
        assert(s@.skip(width as int) =~= v@.skip(i + width as int));
        i = i + width;
    }
}

fn cont_at(v: &[u8], j: usize) -> (r: bool)
    requires
        j < v@.len(),
    ensures
        r == utf8_cont(v@[j as int]),
{
    0x80 <= v[j] && v[j] <= 0xbf
}

/// A fresh vector with the same bytes.
pub fn copy_bytes(v: &[u8]) -> (r: Vec<u8>)
    ensures
        r@ == v@,
{
    let n: usize = v.len();
    let mut out: Vec<u8> = Vec::new();
    let mut i: usize = 0;
    while i < n
        invariant
            0 <= i <= n,
            n == v@.len(),
            out@ == v@.take(i as int),
        decreases n - i,
    {
        out.push(v[i]);
        proof {
            assert(out@ =~= v@.take(i + 1));
        }
        i = i + 1;
    }
    proof {
        assert(v@.take(n as int) =~= v@);
    }
    out
}

/// Byte-for-byte equality of two slices.
pub fn bytes_eq(a: &[u8], b: &[u8]) -> (r: bool)
    ensures
        r == (a@ == b@),
{
    let n: usize = a.len();
    if n != b.len() {
        return false;
    }
    let mut i: usize = 0;
    while i < n
        invariant
            0 <= i <= n,
            n == a@.len() == b@.len(),
            forall|k: int| 0 <= k < i ==> a@[k] == b@[k],
        decreases n - i,
    {
        if a[i] != b[i] {
            return false;
        }
        i = i + 1;
    }
    proof {
        assert(a@ =~= b@);
    }
    true
}

// ---------------------------------------------------------------------------
// Decimal rendering of row counts and object ids, for command tags.
// ---------------------------------------------------------------------------

/// The usual decimal digits of `n`, most significant first.
pub open spec fn spec_dec_bytes(n: nat) -> Seq<u8>
    decreases n,
{
    if n < 10 {
        seq![(48 + n) as u8]
    } else {
        spec_dec_bytes(n / 10) + seq![(48 + n % 10) as u8]
    }
}

pub proof fn lemma_dec_bytes_digits(n: nat)
    ensures
        spec_dec_bytes(n).len() >= 1,
        forall|i: int|
            0 <= i < spec_dec_bytes(n).len() ==> 48 <= #[trigger] spec_dec_bytes(n)[i] <= 57,
    decreases n,
{
    if n >= 10 {
        lemma_dec_bytes_digits(n / 10);
    }
}

/// Appends the decimal digits of `n` to `out`.
pub fn push_dec_bytes(out: &mut Vec<u8>, n: u64)
    ensures
        final(out)@ == old(out)@ + spec_dec_bytes(n as nat),
    decreases n,
{
    if n < 10 {
        out.push(48 + n as u8);
    } else {
        push_dec_bytes(out, n / 10);
        out.push(48 + (n % 10) as u8);
    }
}

} // verus!
