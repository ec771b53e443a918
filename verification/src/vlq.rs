//! The variable-length unsigned integer encoding and the zig-zag transform
//! for signed values.
//!
//! Each encoded byte carries seven value bits; a set high bit flags a
//! continuation byte, so small values occupy one byte and the encoding is
//! self-terminating.

use vstd::prelude::*;

verus! {

/// The canonical variable-length encoding of `n`: seven value bits per byte,
/// least-significant group first, high bit set on every byte but the last.
pub open spec fn varint_bytes(n: nat) -> Seq<u8>
    decreases n,
{
    if n < 128 {
        seq![n as u8]
    } else {
        seq![(n % 128 + 128) as u8] + varint_bytes(n / 128)
    }
}

/// 128 raised to the power `k`: the place value of the `k`-th encoded group.
pub open spec fn pow128(k: nat) -> nat
    decreases k,
{
    if k == 0 {
        1
    } else {
        128 * pow128((k - 1) as nat)
    }
}

/// What a reader finds at position `pos` of `s` after having consumed `k`
/// continuation groups accumulating to `acc`: either a decoded `u64` and the
/// position just past its last byte, or nothing, when the stream ends inside
/// the integer or the value cannot fit in 64 bits.
pub open spec fn parse_varint_rec(s: Seq<u8>, pos: int, k: nat, acc: nat) -> Option<(u64, int)>
    decreases 10 - k,
{
    if k >= 10 || pos < 0 || pos >= s.len() {
        None
    } else {
        let b = s[pos];
        let acc2 = acc + ((b % 128) as nat) * pow128(k);
        if b < 128 {
            if acc2 <= u64::MAX {
                Some((acc2 as u64, pos + 1))
            } else {
                None
            }
        } else {
            if k == 9 {
                None
            } else {
                parse_varint_rec(s, pos + 1, (k + 1) as nat, acc2)
            }
        }
    }
}

/// The value and end position of the variable-length integer starting at
/// `pos` in `s`, if any.
pub open spec fn parse_varint(s: Seq<u8>, pos: int) -> Option<(u64, int)> {
    parse_varint_rec(s, pos, 0, 0)
}

/// The zig-zag transform: maps signed values to unsigned ones so that small
/// magnitudes of either sign stay small under the variable-length encoding.
pub open spec fn zigzag(v: int) -> nat {
    if v >= 0 {
        (2 * v) as nat
    } else {
        (-2 * v - 1) as nat
    }
}

/// The inverse of the zig-zag transform, on values decoded as `u64`.
pub open spec fn unzigzag64(n: u64) -> int {
    if n % 2 == 0 {
        (n / 2) as int
    } else {
        -((n / 2) as int) - 1
    }
}

/// The zig-zag image of any `i64` fits in a `u64`, and the transform round
/// trips.
pub proof fn lemma_zigzag_roundtrip(v: i64)
    ensures
        zigzag(v as int) <= u64::MAX,
        unzigzag64(zigzag(v as int) as u64) == v as int,
{
}

/// The encoding of `n` never exceeds ten bytes and is never empty.
pub proof fn lemma_varint_bytes_len(n: nat)
    requires
        n <= u64::MAX,
    ensures
        1 <= varint_bytes(n).len() <= 10,
    decreases n,
{
    if n >= 128 {
        lemma_varint_bytes_len(n / 128);
        if varint_bytes(n / 128).len() == 10 {
            lemma_varint_min_value(n / 128);
            lemma_pow128_values();
            assert(n >= 128 * (n / 128)) by (nonlinear_arith);
            assert(128 * (n / 128) >= 128 * pow128(9)) by (nonlinear_arith)
                requires n / 128 >= pow128(9);
            assert(false);
        }
    }
}

/// A positive value whose encoding takes `l` bytes is at least `128^(l-1)`.
pub proof fn lemma_varint_min_value(n: nat)
    requires
        n >= 1,
    ensures
        n >= pow128((varint_bytes(n).len() - 1) as nat),
    decreases n,
{
    if n >= 128 {
        lemma_varint_min_value(n / 128);
        let l = varint_bytes(n / 128).len();
        assert(l >= 1);
        assert(varint_bytes(n).len() == l + 1);
        assert(n / 128 >= pow128((l - 1) as nat));
        assert(n >= 128 * (n / 128)) by (nonlinear_arith)
            requires n >= 128;
        assert(128 * (n / 128) >= 128 * pow128((l - 1) as nat)) by (nonlinear_arith)
            requires n / 128 >= pow128((l - 1) as nat);
        assert(pow128(l as nat) == 128 * pow128((l - 1) as nat));
    }
}

/// Every power of 128 is positive.
pub proof fn lemma_pow128_pos(k: nat)
    ensures
        pow128(k) >= 1,
    decreases k,
{
    if k > 0 {
        lemma_pow128_pos((k - 1) as nat);
        assert(128 * pow128((k - 1) as nat) >= 1) by (nonlinear_arith)
            requires pow128((k - 1) as nat) >= 1;
    }
}

/// The ninth power of 128 is two to the sixty-third.
pub proof fn lemma_pow128_values()
    ensures
        pow128(9) == 0x8000000000000000,
{
    assert(pow128(0) == 1);
    assert(pow128(1) == 128);
    assert(pow128(2) == 0x4000);
    assert(pow128(3) == 0x200000);
    assert(pow128(4) == 0x10000000);
    assert(pow128(5) == 0x800000000);
    assert(pow128(6) == 0x40000000000);
    assert(pow128(7) == 0x2000000000000);
    assert(pow128(8) == 0x100000000000000);
    assert(pow128(9) == 0x8000000000000000);
}

/// `pow128` grows with its argument.
pub proof fn lemma_pow128_mono(j: nat, k: nat)
    requires
        j <= k,
    ensures
        pow128(j) <= pow128(k),
    decreases k - j,
{
    if j < k {
        lemma_pow128_mono(j, (k - 1) as nat);
        lemma_pow128_pos((k - 1) as nat);
        assert(pow128((k - 1) as nat) <= 128 * pow128((k - 1) as nat)) by (nonlinear_arith)
            requires pow128((k - 1) as nat) >= 1;
    }
}

/// `pow128` stays within `u64` up to `k == 9`.
pub proof fn lemma_pow128_bounds(k: nat)
    requires
        k <= 9,
    ensures
        pow128(k) >= 1,
        pow128(k) <= 0x8000000000000000,
{
    lemma_pow128_pos(k);
    lemma_pow128_values();
    lemma_pow128_mono(k, 9);
}

proof fn lemma_parse_varint_range_rec(s: Seq<u8>, pos: int, k: nat, acc: nat)
    ensures
        match parse_varint_rec(s, pos, k, acc) {
            Some((n, p)) => pos < p <= s.len(),
            None => true,
        },
    decreases 10 - k,
{
    if k < 10 && 0 <= pos < s.len() {
        let b = s[pos];
        if b >= 128 && k < 9 {
            lemma_parse_varint_range_rec(s, pos + 1, (k + 1) as nat, acc + ((b % 128) as nat) * pow128(k));
        }
    }
}

/// A successful parse always ends past its start and within the stream.
pub proof fn lemma_parse_varint_range(s: Seq<u8>, pos: int)
    ensures
        match parse_varint(s, pos) {
            Some((n, p)) => pos < p <= s.len(),
            None => true,
        },
{
    lemma_parse_varint_range_rec(s, pos, 0, 0);
}

/// Wherever the canonical encoding of `m` sits in a stream, the parser finds
/// exactly `m` (shifted into its place value) and stops just past it.
pub proof fn lemma_parse_varint_encode_rec(s: Seq<u8>, pos: int, k: nat, acc: nat, m: nat)
    requires
        0 <= pos,
        pos + varint_bytes(m).len() <= s.len(),
        forall|i: int|
            0 <= i < varint_bytes(m).len() ==> s[pos + i] == varint_bytes(m)[i],
        k <= 9,
        acc < pow128(k),
        acc + m * pow128(k) <= u64::MAX,
    ensures
        parse_varint_rec(s, pos, k, acc) == Some(
            ((acc + m * pow128(k)) as u64, pos + varint_bytes(m).len()),
        ),
    decreases m,
{
    lemma_pow128_bounds(k);
    if m < 128 {
        assert(s[pos + 0] == varint_bytes(m)[0]);
        assert(s[pos] == m as u8);
        let b = s[pos];
        assert(b % 128 == m);
        assert(parse_varint_rec(s, pos, k, acc) == Some(
            ((acc + m * pow128(k)) as u64, pos + 1),
        ));
    } else {
        assert(s[pos + 0] == varint_bytes(m)[0]);
        let b = s[pos];
        assert(b == (m % 128 + 128) as u8);
        assert(b >= 128);
        assert(b % 128 == m % 128);
        // A continuation group at position nine would push the value past
        // sixty-four bits, which the precondition rules out.
        if k == 9 {
            lemma_pow128_values();
            assert(m * pow128(9) >= 128 * pow128(9)) by (nonlinear_arith)
                requires m >= 128, pow128(9) >= 1;
            assert(false);
        }
        let acc2 = acc + (m % 128) * pow128(k);
        assert(pow128((k + 1) as nat) == 128 * pow128(k));
        // The new accumulator still sits below the next place value.
        assert(acc + (m % 128) * pow128(k) < 128 * pow128(k)) by (nonlinear_arith)
            requires
                acc < pow128(k),
                m % 128 < 128,
                pow128(k) >= 1,
        ;
        assert(acc2 < pow128((k + 1) as nat));
        // The remaining value keeps the same total.
        assert(m == 128 * (m / 128) + m % 128) by (nonlinear_arith);
        assert(m * pow128(k) == (m / 128) * pow128((k + 1) as nat) + (m % 128) * pow128(k))
            by (nonlinear_arith)
            requires
                m == 128 * (m / 128) + m % 128,
                pow128((k + 1) as nat) == 128 * pow128(k),
        ;
        assert(acc2 + (m / 128) * pow128((k + 1) as nat) == acc + m * pow128(k));
        assert(varint_bytes(m) == seq![b] + varint_bytes(m / 128));
        assert(forall|i: int|
            0 <= i < varint_bytes(m / 128).len() ==> #[trigger] s[pos + 1 + i] == varint_bytes(
                m / 128,
            )[i]) by {
            assert(forall|i: int|
                0 <= i < varint_bytes(m / 128).len() ==> #[trigger] varint_bytes(m / 128)[i]
                    == varint_bytes(m)[i + 1]);
            assert(forall|i: int|
                0 <= i < varint_bytes(m / 128).len() ==> #[trigger] s[pos + 1 + i] == varint_bytes(
                    m,
                )[i + 1]);
        }
        lemma_parse_varint_encode_rec(s, pos + 1, (k + 1) as nat, acc2, m / 128);
        assert(varint_bytes(m).len() == 1 + varint_bytes(m / 128).len());
    }
}

/// Wherever the canonical encoding of a `u64` value sits in a stream, the
/// parser recovers exactly that value and stops just past its last byte.
pub proof fn lemma_parse_varint_encode(s: Seq<u8>, pos: int, n: u64)
    requires
        0 <= pos,
        pos + varint_bytes(n as nat).len() <= s.len(),
        forall|i: int|
            0 <= i < varint_bytes(n as nat).len() ==> s[pos + i] == varint_bytes(n as nat)[i],
    ensures
        parse_varint(s, pos) == Some((n, pos + varint_bytes(n as nat).len())),
{
    assert(n as nat * pow128(0) == n as nat) by (nonlinear_arith)
        requires pow128(0) == 1;
    lemma_parse_varint_encode_rec(s, pos, 0, 0, n as nat);
}

} // verus!
