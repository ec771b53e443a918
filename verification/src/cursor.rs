//! Growable output buffer and consumable input cursor over a byte sequence.
//!
//! The reader carries the remaining recursion-depth budget used by the tree
//! decoder: entering a child node spends one unit and leaving restores it, so
//! adversarial nesting is rejected instead of exhausting the stack.

use vstd::prelude::*;

use crate::errors::CodecError;
use crate::vlq::{
    lemma_pow128_bounds, lemma_pow128_values, parse_varint, parse_varint_rec, pow128, unzigzag64,
    varint_bytes, zigzag,
};

verus! {

/// A growable output buffer for one encode operation.
pub struct ByteWriter {
    /// The bytes written so far, in order.
    pub bytes: Vec<u8>,
}

impl ByteWriter {
    /// An empty buffer.
    pub fn new() -> (r: ByteWriter)
        ensures
            r.bytes@ == Seq::<u8>::empty(),
    {
        ByteWriter { bytes: Vec::new() }
    }

    /// Appends one byte.
    pub fn write_u8(&mut self, b: u8)
        ensures
            final(self).bytes@ == old(self).bytes@.push(b),
    {
        self.bytes.push(b);
    }

    /// Appends a whole byte slice.
    pub fn write_bytes(&mut self, buf: &[u8])
        ensures
            final(self).bytes@ == old(self).bytes@ + buf@,
    {
        let mut i: usize = 0;
        while i < buf.len()
            invariant
                i <= buf.len(),
                self.bytes@ == old(self).bytes@ + buf@.take(i as int),
            decreases buf.len() - i,
        {
            self.bytes.push(buf[i]);
            proof {
                assert(buf@.take(i + 1) == buf@.take(i as int).push(buf@[i as int]));
            }
            i = i + 1;
        }
        proof {
            assert(buf@.take(buf@.len() as int) == buf@);
        }
    }

    /// Appends the variable-length encoding of `v`.
    pub fn write_varint(&mut self, v: u64)
        ensures
            final(self).bytes@ == old(self).bytes@ + varint_bytes(v as nat),
    {
        let ghost v0 = v;
        let mut v = v;
        loop
            invariant_except_break
                old(self).bytes@ + varint_bytes(v0 as nat) == self.bytes@ + varint_bytes(v as nat),
            ensures
                self.bytes@ == old(self).bytes@ + varint_bytes(v0 as nat),
            decreases v,
        {
            if v < 128 {
                self.bytes.push(v as u8);
                proof {
                    assert(varint_bytes(v as nat) == seq![v as u8]);
                    assert(self.bytes@ =~= old(self).bytes@ + varint_bytes(v0 as nat));
                }
                break;
            } else {
                let b: u8 = ((v % 128) + 128) as u8;
                self.bytes.push(b);
                proof {
                    assert(varint_bytes(v as nat) == seq![b] + varint_bytes((v as nat) / 128));
                    assert(self.bytes@ + varint_bytes((v / 128) as nat) =~= old(self).bytes@
                        + varint_bytes(v0 as nat));
                }
                v = v / 128;
            }
        }
    }

    /// Appends the variable-length encoding of the zig-zag image of `v`.
    pub fn write_signed_varint(&mut self, v: i64)
        ensures
            final(self).bytes@ == old(self).bytes@ + varint_bytes(zigzag(v as int)),
    {
        let u: u64 = if v >= 0 {
            (v as u64) * 2
        } else {
            (((-(v + 1)) as u64) * 2) + 1
        };
        assert(u as nat == zigzag(v as int));
        self.write_varint(u);
    }

    /// Hands the accumulated bytes out, consuming the writer.
    pub fn into_bytes(self) -> (r: Vec<u8>)
        ensures
            r@ == self.bytes@,
    {
        self.bytes
    }
}

/// A consumable cursor over an input byte sequence, carrying the remaining
/// recursion-depth budget for the tree decoder.
pub struct ByteReader {
    /// The full input.
    pub bytes: Vec<u8>,
    /// The position of the next unread byte.
    pub pos: usize,
    /// How many more levels of nesting the decoder may enter.
    pub depth_left: u32,
}

impl ByteReader {
    /// A cursor at the start of `bytes` with the given depth budget.
    pub fn new(bytes: Vec<u8>, depth_limit: u32) -> (r: ByteReader)
        ensures
            r.bytes@ == bytes@,
            r.pos == 0,
            r.depth_left == depth_limit,
    {
        ByteReader { bytes, pos: 0, depth_left: depth_limit }
    }

    /// Whether every input byte has been consumed.
    pub fn is_at_end(&self) -> (r: bool)
        ensures
            r <==> self.pos == self.bytes@.len(),
    {
        self.pos == self.bytes.len()
    }

    /// Reads one byte, failing on an exhausted input.
    pub fn read_u8(&mut self) -> (r: Result<u8, CodecError>)
        ensures
            final(self).bytes@ == old(self).bytes@,
            final(self).depth_left == old(self).depth_left,
            old(self).pos < old(self).bytes@.len() ==> r == Ok::<u8, CodecError>(
                old(self).bytes@[old(self).pos as int],
            ) && final(self).pos == old(self).pos + 1,
            old(self).pos >= old(self).bytes@.len() ==> r == Err::<u8, CodecError>(
                CodecError::MalformedInput,
            ) && final(self).pos == old(self).pos,
    {
        if self.pos < self.bytes.len() {
            let b = self.bytes[self.pos];
            self.pos = self.pos + 1;
            Ok(b)
        } else {
            Err(CodecError::MalformedInput)
        }
    }

    /// Reads `n` bytes, failing without reading past the end of the input.
    pub fn read_bytes(&mut self, n: usize) -> (r: Result<Vec<u8>, CodecError>)
        ensures
            final(self).bytes@ == old(self).bytes@,
            final(self).depth_left == old(self).depth_left,
            old(self).pos + n <= old(self).bytes@.len() ==> match r {
                Ok(v) => v@ == old(self).bytes@.subrange(
                    old(self).pos as int,
                    old(self).pos + n,
                ) && final(self).pos == old(self).pos + n,
                Err(_) => false,
            },
            old(self).pos + n > old(self).bytes@.len() ==> r == Err::<Vec<u8>, CodecError>(
                CodecError::MalformedInput,
            ) && final(self).pos == old(self).pos,
    {
        if self.pos > self.bytes.len() || n > self.bytes.len() - self.pos {
            return Err(CodecError::MalformedInput);
        }
        let mut out: Vec<u8> = Vec::new();
        let mut i: usize = 0;
        while i < n
            invariant
                i <= n,
                self.pos + n <= self.bytes@.len(),
                self.bytes@.len() <= usize::MAX,
                self.bytes@ == old(self).bytes@,
                self.pos == old(self).pos,
                self.depth_left == old(self).depth_left,
                out@ == self.bytes@.subrange(self.pos as int, self.pos + i),
            decreases n - i,
        {
            out.push(self.bytes[self.pos + i]);
            proof {
                assert(self.bytes@.subrange(self.pos as int, self.pos + i + 1)
                    =~= self.bytes@.subrange(self.pos as int, self.pos + i).push(
                    self.bytes@[self.pos + i],
                ));
            }
            i = i + 1;
        }
        self.pos = self.pos + n;
        Ok(out)
    }

    /// Reads one variable-length unsigned integer, failing on a truncated
    /// stream or a value that cannot fit in sixty-four bits.
    pub fn read_varint(&mut self) -> (r: Result<u64, CodecError>)
        ensures
            final(self).bytes@ == old(self).bytes@,
            final(self).depth_left == old(self).depth_left,
            match parse_varint(old(self).bytes@, old(self).pos as int) {
                Some((n, p)) => r == Ok::<u64, CodecError>(n) && final(self).pos == p,
                None => r == Err::<u64, CodecError>(CodecError::MalformedInput),
            },
    {
        let ghost s = self.bytes@;
        let ghost start = self.pos as int;
        let mut acc: u64 = 0;
        let mut place: u64 = 1;
        let mut k: usize = 0;
        loop
            invariant
                s == old(self).bytes@,
                start == old(self).pos as int,
                self.bytes@ == s,
                self.depth_left == old(self).depth_left,
                k <= 9,
                place == pow128(k as nat),
                acc < place || k == 0,
                acc == 0 || k > 0,
                self.pos == start + k,
                start >= 0,
                parse_varint(s, start) == parse_varint_rec(s, self.pos as int, k as nat, acc as nat),
            decreases 10 - k,
        {
            proof {
                lemma_pow128_bounds(k as nat);
            }
            if self.pos >= self.bytes.len() {
                return Err(CodecError::MalformedInput);
            }
            let b = self.bytes[self.pos];
            self.pos = self.pos + 1;
            let low: u64 = (b % 128) as u64;
            proof {
                lemma_pow128_values();
            }
            if k == 9 && low >= 2 {
                proof {
                    assert((low as nat) * pow128(9) >= 2 * pow128(9)) by (nonlinear_arith)
                        requires low >= 2, pow128(9) >= 1;
                }
                return Err(CodecError::MalformedInput);
            }
            proof {
                if k < 9 {
                    assert((low as nat) * pow128(k as nat) <= 127 * pow128(k as nat))
                        by (nonlinear_arith)
                        requires low <= 127, pow128(k as nat) >= 1;
                    assert(128 * pow128(k as nat) == pow128((k + 1) as nat));
                    lemma_pow128_bounds((k + 1) as nat);
                }
            }
            let acc2: u64 = acc + low * place;
            proof {
                assert(acc2 as nat == acc as nat + (low as nat) * pow128(k as nat));
            }
            if b < 128 {
                return Ok(acc2);
            }
            if k == 9 {
                return Err(CodecError::MalformedInput);
            }
            proof {
                assert(acc2 < pow128((k + 1) as nat)) by {
                    assert((low as nat) * pow128(k as nat) <= 127 * pow128(k as nat))
                        by (nonlinear_arith)
                        requires low <= 127, pow128(k as nat) >= 1;
                }
            }
            k = k + 1;
            place = place * 128;
            acc = acc2;
        }
    }

    /// Reads one variable-length integer and undoes the zig-zag transform.
    pub fn read_signed_varint(&mut self) -> (r: Result<i64, CodecError>)
        ensures
            final(self).bytes@ == old(self).bytes@,
            final(self).depth_left == old(self).depth_left,
            match parse_varint(old(self).bytes@, old(self).pos as int) {
                Some((n, p)) => r == Ok::<i64, CodecError>(unzigzag64(n) as i64)
                    && final(self).pos == p,
                None => r == Err::<i64, CodecError>(CodecError::MalformedInput),
            },
    {
        let n = match self.read_varint() {
            Ok(n) => n,
            Err(e) => {
                return Err(e);
            },
        };
        let half = n / 2;
        if n % 2 == 0 {
            Ok(half as i64)
        } else {
            Ok(-(half as i64) - 1)
        }
    }

    /// Spends one unit of the recursion-depth budget, failing when it is
    /// already exhausted.
    pub fn enter_node(&mut self) -> (r: Result<(), CodecError>)
        ensures
            final(self).bytes@ == old(self).bytes@,
            final(self).pos == old(self).pos,
            old(self).depth_left > 0 ==> r == Ok::<(), CodecError>(()) && final(self).depth_left
                == old(self).depth_left - 1,
            old(self).depth_left == 0 ==> r == Err::<(), CodecError>(
                CodecError::RecursionLimitExceeded,
            ) && final(self).depth_left == old(self).depth_left,
    {
        if self.depth_left == 0 {
            Err(CodecError::RecursionLimitExceeded)
        } else {
            self.depth_left = self.depth_left - 1;
            Ok(())
        }
    }

    /// Restores one unit of the recursion-depth budget on leaving a node.
    pub fn leave_node(&mut self)
        requires
            old(self).depth_left < u32::MAX,
        ensures
            final(self).bytes@ == old(self).bytes@,
            final(self).pos == old(self).pos,
            final(self).depth_left == old(self).depth_left + 1,
    {
        self.depth_left = self.depth_left + 1;
    }
}

} // verus!
