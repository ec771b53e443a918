//! Per-field scalar codecs bridging compact internal representations to
//! external textual forms: a compressed elliptic-curve point held as raw
//! bytes, a nonce as a lowercase hexadecimal string, and a proof-of-work
//! distance as a decimal string.
//!
//! The distance domain is non-negative: it is held as a `u64`, so a leading
//! minus sign, any other non-digit, and any value past the 64-bit boundary
//! are all rejected as `ValueOutOfRange`, never silently defaulted.

use vstd::prelude::*;

use crate::errors::CodecError;

verus! {

/// Size in bytes of a compressed elliptic-curve point.
pub const EC_POINT_SIZE: usize = 33;

/// A compressed elliptic-curve public key, held as its 33-byte point form.
#[derive(Debug, PartialEq, Eq)]
pub struct EcPoint {
    bytes: Vec<u8>,
}

impl View for EcPoint {
    type V = Seq<u8>;

    closed spec fn view(&self) -> Seq<u8> {
        self.bytes@
    }
}

impl EcPoint {
    /// Every point carries exactly its compressed byte length.
    pub open spec fn is_valid(&self) -> bool {
        self@.len() == EC_POINT_SIZE
    }

    /// Wraps compressed point bytes, rejecting any other length.
    pub fn from_bytes(b: Vec<u8>) -> (r: Result<EcPoint, CodecError>)
        ensures
            b@.len() == EC_POINT_SIZE ==> match r {
                Ok(p) => p@ == b@ && p.is_valid(),
                Err(_) => false,
            },
            b@.len() != EC_POINT_SIZE ==> r == Err::<EcPoint, CodecError>(
                CodecError::MalformedInput,
            ),
    {
        if b.len() == EC_POINT_SIZE {
            Ok(EcPoint { bytes: b })
        } else {
            Err(CodecError::MalformedInput)
        }
    }

    /// The compressed point bytes.
    pub fn as_bytes(&self) -> (r: &Vec<u8>)
        ensures
            r@ == self@,
    {
        &self.bytes
    }
}

/// The lowercase character for one digit value below sixteen.
pub open spec fn digit_char(n: nat) -> char {
    if n == 0 {
        '0'
    } else if n == 1 {
        '1'
    } else if n == 2 {
        '2'
    } else if n == 3 {
        '3'
    } else if n == 4 {
        '4'
    } else if n == 5 {
        '5'
    } else if n == 6 {
        '6'
    } else if n == 7 {
        '7'
    } else if n == 8 {
        '8'
    } else if n == 9 {
        '9'
    } else if n == 10 {
        'a'
    } else if n == 11 {
        'b'
    } else if n == 12 {
        'c'
    } else if n == 13 {
        'd'
    } else if n == 14 {
        'e'
    } else {
        'f'
    }
}

/// The digit value of a lowercase hexadecimal character, if it is one.
pub open spec fn hex_val(c: char) -> Option<nat> {
    if c == '0' {
        Some(0 as nat)
    } else if c == '1' {
        Some(1 as nat)
    } else if c == '2' {
        Some(2 as nat)
    } else if c == '3' {
        Some(3 as nat)
    } else if c == '4' {
        Some(4 as nat)
    } else if c == '5' {
        Some(5 as nat)
    } else if c == '6' {
        Some(6 as nat)
    } else if c == '7' {
        Some(7 as nat)
    } else if c == '8' {
        Some(8 as nat)
    } else if c == '9' {
        Some(9 as nat)
    } else if c == 'a' {
        Some(10 as nat)
    } else if c == 'b' {
        Some(11 as nat)
    } else if c == 'c' {
        Some(12 as nat)
    } else if c == 'd' {
        Some(13 as nat)
    } else if c == 'e' {
        Some(14 as nat)
    } else if c == 'f' {
        Some(15 as nat)
    } else {
        None
    }
}

/// A digit character below sixteen reads back as its value.
pub proof fn lemma_digit_char_val(n: nat)
    requires
        n < 16,
    ensures
        hex_val(digit_char(n)) == Some(n),
{
}

/// A one-character string slice holding the digit character for `n`.
pub fn digit_str(n: u8) -> (r: &'static str)
    requires
        n < 16,
    ensures
        r@ == seq![digit_char(n as nat)],
{
    proof {
        reveal_strlit("0");
        reveal_strlit("1");
        reveal_strlit("2");
        reveal_strlit("3");
        reveal_strlit("4");
        reveal_strlit("5");
        reveal_strlit("6");
        reveal_strlit("7");
        reveal_strlit("8");
        reveal_strlit("9");
        reveal_strlit("a");
        reveal_strlit("b");
        reveal_strlit("c");
        reveal_strlit("d");
        reveal_strlit("e");
        reveal_strlit("f");
    }
    if n == 0 {
        "0"
    } else if n == 1 {
        "1"
    } else if n == 2 {
        "2"
    } else if n == 3 {
        "3"
    } else if n == 4 {
        "4"
    } else if n == 5 {
        "5"
    } else if n == 6 {
        "6"
    } else if n == 7 {
        "7"
    } else if n == 8 {
        "8"
    } else if n == 9 {
        "9"
    } else if n == 10 {
        "a"
    } else if n == 11 {
        "b"
    } else if n == 12 {
        "c"
    } else if n == 13 {
        "d"
    } else if n == 14 {
        "e"
    } else {
        "f"
    }
}

/// The lowercase hexadecimal form of a byte sequence: two digits per byte,
/// high nibble first.
pub open spec fn hex_of(b: Seq<u8>) -> Seq<char>
    decreases b.len(),
{
    if b.len() == 0 {
        Seq::empty()
    } else {
        seq![digit_char((b.first() / 16) as nat), digit_char((b.first() % 16) as nat)] + hex_of(
            b.drop_first(),
        )
    }
}

/// The bytes a hexadecimal character sequence denotes, if it is wholly
/// made of lowercase hexadecimal digit pairs.
pub open spec fn parse_hex(s: Seq<char>) -> Option<Seq<u8>>
    decreases s.len(),
{
    if s.len() == 0 {
        Some(Seq::empty())
    } else if s.len() == 1 {
        None
    } else {
        match (hex_val(s[0]), hex_val(s[1])) {
            (Some(h), Some(l)) => match parse_hex(s.skip(2)) {
                Some(rest) => Some(seq![(h * 16 + l) as u8] + rest),
                None => None,
            },
            _ => None,
        }
    }
}

/// Encodes a byte string as its lowercase hexadecimal form.
pub fn encode_hex(b: &Vec<u8>) -> (r: String)
    ensures
        r@ == hex_of(b@),
{
    let mut out = String::new();
    let mut i: usize = 0;
    while i < b.len()
        invariant
            i <= b@.len(),
            out@ == hex_of(b@.take(i as int)),
        decreases b@.len() - i,
    {
        let byte = b[i];
        out.append(digit_str(byte / 16));
        out.append(digit_str(byte % 16));
        proof {
            lemma_hex_of_push(b@.take(i as int), b@[i as int]);
            assert(b@.take(i + 1) =~= b@.take(i as int).push(b@[i as int]));
            assert(out@ =~= hex_of(b@.take(i + 1)));
        }
        i = i + 1;
    }
    proof {
        assert(b@.take(b@.len() as int) =~= b@);
    }
    out
}

/// Appending one byte appends its two digits to the hexadecimal form.
pub proof fn lemma_hex_of_push(b: Seq<u8>, x: u8)
    ensures
        hex_of(b.push(x)) == hex_of(b) + seq![
            digit_char((x / 16) as nat),
            digit_char((x % 16) as nat),
        ],
    decreases b.len(),
{
    if b.len() == 0 {
        assert(b.push(x).first() == x);
        assert(b.push(x).drop_first() =~= Seq::<u8>::empty());
        assert(hex_of(Seq::<u8>::empty()) =~= Seq::<char>::empty());
        let px = seq![digit_char((x / 16) as nat), digit_char((x % 16) as nat)];
        assert(hex_of(b.push(x)) =~= px);
        assert(hex_of(b) + px =~= px);
    } else {
        assert(b.push(x).first() == b.first());
        assert(b.push(x).drop_first() =~= b.drop_first().push(x));
        lemma_hex_of_push(b.drop_first(), x);
        let a = seq![digit_char((b.first() / 16) as nat), digit_char((b.first() % 16) as nat)];
        let pre = hex_of(b.drop_first());
        let px = seq![digit_char((x / 16) as nat), digit_char((x % 16) as nat)];
        assert(hex_of(b.push(x)) == a + (pre + px));
        assert(a + (pre + px) =~= (a + pre) + px);
        assert(hex_of(b) == a + pre);
    }
}

/// Decodes a lowercase hexadecimal string back to bytes, failing on an odd
/// length or any character outside the lowercase digit set.
pub fn decode_hex(s: &str) -> (r: Result<Vec<u8>, CodecError>)
    ensures
        match parse_hex(s@) {
            Some(b) => match r {
                Ok(v) => v@ == b,
                Err(_) => false,
            },
            None => r == Err::<Vec<u8>, CodecError>(CodecError::MalformedInput),
        },
{
    let n = s.unicode_len();
    let mut out: Vec<u8> = Vec::new();
    let mut i: usize = 0;
    proof {
        assert(s@.skip(0) =~= s@);
        match parse_hex(s@) {
            Some(tail) => {
                assert(Seq::<u8>::empty() + tail =~= tail);
            },
            None => {},
        }
    }
    while i < n
        invariant
            n == s@.len(),
            i <= n,
            i % 2 == 0,
            ({
                let full = parse_hex(s@);
                match parse_hex(s@.skip(i as int)) {
                    Some(tail) => full == Some(out@ + tail),
                    None => full is None,
                }
            }),
        decreases n - i,
    {
        let ghost before = out@;
        let c0 = s.get_char(i);
        let h = match hex_digit_value(c0) {
            Some(h) => h,
            None => {
                return Err(CodecError::MalformedInput);
            },
        };
        if i + 1 >= n {
            return Err(CodecError::MalformedInput);
        }
        let c1 = s.get_char(i + 1);
        let l = match hex_digit_value(c1) {
            Some(l) => l,
            None => {
                return Err(CodecError::MalformedInput);
            },
        };
        out.push(h * 16 + l);
        proof {
            assert(s@.skip(i as int)[0] == s@[i as int]);
            assert(s@.skip(i as int)[1] == s@[i + 1]);
            assert(s@.skip(i as int).skip(2) =~= s@.skip(i + 2));
            match parse_hex(s@.skip(i + 2)) {
                Some(tail) => {
                    assert(before + (seq![(h * 16 + l) as u8] + tail) =~= out@ + tail);
                },
                None => {},
            }
        }
        i = i + 2;
    }
    proof {
        assert(s@.skip(n as int) =~= Seq::<char>::empty());
        assert(out@ + Seq::<u8>::empty() =~= out@);
    }
    Ok(out)
}

/// The digit value of one lowercase hexadecimal character, if it is one.
pub fn hex_digit_value(c: char) -> (r: Option<u8>)
    ensures
        match r {
            Some(v) => hex_val(c) == Some(v as nat) && v < 16,
            None => hex_val(c) is None,
        },
{
    proof {
        reveal_strlit("0");
    }
    match c {
        '0' => Some(0),
        '1' => Some(1),
        '2' => Some(2),
        '3' => Some(3),
        '4' => Some(4),
        '5' => Some(5),
        '6' => Some(6),
        '7' => Some(7),
        '8' => Some(8),
        '9' => Some(9),
        'a' => Some(10),
        'b' => Some(11),
        'c' => Some(12),
        'd' => Some(13),
        'e' => Some(14),
        'f' => Some(15),
        _ => None,
    }
}

/// Hexadecimal round trip: the encoding of any byte string parses back to
/// exactly that byte string.
pub proof fn lemma_hex_round_trip(b: Seq<u8>)
    ensures
        parse_hex(hex_of(b)) == Some(b),
    decreases b.len(),
{
    if b.len() == 0 {
        assert(hex_of(b).len() == 0);
    } else {
        let x = b.first();
        let rest = b.drop_first();
        let s = hex_of(b);
        assert(s == seq![digit_char((x / 16) as nat), digit_char((x % 16) as nat)] + hex_of(rest));
        lemma_digit_char_val((x / 16) as nat);
        lemma_digit_char_val((x % 16) as nat);
        assert(s[0] == digit_char((x / 16) as nat));
        if s.len() == 1 {
            assert(hex_of(rest).len() >= 0);
            assert(false);
        }
        assert(s[1] == digit_char((x % 16) as nat));
        assert(s.skip(2) =~= hex_of(rest));
        lemma_hex_round_trip(rest);
        assert((x / 16) * 16 + x % 16 == x) by (nonlinear_arith);
        assert(seq![x] + rest =~= b);
    }
}

/// The decimal form of a non-negative value: most significant digit first,
/// a single zero for zero, never a leading zero otherwise.
pub open spec fn dec_of(n: nat) -> Seq<char>
    decreases n,
{
    if n < 10 {
        seq![digit_char(n)]
    } else {
        dec_of(n / 10) + seq![digit_char(n % 10)]
    }
}

/// Whether every character of `s` is a decimal digit.
pub open spec fn all_dec_digits(s: Seq<char>) -> bool {
    forall|i: int| 0 <= i < s.len() ==> (hex_val(s[i]) is Some && hex_val(s[i]).unwrap() < 10)
}

/// The value a digit sequence denotes.
pub open spec fn dec_val(s: Seq<char>) -> nat
    decreases s.len(),
{
    if s.len() == 0 {
        0
    } else {
        dec_val(s.drop_last()) * 10 + if hex_val(s.last()) is Some {
            hex_val(s.last()).unwrap()
        } else {
            0
        }
    }
}

/// The value a decimal text denotes as a `u64`: defined exactly when the
/// text is non-empty, wholly decimal digits, and within the 64-bit range.
pub open spec fn parse_dec(s: Seq<char>) -> Option<u64> {
    if s.len() >= 1 && all_dec_digits(s) && dec_val(s) <= u64::MAX {
        Some(dec_val(s) as u64)
    } else {
        None
    }
}


/// The decimal form of any value is non-empty and wholly decimal digits.
pub proof fn lemma_dec_of_digits(n: nat)
    ensures
        dec_of(n).len() >= 1,
        all_dec_digits(dec_of(n)),
    decreases n,
{
    if n < 10 {
        assert(dec_of(n) == seq![digit_char(n)]);
        assert(forall|i: int| 0 <= i < 1 ==> hex_val(#[trigger] dec_of(n)[i]) is Some
            && hex_val(dec_of(n)[i]).unwrap() < 10) by {
            assert(dec_of(n)[0] == digit_char(n));
            lemma_digit_char_val(n);
        }
    } else {
        lemma_dec_of_digits(n / 10);
        let a = dec_of(n / 10);
        let s = dec_of(n);
        assert(s == a + seq![digit_char(n % 10)]);
        lemma_digit_char_val(n % 10);
        assert(forall|i: int| 0 <= i < s.len() ==> hex_val(#[trigger] s[i]) is Some && hex_val(
            s[i],
        ).unwrap() < 10) by {
            assert(forall|i: int| 0 <= i < a.len() ==> s[i] == a[i]);
            assert(s[a.len() as int] == digit_char(n % 10));
        }
    }
}

/// The decimal form of any value reads back as that value.
pub proof fn lemma_dec_val_of(n: nat)
    ensures
        dec_val(dec_of(n)) == n,
    decreases n,
{
    if n < 10 {
        let s = dec_of(n);
        assert(s == seq![digit_char(n)]);
        assert(s.drop_last() =~= Seq::<char>::empty());
        assert(dec_val(Seq::<char>::empty()) == 0);
        assert(s.last() == digit_char(n));
        lemma_digit_char_val(n);
        assert(dec_val(s) == 0 * 10 + n);
    } else {
        lemma_dec_val_of(n / 10);
        let a = dec_of(n / 10);
        let s = dec_of(n);
        assert(s == a + seq![digit_char(n % 10)]);
        assert(s.drop_last() =~= a);
        assert(s.last() == digit_char(n % 10));
        lemma_digit_char_val(n % 10);
    }
}

/// A digit prefix never denotes more than the whole digit text.
pub proof fn lemma_dec_val_prefix(s: Seq<char>, k: int)
    requires
        all_dec_digits(s),
        0 <= k <= s.len(),
    ensures
        dec_val(s) >= dec_val(s.take(k)),
    decreases s.len() - k,
{
    if k < s.len() {
        lemma_dec_val_prefix(s, k + 1);
        assert(s.take(k + 1).drop_last() =~= s.take(k));
        assert(s.take(k + 1).last() == s[k]);
        assert(dec_val(s.take(k + 1)) == dec_val(s.take(k)) * 10 + hex_val(s[k]).unwrap());
        assert(dec_val(s.take(k)) * 10 >= dec_val(s.take(k))) by (nonlinear_arith);
    } else {
        assert(s.take(k) =~= s);
    }
}

/// Formats a distance as its decimal text: most significant digit first,
/// no sign, no leading zero.
pub fn format_distance(n: u64) -> (r: String)
    ensures
        r@ == dec_of(n as nat),
{
    let mut digits: Vec<u8> = Vec::new();
    let mut v = n;
    let ghost mut made: Seq<char> = Seq::empty();
    proof {
        assert(dec_of(n as nat) =~= dec_of(n as nat) + made);
    }
    loop
        invariant_except_break
            dec_of(n as nat) == dec_of(v as nat) + made,
            digits@.len() == made.len(),
            forall|j: int|
                0 <= j < made.len() ==> made[j] == digit_char(
                    digits@[made.len() - 1 - j] as nat,
                ),
            forall|j: int| 0 <= j < digits@.len() ==> digits@[j] < 10,
        ensures
            dec_of(n as nat) == made,
            digits@.len() == made.len(),
            forall|j: int|
                0 <= j < made.len() ==> made[j] == digit_char(
                    digits@[made.len() - 1 - j] as nat,
                ),
            forall|j: int| 0 <= j < digits@.len() ==> digits@[j] < 10,
        decreases v,
    {
        let ghost made_old = made;
        let ghost v_old = v as nat;
        let d: u8 = (v % 10) as u8;
        digits.push(d);
        proof {
            made = seq![digit_char(d as nat)] + made;
            assert(forall|j: int|
                0 <= j < made.len() ==> made[j] == digit_char(
                    digits@[made.len() - 1 - j] as nat,
                )) by {
                assert(made[0] == digit_char(d as nat));
                assert(digits@[digits@.len() - 1] == d);
                assert(forall|j: int| 1 <= j < made.len() ==> made[j] == made_old[j - 1]);
                assert(forall|j: int|
                    0 <= j < made_old.len() ==> #[trigger] made_old[j] == digit_char(
                        digits@[made_old.len() - 1 - j] as nat,
                    )) by {
                    assert(forall|j: int|
                        0 <= j < made_old.len() ==> #[trigger] digits@.drop_last()[made_old.len()
                            - 1 - j] == digits@[made_old.len() - 1 - j]);
                }
            }
        }
        v = v / 10;
        proof {
            if v == 0 {
                assert(dec_of(v_old) == seq![digit_char(v_old % 10)]);
                assert(dec_of(n as nat) =~= made);
            } else {
                assert(dec_of(v_old) == dec_of(v_old / 10) + seq![digit_char(v_old % 10)]);
                assert(dec_of(v_old / 10) + (seq![digit_char(v_old % 10)] + made_old)
                    =~= dec_of(v_old) + made_old);
            }
        }
        if v == 0 {
            break;
        }
    }
    let mut out = String::new();
    let mut i: usize = digits.len();
    proof {
        assert(out@ =~= made.take(0));
    }
    while i > 0
        invariant
            digits@.len() == made.len(),
            forall|j: int|
                0 <= j < made.len() ==> made[j] == digit_char(
                    digits@[made.len() - 1 - j] as nat,
                ),
            forall|j: int| 0 <= j < digits@.len() ==> digits@[j] < 10,
            i <= digits@.len(),
            out@ == made.take(digits@.len() - i),
            dec_of(n as nat) == made,
        decreases i,
    {
        i = i - 1;
        let ghost k = digits@.len() - 1 - i;
        out.append(digit_str(digits[i]));
        proof {
            assert(made[k] == digit_char(digits@[i as int] as nat));
            assert(made.take(k + 1) =~= made.take(k).push(made[k]));
            assert(out@ =~= made.take(k + 1));
        }
    }
    proof {
        assert(made.take(made.len() as int) =~= made);
    }
    out
}

/// Parses a decimal distance text, rejecting an empty text, any non-digit
/// (a minus sign included: the domain is non-negative), and any value past
/// the 64-bit boundary.
pub fn parse_distance(s: &str) -> (r: Result<u64, CodecError>)
    ensures
        match parse_dec(s@) {
            Some(n) => r == Ok::<u64, CodecError>(n),
            None => r == Err::<u64, CodecError>(CodecError::ValueOutOfRange),
        },
{
    let n = s.unicode_len();
    if n == 0 {
        return Err(CodecError::ValueOutOfRange);
    }
    let mut acc: u64 = 0;
    let mut i: usize = 0;
    proof {
        assert(s@.take(0) =~= Seq::<char>::empty());
    }
    while i < n
        invariant
            n == s@.len(),
            i <= n,
            n >= 1,
            all_dec_digits(s@.take(i as int)),
            acc as nat == dec_val(s@.take(i as int)),
        decreases n - i,
    {
        let c = s.get_char(i);
        let d: u8 = match hex_digit_value(c) {
            Some(d) => d,
            None => {
                proof {
                    assert(!all_dec_digits(s@)) by {
                        assert(hex_val(s@[i as int]) is None);
                    }
                }
                return Err(CodecError::ValueOutOfRange);
            },
        };
        if d >= 10 {
            proof {
                assert(!all_dec_digits(s@)) by {
                    assert(hex_val(s@[i as int]).unwrap() >= 10);
                }
            }
            return Err(CodecError::ValueOutOfRange);
        }
        proof {
            assert(s@.take(i + 1).drop_last() =~= s@.take(i as int));
            assert(s@.take(i + 1).last() == s@[i as int]);
            assert(dec_val(s@.take(i + 1)) == (acc as nat) * 10 + d as nat);
        }
        if acc > (u64::MAX - (d as u64)) / 10 {
            proof {
                assert((acc as nat) * 10 + d as nat > u64::MAX) by (nonlinear_arith)
                    requires
                        acc > (u64::MAX - (d as u64)) / 10,
                        d < 10,
                ;
                if all_dec_digits(s@) {
                    lemma_dec_val_prefix(s@, i + 1);
                }
            }
            return Err(CodecError::ValueOutOfRange);
        }
        proof {
            assert(acc * 10 + (d as u64) <= u64::MAX) by (nonlinear_arith)
                requires
                    acc <= (u64::MAX - (d as u64)) / 10,
                    d < 10,
            ;
        }
        acc = acc * 10 + (d as u64);
        proof {
            assert(all_dec_digits(s@.take(i + 1))) by {
                assert(forall|j: int| 0 <= j < i ==> s@.take(i + 1)[j] == s@.take(i as int)[j]);
                assert(s@.take(i + 1)[i as int] == s@[i as int]);
            }
        }
        i = i + 1;
    }
    proof {
        assert(s@.take(n as int) =~= s@);
    }
    Ok(acc)
}

/// Encodes an optional distance: an absent value stays absent.
pub fn encode_distance(d: &Option<u64>) -> (r: Option<String>)
    ensures
        match *d {
            Some(n) => match r {
                Some(t) => t@ == dec_of(n as nat),
                None => false,
            },
            None => r is None,
        },
{
    match d {
        Some(n) => Some(format_distance(*n)),
        None => None,
    }
}

/// Decodes an optional distance field: an absent field decodes to `None`;
/// malformed text is a hard error, never a silent default.
pub fn decode_distance(s: Option<&str>) -> (r: Result<Option<u64>, CodecError>)
    ensures
        match s {
            Some(t) => match parse_dec(t@) {
                Some(n) => r == Ok::<Option<u64>, CodecError>(Some(n)),
                None => r == Err::<Option<u64>, CodecError>(CodecError::ValueOutOfRange),
            },
            None => r == Ok::<Option<u64>, CodecError>(None::<u64>),
        },
{
    match s {
        Some(t) => match parse_distance(t) {
            Ok(n) => Ok(Some(n)),
            Err(er) => Err(er),
        },
        None => Ok(None),
    }
}

/// Decimal round trip: the decimal text of any distance parses back to
/// exactly that distance.
pub proof fn lemma_distance_round_trip(n: u64)
    ensures
        parse_dec(dec_of(n as nat)) == Some(n),
{
    lemma_dec_of_digits(n as nat);
    lemma_dec_val_of(n as nat);
}

} // verus!
