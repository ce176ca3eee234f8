//! The codec: 32-bit values to and from big-endian bytes, and
//! NUL-terminated byte strings. Bytecode files and every integer held
//! in machine memory use this encoding, whatever the host's own
//! byte order.

use vstd::prelude::*;

use crate::errors::VmError;
use vstd::string::StrSliceExecFns;
use vstd::string::StringSliceAdditionalSpecFns;

verus! {

/// The unsigned value that four big-endian bytes denote.
pub open spec fn be_val(s: Seq<u8>) -> u32
    recommends
        s.len() == 4,
{
    ((s[0] as int) * 0x1000000 + (s[1] as int) * 0x10000 + (s[2] as int) * 0x100 + (
    s[3] as int)) as u32
}

/// The four big-endian bytes of an unsigned 32-bit value.
pub open spec fn be_bytes(v: u32) -> Seq<u8> {
    seq![
        (v / 0x1000000) as u8,
        ((v / 0x10000) % 0x100) as u8,
        ((v / 0x100) % 0x100) as u8,
        (v % 0x100) as u8,
    ]
}

/// The signed reading of an unsigned 32-bit value (two's complement).
pub open spec fn sign_val(v: u32) -> i32 {
    if v <= i32::MAX as u32 {
        v as i32
    } else {
        (v as int - 0x100000000) as i32
    }
}

/// The unsigned 32-bit value whose two's-complement reading is `v`.
pub open spec fn unsign_val(v: i32) -> u32 {
    if v >= 0 {
        v as u32
    } else {
        (v as int + 0x100000000) as u32
    }
}

/// The four big-endian bytes of a signed value, two's complement.
pub open spec fn be_bytes_i32(v: i32) -> Seq<u8> {
    be_bytes(unsign_val(v))
}

/// The signed value that four big-endian bytes denote.
pub open spec fn be_i32(s: Seq<u8>) -> i32
    recommends
        s.len() == 4,
{
    sign_val(be_val(s))
}

/// Decoding the four bytes of an encoded value gives the value back.
pub proof fn lemma_be_val_be_bytes(v: u32)
    ensures
        be_val(be_bytes(v)) == v,
{
    assert((v / 0x1000000) * 0x1000000 + ((v / 0x10000) % 0x100) * 0x10000 + ((v / 0x100) % 0x100)
        * 0x100 + (v % 0x100) == v) by (bit_vector);
}

/// Encoding a decoded value reproduces the four bytes.
pub proof fn lemma_be_bytes_be_val(s: Seq<u8>)
    requires
        s.len() == 4,
    ensures
        be_bytes(be_val(s)) =~= s,
{
    let b0 = s[0];
    let b1 = s[1];
    let b2 = s[2];
    let b3 = s[3];
    let v = be_val(s);
    assert(((b0 as u32) * 0x1000000 + (b1 as u32) * 0x10000 + (b2 as u32) * 0x100 + (b3 as u32))
        / 0x1000000 == b0 as u32) by (bit_vector);
    assert((((b0 as u32) * 0x1000000 + (b1 as u32) * 0x10000 + (b2 as u32) * 0x100 + (b3 as u32))
        / 0x10000) % 0x100 == b1 as u32) by (bit_vector);
    assert((((b0 as u32) * 0x1000000 + (b1 as u32) * 0x10000 + (b2 as u32) * 0x100 + (b3 as u32))
        / 0x100) % 0x100 == b2 as u32) by (bit_vector);
    assert(((b0 as u32) * 0x1000000 + (b1 as u32) * 0x10000 + (b2 as u32) * 0x100 + (b3 as u32))
        % 0x100 == b3 as u32) by (bit_vector);
}

/// The two's-complement readings invert each other.
pub proof fn lemma_sign_unsign(v: i32)
    ensures
        sign_val(unsign_val(v)) == v,
{
}

/// The two's-complement readings invert each other.
pub proof fn lemma_unsign_sign(v: u32)
    ensures
        unsign_val(sign_val(v)) == v,
{
}

/// Reads an unsigned 32-bit big-endian value at `from`.
pub fn decode_unsigned(from: usize, byte_code: &[u8]) -> (r: Result<u32, VmError>)
    ensures
        from + 4 <= byte_code@.len() ==> r == Ok::<u32, VmError>(
            be_val(byte_code@.subrange(from as int, from + 4)),
        ),
        from + 4 > byte_code@.len() ==> r == Err::<u32, VmError>(VmError::Truncation),
{
    if byte_code.len() < 4 || from > byte_code.len() - 4 {
        return Err(VmError::Truncation);
    }
    let v = (byte_code[from] as u32) * 0x1000000 + (byte_code[from + 1] as u32) * 0x10000 + (
    byte_code[from + 2] as u32) * 0x100 + (byte_code[from + 3] as u32);
    Ok(v)
}

/// Reads a signed 32-bit big-endian value at `from`.
pub fn decode_signed(from: usize, byte_code: &[u8]) -> (r: Result<i32, VmError>)
    ensures
        from + 4 <= byte_code@.len() ==> r == Ok::<i32, VmError>(
            be_i32(byte_code@.subrange(from as int, from + 4)),
        ),
        from + 4 > byte_code@.len() ==> r == Err::<i32, VmError>(VmError::Truncation),
{
    match decode_unsigned(from, byte_code) {
        Ok(u) => Ok(sign_of_unsigned(u)),
        Err(e) => Err(e),
    }
}

/// The signed reading of an unsigned value, two's complement.
pub fn sign_of_unsigned(u: u32) -> (r: i32)
    ensures
        r == sign_val(u),
{
    if u <= i32::MAX as u32 {
        u as i32
    } else {
        ((u as i64) - 0x100000000i64) as i32
    }
}

/// The unsigned value whose two's-complement reading is `v`.
pub fn unsign_of_signed(v: i32) -> (r: u32)
    ensures
        r == unsign_val(v),
{
    if v >= 0 {
        v as u32
    } else {
        ((v as i64) + 0x100000000i64) as u32
    }
}

/// Writes an unsigned 32-bit value as four big-endian bytes.
pub fn encode_unsigned(value: u32) -> (r: [u8; 4])
    ensures
        r@ =~= be_bytes(value),
{
    [
        (value / 0x1000000) as u8,
        ((value / 0x10000) % 0x100) as u8,
        ((value / 0x100) % 0x100) as u8,
        (value % 0x100) as u8,
    ]
}

/// Writes a signed 32-bit value as four big-endian bytes, two's
/// complement.
pub fn encode_signed(value: i32) -> (r: [u8; 4])
    ensures
        r@ =~= be_bytes_i32(value),
{
    encode_unsigned(unsign_of_signed(value))
}

/// The characters that a run of bytes denotes, one per byte.
pub open spec fn chars_of_bytes(s: Seq<u8>) -> Seq<char> {
    s.map_values(|b: u8| b as char)
}

/// The bytes of a string's characters, one per character; meaningful
/// for characters below 256.
pub open spec fn bytes_of_chars(s: Seq<char>) -> Seq<u8> {
    s.map_values(|c: char| c as u8)
}

/// The position of the first NUL byte at or after `from`.
pub open spec fn first_nul(s: Seq<u8>, from: int) -> int
    recommends
        0 <= from <= s.len(),
    decreases s.len() - from,
{
    if from < 0 || from >= s.len() {
        s.len() as int
    } else if s[from] == 0 {
        from
    } else {
        first_nul(s, from + 1)
    }
}

/// Whether a NUL byte occurs at or after `from`.
pub open spec fn has_nul(s: Seq<u8>, from: int) -> bool {
    exists|i: int| from <= i < s.len() && s[i] == 0
}

/// The first NUL's position is a NUL, and nothing before it is one.
pub proof fn lemma_first_nul(s: Seq<u8>, from: int)
    requires
        0 <= from <= s.len(),
        has_nul(s, from),
    ensures
        from <= first_nul(s, from) < s.len(),
        s[first_nul(s, from)] == 0,
        forall|i: int| from <= i < first_nul(s, from) ==> s[i] != 0,
    decreases s.len() - from,
{
    if from < s.len() && s[from] != 0 {
        assert forall|i: int| from + 1 <= i < s.len() implies has_nul(s, from + 1) || s[i] != 0 by {}
        let w = choose|i: int| from <= i < s.len() && s[i] == 0;
        assert(from + 1 <= w < s.len() && s[w] == 0);
        lemma_first_nul(s, from + 1);
    }
}

/// The ASCII digits of `n`, most significant first.
pub open spec fn dec_digits(n: nat) -> Seq<u8>
    decreases n,
{
    if n < 10 {
        seq![(48 + n) as u8]
    } else {
        dec_digits(n / 10).push((48 + n % 10) as u8)
    }
}

/// The ASCII decimal form of a signed value: a minus sign for a
/// negative value, then its digits.
pub open spec fn dec_bytes(v: int) -> Seq<u8> {
    if v < 0 {
        seq![45u8] + dec_digits((-v) as nat)
    } else {
        dec_digits(v as nat)
    }
}

/// Every byte of a decimal form is printable ASCII.
pub proof fn lemma_dec_digits_ascii(n: nat)
    ensures
        forall|i: int| 0 <= i < dec_digits(n).len() ==> 48 <= #[trigger] dec_digits(n)[i] < 58,
    decreases n,
{
    if n >= 10 {
        lemma_dec_digits_ascii(n / 10);
        assert forall|i: int| 0 <= i < dec_digits(n).len() implies 48 <= #[trigger] dec_digits(
            n,
        )[i] < 58 by {
            if i < dec_digits(n / 10).len() {
                assert(dec_digits(n)[i] == dec_digits(n / 10)[i]);
            }
        }
    }
}

/// Bytes below 128 survive the round trip through characters and
/// UTF-8 encoding unchanged.
pub proof fn lemma_encode_utf8_byte_chars(b: Seq<u8>)
    requires
        forall|i: int| 0 <= i < b.len() ==> #[trigger] b[i] < 128,
    ensures
        vstd::utf8::encode_utf8(chars_of_bytes(b)) =~= b,
{
    let chars = chars_of_bytes(b);
    assert(vstd::utf8::is_ascii_chars(chars));
    vstd::utf8::is_ascii_chars_encode_utf8(chars);
    assert(vstd::utf8::encode_utf8(chars) =~= b);
}

/// Formats a signed value as decimal ASCII text.
pub fn to_decimal_string(v: i32) -> (r: String)
    ensures
        r@ == chars_of_bytes(dec_bytes(v as int)),
        vstd::utf8::encode_utf8(r@) =~= dec_bytes(v as int),
{
    let mut m: u64 = if v < 0 {
        (-(v as i64)) as u64
    } else {
        v as u64
    };
    let ghost m0 = m as nat;
    let mut rev: Vec<u8> = Vec::new();
    rev.push(48 + (m % 10) as u8);
    m = m / 10;
    while m > 0
        invariant
            m >= 0,
            rev@.len() >= 1,
            m > 0 ==> dec_digits(m0) =~= dec_digits(m as nat) + rev@.reverse(),
            m == 0 ==> dec_digits(m0) =~= rev@.reverse(),
        decreases m,
    {
        rev.push(48 + (m % 10) as u8);
        proof {
            assert(rev@.reverse() =~= seq![rev@[rev@.len() - 1]] + rev@.subrange(
                0,
                rev@.len() - 1,
            ).reverse());
        }
        m = m / 10;
    }
    let mut bytes: Vec<u8> = Vec::new();
    if v < 0 {
        bytes.push(45);
    }
    let ghost pre = bytes@;
    let mut i: usize = 0;
    while i < rev.len()
        invariant
            0 <= i <= rev@.len(),
            bytes@ =~= pre + rev@.reverse().subrange(0, i as int),
            pre == if v < 0 {
                seq![45u8]
            } else {
                Seq::<u8>::empty()
            },
        decreases rev@.len() - i,
    {
        bytes.push(rev[rev.len() - 1 - i]);
        proof {
            assert(bytes@ =~= pre + rev@.reverse().subrange(0, i + 1));
        }
        i = i + 1;
    }
    proof {
        assert(rev@.reverse().subrange(0, rev@.len() as int) =~= rev@.reverse());
        assert(bytes@ =~= dec_bytes(v as int));
        lemma_dec_digits_ascii(if v < 0 {
            (-(v as int)) as nat
        } else {
            v as nat
        });
        assert forall|k: int| 0 <= k < bytes@.len() implies #[trigger] bytes@[k] < 128 by {
            if v < 0 && k == 0 {
            } else {
                assert(bytes@[k] == dec_bytes(v as int)[k]);
            }
        }
        lemma_encode_utf8_byte_chars(bytes@);
    }
    string_of_bytes(&bytes)
}

/// Whether two strings hold the same characters, decided by
/// comparing their bytes.
pub fn str_eq(a: &str, b: &str) -> (r: bool)
    ensures
        r == (a@ == b@),
{
    let ab = a.as_bytes();
    let bb = b.as_bytes();
    proof {
        vstd::utf8::encode_utf8_decode_utf8(a@);
        vstd::utf8::encode_utf8_decode_utf8(b@);
    }
    if ab.len() != bb.len() {
        return false;
    }
    let mut i: usize = 0;
    while i < ab.len()
        invariant
            ab@ == a.spec_bytes(),
            bb@ == b.spec_bytes(),
            ab@.len() == bb@.len(),
            0 <= i <= ab@.len(),
            forall|k: int| 0 <= k < i ==> ab@[k] == bb@[k],
        decreases ab@.len() - i,
    {
        if ab[i] != bb[i] {
            proof {
                assert(a.spec_bytes() != b.spec_bytes());
            }
            return false;
        }
        i = i + 1;
    }
    proof {
        assert(a.spec_bytes() =~= b.spec_bytes());
        vstd::utf8::encode_utf8_decode_utf8(a@);
        vstd::utf8::encode_utf8_decode_utf8(b@);
    }
    true
}

/// Relies on String::push: appends the given character to the string.
#[verifier::external_body]
pub fn push_char(s: &mut String, c: char)
    ensures
        final(s)@ == old(s)@.push(c),
{
    s.push(c)
}

/// The string whose characters are the given bytes, one per byte.
pub fn string_of_bytes(bytes: &Vec<u8>) -> (r: String)
    ensures
        r@ == chars_of_bytes(bytes@),
{
    let mut string = String::new();
    let mut i: usize = 0;
    while i < bytes.len()
        invariant
            0 <= i <= bytes@.len(),
            string@ == chars_of_bytes(bytes@.subrange(0, i as int)),
        decreases bytes@.len() - i,
    {
        push_char(&mut string, bytes[i] as char);
        proof {
            assert(chars_of_bytes(bytes@.subrange(0, i + 1)) =~= chars_of_bytes(
                bytes@.subrange(0, i as int),
            ).push(bytes@[i as int] as char));
        }
        i = i + 1;
    }
    proof {
        assert(bytes@.subrange(0, bytes@.len() as int) =~= bytes@);
    }
    string
}

/// The UTF-8 bytes of a string, as the encoder writes them. No NUL
/// terminator is appended; callers that store strings add it.
pub fn encode_string(value: &str) -> (r: Vec<u8>)
    ensures
        r@ == value.spec_bytes(),
{
    value.as_bytes_vec()
}

/// Reads the bytes from `from` up to the first NUL, one character per
/// byte.
pub fn decode_string(from: u32, bytes: &[u8]) -> (r: String)
    requires
        from <= bytes@.len(),
        has_nul(bytes@, from as int),
    ensures
        r@ == chars_of_bytes(bytes@.subrange(from as int, first_nul(bytes@, from as int))),
{
    proof {
        lemma_first_nul(bytes@, from as int);
    }
    let ghost end = first_nul(bytes@, from as int);
    let mut string = String::new();
    let mut index: usize = from as usize;
    while bytes[index] != 0
        invariant
            from <= index <= end < bytes@.len(),
            bytes@[end] == 0,
            forall|i: int| from <= i < end ==> bytes@[i] != 0,
            string@ == chars_of_bytes(bytes@.subrange(from as int, index as int)),
        decreases end - index,
    {
        push_char(&mut string, bytes[index] as char);
        proof {
            assert(chars_of_bytes(bytes@.subrange(from as int, index + 1)) =~= chars_of_bytes(
                bytes@.subrange(from as int, index as int),
            ).push(bytes@[index as int] as char));
        }
        index = index + 1;
    }
    proof {
        assert(index == end);
    }
    string
}

} // verus!
