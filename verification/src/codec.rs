//! Byte-level encoding helpers: decimal rendering of integers, hexadecimal
//! decoding, and the length-prefixed primitives used by the canonical
//! serialized forms of the library's types.

use vstd::bytes::*;
use vstd::prelude::*;
use vstd::slice::slice_subrange;

verus! {

/// The ASCII decimal representation of `n`, most significant digit first.
pub open spec fn dec_digits(n: u128) -> Seq<u8>
    decreases n,
{
    if n < 10 {
        seq![(0x30 + n) as u8]
    } else {
        dec_digits(n / 10) + seq![(0x30 + n % 10) as u8]
    }
}

/// Render `n` in decimal, as its ASCII bytes.
pub fn u128_to_dec_bytes(n: u128) -> (r: Vec<u8>)
    ensures
        r@ == dec_digits(n),
    decreases n,
{
    if n < 10 {
        let mut v: Vec<u8> = Vec::new();
        v.push((0x30 + n) as u8);
        assert(v@ =~= dec_digits(n));
        v
    } else {
        let mut v = u128_to_dec_bytes(n / 10);
        v.push((0x30 + n % 10) as u8);
        assert(v@ =~= dec_digits(n));
        v
    }
}

/// The numeric value of an ASCII hexadecimal digit, or -1 if `c` is no
/// such digit.
pub open spec fn hex_val(c: u8) -> int {
    if 0x30 <= c <= 0x39 {
        c - 0x30
    } else if 0x61 <= c <= 0x66 {
        c - 0x61 + 10
    } else if 0x41 <= c <= 0x46 {
        c - 0x41 + 10
    } else {
        -1
    }
}

pub open spec fn is_hex_digit(c: u8) -> bool {
    hex_val(c) >= 0
}

/// The bytes denoted by a string of hexadecimal digit pairs, or `None`
/// where the length is odd or a character is no hexadecimal digit.
pub open spec fn spec_hex_decode(s: Seq<u8>) -> Option<Seq<u8>> {
    if s.len() % 2 == 0 && (forall|i: int| 0 <= i < s.len() ==> is_hex_digit(#[trigger] s[i])) {
        Some(Seq::new((s.len() / 2) as nat, |i: int| (hex_val(s[2 * i]) * 16 + hex_val(s[2 * i + 1])) as u8))
    } else {
        None
    }
}

/// The numeric value of one hexadecimal digit.
fn hex_digit_val(c: u8) -> (r: Option<u8>)
    ensures
        r is Some <==> is_hex_digit(c),
        r is Some ==> r->Some_0 == hex_val(c),
{
    if 0x30 <= c && c <= 0x39 {
        Some(c - 0x30)
    } else if 0x61 <= c && c <= 0x66 {
        Some(c - 0x61 + 10)
    } else if 0x41 <= c && c <= 0x46 {
        Some(c - 0x41 + 10)
    } else {
        None
    }
}

/// Decode a string of hexadecimal digit pairs into bytes.
pub fn hex_decode(s: &[u8]) -> (r: Option<Vec<u8>>)
    ensures
        match r {
            Some(b) => spec_hex_decode(s@) == Some(b@),
            None => spec_hex_decode(s@) is None,
        },
{
    if s.len() % 2 != 0 {
        return None;
    }
    let mut out: Vec<u8> = Vec::new();
    let mut i: usize = 0;
    while i < s.len()
        invariant
            s@.len() % 2 == 0,
            i % 2 == 0,
            i <= s@.len(),
            forall|j: int| 0 <= j < i ==> is_hex_digit(#[trigger] s@[j]),
            out@.len() == i / 2,
            forall|j: int|
                0 <= j < out@.len() ==> out@[j] == (hex_val(s@[2 * j]) * 16 + hex_val(
                    s@[2 * j + 1],
                )) as u8,
        decreases s@.len() - i,
    {
        let hi = match hex_digit_val(s[i]) {
            Some(v) => v,
            None => {
                return None;
            },
        };
        let lo = match hex_digit_val(s[i + 1]) {
            Some(v) => v,
            None => {
                return None;
            },
        };
        out.push(hi * 16 + lo);
        i = i + 2;
    }
    proof {
        let decoded = spec_hex_decode(s@)->Some_0;
        assert(out@ =~= decoded);
    }
    Some(out)
}

/// Compare two byte strings for equality.
pub fn bytes_eq(a: &Vec<u8>, b: &Vec<u8>) -> (r: bool)
    ensures
        r == (a@ == b@),
{
    if a.len() != b.len() {
        return false;
    }
    let mut i: usize = 0;
    while i < a.len()
        invariant
            a@.len() == b@.len(),
            i <= a@.len(),
            forall|j: int| 0 <= j < i ==> a@[j] == b@[j],
        decreases a@.len() - i,
    {
        if a[i] != b[i] {
            return false;
        }
        i = i + 1;
    }
    proof {
        assert(a@ =~= b@);
    }
    true
}

/// Append the bytes of `b` to `out`.
pub fn push_bytes(out: &mut Vec<u8>, b: &[u8])
    ensures
        final(out)@ == old(out)@ + b@,
{
    let mut i: usize = 0;
    while i < b.len()
        invariant
            i <= b@.len(),
            out@ == old(out)@ + b@.subrange(0, i as int),
        decreases b@.len() - i,
    {
        out.push(b[i]);
        i = i + 1;
        assert(out@ =~= old(out)@ + b@.subrange(0, i as int));
    }
    assert(out@ =~= old(out)@ + b@);
}

/// Append the little-endian bytes of `x` to `out`.
pub fn push_u32(out: &mut Vec<u8>, x: u32)
    ensures
        final(out)@ == old(out)@ + spec_u32_to_le_bytes(x),
{
    let b = u32_to_le_bytes(x);
    push_bytes(out, b.as_slice());
}

/// Append the little-endian bytes of `x` to `out`.
pub fn push_u64(out: &mut Vec<u8>, x: u64)
    ensures
        final(out)@ == old(out)@ + spec_u64_to_le_bytes(x),
{
    let b = u64_to_le_bytes(x);
    push_bytes(out, b.as_slice());
}

/// Append the little-endian bytes of `x` to `out`.
pub fn push_u128(out: &mut Vec<u8>, x: u128)
    ensures
        final(out)@ == old(out)@ + spec_u128_to_le_bytes(x),
{
    let b = u128_to_le_bytes(x);
    push_bytes(out, b.as_slice());
}

/// The single-byte encoding of a boolean.
pub open spec fn enc_bool(b: bool) -> Seq<u8> {
    if b {
        seq![1u8]
    } else {
        seq![0u8]
    }
}

/// Append the encoding of `b` to `out`.
pub fn push_bool(out: &mut Vec<u8>, b: bool)
    ensures
        final(out)@ == old(out)@ + enc_bool(b),
{
    if b {
        out.push(1u8);
    } else {
        out.push(0u8);
    }
    assert(out@ =~= old(out)@ + enc_bool(b));
}

/// The length-prefixed encoding of a byte string: eight little-endian
/// length bytes followed by the bytes themselves.
pub open spec fn enc_bytes(b: Seq<u8>) -> Seq<u8> {
    spec_u64_to_le_bytes(b.len() as u64) + b
}

/// Append the length-prefixed encoding of `b` to `out`.
pub fn push_len_bytes(out: &mut Vec<u8>, b: &[u8])
    ensures
        final(out)@ == old(out)@ + enc_bytes(b@),
{
    let len: usize = b.len();
    push_u64(out, len as u64);
    push_bytes(out, b);
    assert(out@ =~= old(out)@ + enc_bytes(b@));
}

/// Read eight little-endian bytes at `pos`.
pub fn read_u64(buf: &[u8], pos: usize) -> (r: Option<(u64, usize)>)
    ensures
        match r {
            Some((x, p2)) => p2 == pos + 8 && p2 <= buf@.len() && buf@.subrange(
                pos as int,
                p2 as int,
            ) == spec_u64_to_le_bytes(x),
            None => pos + 8 > buf@.len(),
        },
{
    if pos > buf.len() || buf.len() - pos < 8 {
        return None;
    }
    let s = slice_subrange(buf, pos, pos + 8);
    let x = u64_from_le_bytes(s);
    proof {
        lemma_auto_spec_u64_to_from_le_bytes();
    }
    Some((x, pos + 8))
}

/// Read four little-endian bytes at `pos`.
pub fn read_u32(buf: &[u8], pos: usize) -> (r: Option<(u32, usize)>)
    ensures
        match r {
            Some((x, p2)) => p2 == pos + 4 && p2 <= buf@.len() && buf@.subrange(
                pos as int,
                p2 as int,
            ) == spec_u32_to_le_bytes(x),
            None => pos + 4 > buf@.len(),
        },
{
    if pos > buf.len() || buf.len() - pos < 4 {
        return None;
    }
    let s = slice_subrange(buf, pos, pos + 4);
    let x = u32_from_le_bytes(s);
    proof {
        lemma_auto_spec_u32_to_from_le_bytes();
    }
    Some((x, pos + 4))
}

/// Read sixteen little-endian bytes at `pos`.
pub fn read_u128(buf: &[u8], pos: usize) -> (r: Option<(u128, usize)>)
    ensures
        match r {
            Some((x, p2)) => p2 == pos + 16 && p2 <= buf@.len() && buf@.subrange(
                pos as int,
                p2 as int,
            ) == spec_u128_to_le_bytes(x),
            None => pos + 16 > buf@.len(),
        },
{
    if pos > buf.len() || buf.len() - pos < 16 {
        return None;
    }
    let s = slice_subrange(buf, pos, pos + 16);
    let x = u128_from_le_bytes(s);
    proof {
        lemma_auto_spec_u128_to_from_le_bytes();
    }
    Some((x, pos + 16))
}

/// Read one boolean byte at `pos`. Fails on any byte other than 0 or 1.
pub fn read_bool(buf: &[u8], pos: usize) -> (r: Option<(bool, usize)>)
    ensures
        match r {
            Some((b, p2)) => p2 == pos + 1 && p2 <= buf@.len() && buf@.subrange(
                pos as int,
                p2 as int,
            ) == enc_bool(b),
            None => pos + 1 > buf@.len() || (pos < buf@.len() && buf@[pos as int] != 0
                && buf@[pos as int] != 1),
        },
{
    if pos >= buf.len() {
        return None;
    }
    let c = buf[pos];
    if c == 0 {
        assert(buf@.subrange(pos as int, pos + 1 as int) =~= enc_bool(false));
        Some((false, pos + 1))
    } else if c == 1 {
        assert(buf@.subrange(pos as int, pos + 1 as int) =~= enc_bool(true));
        Some((true, pos + 1))
    } else {
        None
    }
}

/// Relies on String::from_utf8: the returned string is the one whose
/// UTF-8 encoding is exactly the input bytes, where they are valid
/// UTF-8; invalid bytes give None, and since the encoding of any
/// character sequence is valid UTF-8, None means no character sequence
/// encodes to these bytes.
#[verifier::external_body]
pub fn string_from_utf8(bytes: Vec<u8>) -> (r: Option<String>)
    ensures
        r matches Some(s) ==> vstd::utf8::encode_utf8(s@) == bytes@,
        r is None ==> forall|s: Seq<char>| vstd::utf8::encode_utf8(s) != bytes@,
{
    std::string::String::from_utf8(bytes).ok()
}

/// Read a length-prefixed byte string at `pos`. Fails exactly where the
/// length prefix does not fit, names more bytes than the buffer holds,
/// or names a length beyond what a vector can hold.
pub fn read_len_bytes(buf: &[u8], pos: usize) -> (r: Option<(Vec<u8>, usize)>)
    ensures
        match r {
            Some((b, p2)) => pos <= p2 <= buf@.len() && buf@.subrange(pos as int, p2 as int)
                == enc_bytes(b@),
            None => pos + 8 > buf@.len() || spec_u64_from_le_bytes(
                buf@.subrange(pos as int, pos + 8),
            ) > usize::MAX || pos + 8 + spec_u64_from_le_bytes(
                buf@.subrange(pos as int, pos + 8),
            ) > buf@.len(),
        },
{
    proof {
        lemma_auto_spec_u64_to_from_le_bytes();
    }
    let (len, p1) = match read_u64(buf, pos) {
        Some(v) => v,
        None => {
            return None;
        },
    };
    if len > usize::MAX as u64 {
        return None;
    }
    let len = len as usize;
    if p1 > buf.len() || buf.len() - p1 < len {
        return None;
    }
    let s = slice_subrange(buf, p1, p1 + len);
    let b = vstd::slice::slice_to_vec(s);
    proof {
        assert(buf@.subrange(pos as int, (p1 + len) as int) =~= enc_bytes(b@));
    }
    Some((b, p1 + len))
}

/// Two equal-length prefixes of the same byte sequence are equal, and
/// so are the rests that follow them.
pub proof fn lemma_concat_prefix(x1: Seq<u8>, x2: Seq<u8>, r1: Seq<u8>, r2: Seq<u8>)
    requires
        x1.len() == x2.len(),
        x1 + r1 == x2 + r2,
    ensures
        x1 == x2,
        r1 == r2,
{
    assert(x1 =~= (x1 + r1).subrange(0, x1.len() as int));
    assert(x2 =~= (x2 + r2).subrange(0, x2.len() as int));
    assert(r1 =~= (x1 + r1).skip(x1.len() as int));
    assert(r2 =~= (x2 + r2).skip(x2.len() as int));
}

/// Two length-prefixed encodings that begin the same byte sequence
/// carry the same bytes and are followed by the same rest.
pub proof fn lemma_enc_bytes_prefix(x: Seq<u8>, y: Seq<u8>, r1: Seq<u8>, r2: Seq<u8>)
    requires
        x.len() <= u64::MAX,
        y.len() <= u64::MAX,
        enc_bytes(x) + r1 == enc_bytes(y) + r2,
    ensures
        x == y,
        r1 == r2,
{
    lemma_auto_spec_u64_to_from_le_bytes();
    let a = enc_bytes(x) + r1;
    assert(a.subrange(0, 8) =~= spec_u64_to_le_bytes(x.len() as u64));
    assert(a.subrange(0, 8) =~= spec_u64_to_le_bytes(y.len() as u64));
    assert(spec_u64_from_le_bytes(spec_u64_to_le_bytes(x.len() as u64)) == x.len() as u64);
    assert(spec_u64_from_le_bytes(spec_u64_to_le_bytes(y.len() as u64)) == y.len() as u64);
    assert(x.len() == y.len());
    assert(x =~= a.subrange(8, 8 + x.len() as int));
    assert(y =~= a.subrange(8, 8 + y.len() as int));
    assert(r1 =~= a.skip(8 + x.len() as int));
    assert(r2 =~= a.skip(8 + y.len() as int));
}

} // verus!
