//! The wire formats of the protocol as mathematical objects: variable-length
//! integers, big- and little-endian fixed-width integers, and length-prefixed
//! strings, with the facts that tie each encoding to its decoding.
use vstd::prelude::*;
use vstd::utf8::*;

verus! {

/// Why a decode failed.
#[derive(Debug, Clone, Copy, PartialEq, Eq, Structural)]
pub enum CodecError {
    /// The buffer ended before the value did: more data might complete it.
    OutOfData,
    /// A variable-length integer ran past its byte cap (a format violation).
    VarIntTooLong,
    /// A string's bytes are not valid UTF-8.
    InvalidUtf8,
}

/// Byte cap of a 32-bit variable-length integer.
pub const VARINT_MAX_BYTES: usize = 5;

/// Byte cap of a 64-bit variable-length integer.
pub const VARLONG_MAX_BYTES: usize = 10;

pub open spec fn pow128(k: nat) -> nat
    decreases k,
{
    if k == 0 {
        1
    } else {
        128 * pow128((k - 1) as nat)
    }
}

pub open spec fn pow256(k: nat) -> nat
    decreases k,
{
    if k == 0 {
        1
    } else {
        256 * pow256((k - 1) as nat)
    }
}

pub proof fn lemma_pow128_monotone(a: nat, b: nat)
    requires
        a <= b,
    ensures
        pow128(a) <= pow128(b),
    decreases b,
{
    if a < b {
        lemma_pow128_monotone(a, (b - 1) as nat);
    }
}

pub proof fn lemma_pow256_monotone(a: nat, b: nat)
    requires
        a <= b,
    ensures
        pow256(a) <= pow256(b),
    decreases b,
{
    if a < b {
        lemma_pow256_monotone(a, (b - 1) as nat);
    }
}

pub proof fn lemma_pow256_values()
    ensures
        pow256(2) == 0x1_0000,
        pow256(4) == 0x1_0000_0000,
        pow256(8) == 0x1_0000_0000_0000_0000,
{
    reveal_with_fuel(pow256, 9);
}

/// Seven data bits per byte, least significant group first; the high bit of
/// a byte says that another byte follows.
pub open spec fn var_bytes(v: nat) -> Seq<u8>
    decreases v,
{
    if v < 128 {
        seq![v as u8]
    } else {
        seq![(v % 128 + 128) as u8] + var_bytes(v / 128)
    }
}

/// The encoding of a 32-bit integer: its two's-complement bits as unsigned.
pub open spec fn varint_bytes(v: i32) -> Seq<u8> {
    var_bytes((v as u32) as nat)
}

/// The encoding of a 64-bit integer: its two's-complement bits as unsigned.
pub open spec fn varlong_bytes(v: i64) -> Seq<u8> {
    var_bytes((v as u64) as nat)
}

/// Reads a variable-length integer of at most `max` bytes from the front of
/// `s`: its value and the number of bytes it took.
pub open spec fn parse_var(s: Seq<u8>, max: nat) -> Result<(nat, nat), CodecError>
    decreases max,
{
    if max == 0 {
        Err(CodecError::VarIntTooLong)
    } else if s.len() == 0 {
        Err(CodecError::OutOfData)
    } else if s[0] < 128 {
        Ok((s[0] as nat, 1))
    } else {
        match parse_var(s.drop_first(), (max - 1) as nat) {
            Ok((v, l)) => Ok((((s[0] - 128) + 128 * v) as nat, l + 1)),
            Err(e) => Err(e),
        }
    }
}

/// A 32-bit variable-length integer at the front of `s`; bits above the
/// 32nd are dropped.
pub open spec fn parse_varint(s: Seq<u8>) -> Result<(i32, nat), CodecError> {
    match parse_var(s, VARINT_MAX_BYTES as nat) {
        Ok((v, l)) => Ok(((v as u32) as i32, l)),
        Err(e) => Err(e),
    }
}

/// A 64-bit variable-length integer at the front of `s`; bits above the
/// 64th are dropped.
pub open spec fn parse_varlong(s: Seq<u8>) -> Result<(i64, nat), CodecError> {
    match parse_var(s, VARLONG_MAX_BYTES as nat) {
        Ok((v, l)) => Ok(((v as u64) as i64, l)),
        Err(e) => Err(e),
    }
}

/// The low `n` bytes of `v`, most significant first.
pub open spec fn be_bytes(v: nat, n: nat) -> Seq<u8>
    decreases n,
{
    if n == 0 {
        seq![]
    } else {
        be_bytes(v / 256, (n - 1) as nat) + seq![(v % 256) as u8]
    }
}

/// The low `n` bytes of `v`, least significant first.
pub open spec fn le_bytes(v: nat, n: nat) -> Seq<u8>
    decreases n,
{
    if n == 0 {
        seq![]
    } else {
        seq![(v % 256) as u8] + le_bytes(v / 256, (n - 1) as nat)
    }
}

/// The number that `s` spells in base 256, most significant byte first.
pub open spec fn be_value(s: Seq<u8>) -> nat
    decreases s.len(),
{
    if s.len() == 0 {
        0
    } else {
        (be_value(s.drop_last()) * 256 + s.last()) as nat
    }
}

/// A string on the wire: the varint byte length, then the UTF-8 bytes.
pub open spec fn string_bytes(s: Seq<char>) -> Seq<u8> {
    varint_bytes(encode_utf8(s).len() as i32) + encode_utf8(s)
}

/// A length-prefixed string at the front of `s`: its characters and the
/// number of bytes it took. A length that is negative or reaches past the
/// end of `s` is `OutOfData`.
pub open spec fn parse_string(s: Seq<u8>) -> Result<(Seq<char>, nat), CodecError> {
    match parse_varint(s) {
        Err(e) => Err(e),
        Ok((n, l)) => if n == 0 {
            Ok((Seq::empty(), l))
        } else if n < 0 || l + n > s.len() {
            Err(CodecError::OutOfData)
        } else if valid_utf8(s.subrange(l as int, l + n)) {
            Ok((decode_utf8(s.subrange(l as int, l + n)), (l + n) as nat))
        } else {
            Err(CodecError::InvalidUtf8)
        },
    }
}

pub proof fn lemma_var_bytes_len(v: nat, k: nat)
    requires
        1 <= k,
        v < pow128(k),
    ensures
        1 <= var_bytes(v).len() <= k,
    decreases v,
{
    if v >= 128 {
        if k == 1 {
            assert(pow128(1) == 128 * pow128(0));
        }
        let p = pow128((k - 1) as nat);
        assert(v / 128 < p) by (nonlinear_arith)
            requires
                v < 128 * p,
        ;
        lemma_var_bytes_len(v / 128, (k - 1) as nat);
    }
}

pub proof fn lemma_parse_var_bytes(v: nat, rest: Seq<u8>, max: nat)
    requires
        var_bytes(v).len() <= max,
    ensures
        parse_var(var_bytes(v) + rest, max) == Ok::<(nat, nat), CodecError>((v, var_bytes(v).len())),
    decreases v,
{
    let s = var_bytes(v) + rest;
    if v < 128 {
        assert(s[0] == v as u8);
    } else {
        let tail = var_bytes(v / 128);
        assert(s.drop_first() =~= tail + rest);
        lemma_parse_var_bytes(v / 128, rest, (max - 1) as nat);
        assert(s[0] == (v % 128 + 128) as u8);
        assert(((s[0] - 128) + 128 * (v / 128)) == v) by (nonlinear_arith)
            requires
                s[0] == v % 128 + 128,
        ;
    }
}

pub proof fn lemma_pow128_values()
    ensures
        pow128(5) == 0x8_0000_0000,
        pow128(10) == 0x40_0000_0000_0000_0000,
{
    reveal_with_fuel(pow128, 11);
}

/// Every 32-bit integer is encoded in one to five bytes, and decoding those
/// bytes, whatever follows them, gives back the integer and the count.
pub proof fn lemma_varint_round_trip(v: i32, rest: Seq<u8>)
    ensures
        1 <= varint_bytes(v).len() <= VARINT_MAX_BYTES,
        parse_varint(varint_bytes(v) + rest) == Ok::<(i32, nat), CodecError>(
            (v, varint_bytes(v).len()),
        ),
{
    let u = v as u32;
    lemma_pow128_values();
    lemma_var_bytes_len(u as nat, 5);
    lemma_parse_var_bytes(u as nat, rest, 5);
    assert(((u as nat) as u32) == u);
    assert((u as i32) == v) by (bit_vector)
        requires
            u == v as u32,
    ;
}

/// Every 64-bit integer is encoded in one to ten bytes, and decoding those
/// bytes, whatever follows them, gives back the integer and the count.
pub proof fn lemma_varlong_round_trip(v: i64, rest: Seq<u8>)
    ensures
        1 <= varlong_bytes(v).len() <= VARLONG_MAX_BYTES,
        parse_varlong(varlong_bytes(v) + rest) == Ok::<(i64, nat), CodecError>(
            (v, varlong_bytes(v).len()),
        ),
{
    let u = v as u64;
    lemma_pow128_values();
    lemma_var_bytes_len(u as nat, 10);
    lemma_parse_var_bytes(u as nat, rest, 10);
    assert(((u as nat) as u64) == u);
    assert((u as i64) == v) by (bit_vector)
        requires
            u == v as u64,
    ;
}

/// A run of `max` or more bytes that all carry the continuation flag is
/// rejected as too long, whatever comes after them.
pub proof fn lemma_var_too_long(s: Seq<u8>, max: nat)
    requires
        max <= s.len(),
        forall|i: int| 0 <= i < max ==> s[i] >= 128,
    ensures
        parse_var(s, max) == Err::<(nat, nat), CodecError>(CodecError::VarIntTooLong),
    decreases max,
{
    if max > 0 {
        let t = s.drop_first();
        assert forall|i: int| 0 <= i < max - 1 implies t[i] >= 128 by {
            assert(t[i] == s[i + 1]);
        }
        lemma_var_too_long(t, (max - 1) as nat);
    }
}

/// Six or more continuation-flagged bytes fail as too long for a varint, and
/// eleven or more for a varlong.
pub proof fn lemma_oversized_var_rejected(s: Seq<u8>)
    requires
        s.len() >= 6,
        forall|i: int| 0 <= i < 6 ==> s[i] >= 128,
    ensures
        parse_varint(s) == Err::<(i32, nat), CodecError>(CodecError::VarIntTooLong),
        s.len() >= 11 && (forall|i: int| 0 <= i < 11 ==> s[i] >= 128) ==> parse_varlong(s)
            == Err::<(i64, nat), CodecError>(CodecError::VarIntTooLong),
{
    lemma_var_too_long(s, 5);
    if s.len() >= 11 && (forall|i: int| 0 <= i < 11 ==> s[i] >= 128) {
        lemma_var_too_long(s, 10);
    }
}

/// Decoding an encoded string, whatever follows it, gives back the string
/// and the number of bytes it took.
pub proof fn lemma_string_round_trip(s: Seq<char>, rest: Seq<u8>)
    requires
        encode_utf8(s).len() <= i32::MAX,
    ensures
        parse_string(string_bytes(s) + rest) == Ok::<(Seq<char>, nat), CodecError>(
            (s, string_bytes(s).len()),
        ),
{
    let body = encode_utf8(s);
    let n = body.len() as i32;
    let head = varint_bytes(n);
    let all = string_bytes(s) + rest;
    assert(all =~= head + (body + rest));
    lemma_varint_round_trip(n, body + rest);
    let l = head.len();
    assert(all.subrange(l as int, l + n) =~= body);
    encode_utf8_valid_utf8(s);
    encode_utf8_decode_utf8(s);
    if n == 0 {
        assert(body.len() == 0);
        if s.len() > 0 {
            encode_utf8_first_scalar(s);
        }
        assert(s =~= Seq::<char>::empty());
    }
}

/// Any proper prefix of an encoded variable-length integer is out of data.
pub proof fn lemma_var_prefix_out_of_data(v: nat, k: nat, max: nat)
    requires
        k < var_bytes(v).len() <= max,
    ensures
        parse_var(var_bytes(v).take(k as int), max) == Err::<(nat, nat), CodecError>(
            CodecError::OutOfData,
        ),
    decreases v,
{
    let b = var_bytes(v);
    let t = b.take(k as int);
    if k > 0 && v >= 128 {
        assert(t[0] == b[0]);
        assert(t.drop_first() =~= var_bytes(v / 128).take(k - 1));
        lemma_var_prefix_out_of_data(v / 128, (k - 1) as nat, (max - 1) as nat);
    }
}

/// A buffer that holds only part of an encoded non-empty string fails to
/// decode with `OutOfData`, wherever it was cut.
pub proof fn lemma_truncated_string_out_of_data(s: Seq<char>, k: nat)
    requires
        0 < encode_utf8(s).len() <= i32::MAX,
        k < string_bytes(s).len(),
    ensures
        parse_string(string_bytes(s).take(k as int)) == Err::<(Seq<char>, nat), CodecError>(
            CodecError::OutOfData,
        ),
{
    let body = encode_utf8(s);
    let n = body.len() as i32;
    let u = n as u32;
    let head = varint_bytes(n);
    let cut = string_bytes(s).take(k as int);
    lemma_varint_round_trip(n, Seq::empty());
    if k < head.len() {
        assert(cut =~= head.take(k as int));
        lemma_var_prefix_out_of_data(u as nat, k, 5);
    } else {
        assert(cut =~= head + body.take(k - head.len()));
        lemma_varint_round_trip(n, body.take(k - head.len()));
    }
}

} // verus!
