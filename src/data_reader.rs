//! A cursor over a borrowed byte slice that decodes protocol values, always
//! bounds-checked, never reading past the end.
use vstd::prelude::*;
use vstd::utf8::*;
use crate::wire::{
    be_value, lemma_pow128_monotone, lemma_pow128_values, lemma_pow256_monotone,
    lemma_pow256_values, parse_string, parse_var, parse_varint, parse_varlong, pow128, pow256,
    CodecError, VARINT_MAX_BYTES, VARLONG_MAX_BYTES,
};

verus! {

/// Relies on String::from_utf8: it accepts exactly the valid UTF-8 byte
/// sequences, and the string it builds holds the characters they encode.
#[verifier::external_body]
fn string_from_utf8(bytes: Vec<u8>) -> (r: Option<String>)
    ensures
        r is Some <==> valid_utf8(bytes@),
        r matches Some(s) ==> s@ == decode_utf8(bytes@),
{
    String::from_utf8(bytes).ok()
}

pub struct DataReader<'a> {
    pub data: &'a [u8],
    pub cursor: usize,
}

impl<'a> DataReader<'a> {
    /// The bytes not read yet (none when the cursor stands past the end).
    pub open spec fn rest(&self) -> Seq<u8> {
        if self.cursor <= self.data@.len() {
            self.data@.subrange(self.cursor as int, self.data@.len() as int)
        } else {
            Seq::empty()
        }
    }

    /// After a read that took `n` bytes.
    pub open spec fn advanced(&self, old: &DataReader<'a>, n: nat) -> bool {
        &&& self.data@ == old.data@
        &&& self.cursor == old.cursor + n
        &&& self.rest() == old.rest().skip(n as int)
    }

    /// After a failed read: nothing moved.
    pub open spec fn unchanged(&self, old: &DataReader<'a>) -> bool {
        &&& self.data@ == old.data@
        &&& self.cursor == old.cursor
    }

    pub fn new(data: &'a [u8]) -> (r: DataReader<'a>)
        ensures
            r.data@ == data@,
            r.cursor == 0,
            r.rest() == data@,
    {
        let r = DataReader { data, cursor: 0 };
        assert(r.rest() =~= data@);
        r
    }

    pub fn new_on_cursor(data: &'a [u8], cursor: usize) -> (r: DataReader<'a>)
        ensures
            r.data@ == data@,
            r.cursor == cursor,
    {
        DataReader { data, cursor }
    }

    fn check_lenght(&self, lenght: usize) -> (r: bool)
        ensures
            r == (self.cursor <= self.data@.len() && lenght <= self.rest().len()),
            r ==> self.cursor + lenght <= self.data@.len(),
            self.data@.len() <= usize::MAX,
    {
        self.cursor <= self.data.len() && lenght <= self.data.len() - self.cursor
    }

    proof fn lemma_skip(&self, c: usize)
        requires
            self.cursor <= c <= self.data@.len(),
        ensures
            (DataReader { data: self.data, cursor: c }).rest() == self.rest().skip(
                c - self.cursor,
            ),
    {
        let after = DataReader { data: self.data, cursor: c };
        assert(after.rest() =~= self.rest().skip(c - self.cursor));
    }

    /// Reads exactly `length` bytes; `OutOfData`, with nothing moved, when
    /// the cursor stands past the end or fewer bytes remain.
    pub fn read_data_fixed(&mut self, length: usize) -> (r: Result<Vec<u8>, CodecError>)
        ensures
            old(self).cursor <= old(self).data@.len() && length <= old(self).rest().len() ==> (
            r matches Ok(v) && v@ == old(self).rest().take(length as int) && final(self).advanced(
                old(self),
                length as nat,
            )),
            old(self).cursor > old(self).data@.len() || length > old(self).rest().len() ==> r
                == Err::<Vec<u8>, CodecError>(CodecError::OutOfData) && final(self).unchanged(
                old(self),
            ),
    {
        if !self.check_lenght(length) {
            return Err(CodecError::OutOfData);
        }
        let len = self.data.len();
        let start = self.cursor;
        let v = vstd::slice::slice_to_vec(vstd::slice::slice_subrange(self.data, start, start + length));
        proof {
            self.lemma_skip((start + length) as usize);
            assert(v@ =~= old(self).rest().take(length as int));
        }
        self.cursor = start + length;
        Ok(v)
    }

    pub fn read_data(&mut self) -> (r: Result<Vec<u8>, CodecError>)
        ensures
            match parse_varint(old(self).rest()) {
                Err(e) => r == Err::<Vec<u8>, CodecError>(e) && final(self).unchanged(old(self)),
                Ok((n, l)) => if 0 <= n && l + n <= old(self).rest().len() {
                    r matches Ok(v) && v@ == old(self).rest().subrange(l as int, l + n)
                        && final(self).advanced(old(self), (l + n) as nat)
                } else {
                    r == Err::<Vec<u8>, CodecError>(CodecError::OutOfData) && final(self).unchanged(old(self))
                },
            },
    {
        let start = self.cursor;
        let length = match self.read_varint() {
            Ok(n) => n,
            Err(e) => return Err(e),
        };
        if length < 0 || !self.check_lenght(length as usize) {
            self.cursor = start;
            return Err(CodecError::OutOfData);
        }
        let ghost mid = *self;
        let v = self.read_data_fixed(length as usize);
        proof {
            assert(mid.rest().take(length as int) =~= old(self).rest().subrange(
                (mid.cursor - start) as int,
                (mid.cursor - start) + length,
            ));
            assert(self.rest() =~= old(self).rest().skip(self.cursor - start));
        }
        v
    }

    /// Decodes a variable-length integer of at most `max` bytes as an
    /// unbounded number; nothing moves on failure.
    fn read_var(&mut self, max: usize) -> (r: Result<u128, CodecError>)
        requires
            1 <= max <= VARLONG_MAX_BYTES,
        ensures
            match parse_var(old(self).rest(), max as nat) {
                Ok((v, l)) => r == Ok::<u128, CodecError>(v as u128) && v < pow128(max as nat)
                    && final(self).advanced(old(self), l),
                Err(e) => r == Err::<u128, CodecError>(e) && final(self).unchanged(old(self)),
            },
    {
        let ghost s = self.rest();
        let len = self.data.len();
        if self.cursor > len {
            return Err(CodecError::OutOfData);
        }
        let start = self.cursor;
        let mut i: usize = 0;
        let mut acc: u128 = 0;
        let mut mul: u128 = 1;
        proof {
            lemma_pow128_values();
            assert(s.skip(0) =~= s);
        }
        while i < max
            invariant
                self.data@ == old(self).data@,
                self.cursor == start,
                start == old(self).cursor,
                start <= self.data@.len(),
                len == self.data@.len(),
                s == self.rest(),
                s.len() == len - start,
                1 <= max <= VARLONG_MAX_BYTES,
                i <= max,
                i <= s.len(),
                mul as nat == pow128(i as nat),
                acc < mul,
                pow128(10) == 0x40_0000_0000_0000_0000,
                parse_var(s, max as nat) == match parse_var(s.skip(i as int), (max - i) as nat) {
                    Ok((v, l)) => Ok::<(nat, nat), CodecError>(
                        ((acc + mul * v) as nat, (l + i) as nat),
                    ),
                    Err(e) => Err(e),
                },
            decreases max - i,
        {
            let ghost t = s.skip(i as int);
            if i >= len - start {
                assert(t.len() == 0);
                assert(parse_var(t, (max - i) as nat) == Err::<(nat, nat), CodecError>(
                    CodecError::OutOfData,
                ));
                return Err(CodecError::OutOfData);
            }
            let b = self.data[start + i];
            assert(t[0] == b);
            proof {
                lemma_pow128_monotone(i as nat, 10);
            }
            if b < 128 {
                proof {
                    assert(acc + mul * (b as int) < 128 * mul) by (nonlinear_arith)
                        requires
                            acc < mul,
                            b < 128,
                    ;
                    assert(pow128((i + 1) as nat) == 128 * pow128(i as nat));
                    lemma_pow128_monotone((i + 1) as nat, max as nat);
                    self.lemma_skip((start + i + 1) as usize);
                }
                let v = acc + mul * (b as u128);
                assert(parse_var(t, (max - i) as nat) == Ok::<(nat, nat), CodecError>(
                    (b as nat, 1),
                ));
                self.cursor = start + i + 1;
                return Ok(v);
            }
            proof {
                let t1 = t.drop_first();
                assert(t1 =~= s.skip(i + 1));
                assert(acc + ((b - 128) as int) * mul < 128 * mul) by (nonlinear_arith)
                    requires
                        acc < mul,
                        b < 256,
                        b >= 128,
                ;
                assert(pow128((i + 1) as nat) == 128 * pow128(i as nat));
                lemma_pow128_monotone((i + 1) as nat, 10);
                match parse_var(t1, (max - i - 1) as nat) {
                    Ok((v, l)) => {
                        assert(mul * ((b - 128) + 128 * v) == mul * (b - 128) + (mul * 128) * v)
                            by (nonlinear_arith);
                    },
                    Err(_) => {},
                }
            }
            acc = acc + ((b - 128) as u128) * mul;
            mul = mul * 128;
            i = i + 1;
        }
        assert(max - i == 0);
        Err(CodecError::VarIntTooLong)
    }

    pub fn read_varint(&mut self) -> (r: Result<i32, CodecError>)
        ensures
            match parse_varint(old(self).rest()) {
                Ok((v, l)) => r == Ok::<i32, CodecError>(v) && final(self).advanced(old(self), l),
                Err(e) => r == Err::<i32, CodecError>(e) && final(self).unchanged(old(self)),
            },
    {
        match self.read_var(VARINT_MAX_BYTES) {
            Ok(v) => {
                proof {
                    lemma_pow128_values();
                }
                let w = #[verifier::truncate] (v as u64);
                Ok((#[verifier::truncate] (w as u32)) as i32)
            },
            Err(e) => Err(e),
        }
    }

    pub fn read_varlong(&mut self) -> (r: Result<i64, CodecError>)
        ensures
            match parse_varlong(old(self).rest()) {
                Ok((v, l)) => r == Ok::<i64, CodecError>(v) && final(self).advanced(old(self), l),
                Err(e) => r == Err::<i64, CodecError>(e) && final(self).unchanged(old(self)),
            },
    {
        match self.read_var(VARLONG_MAX_BYTES) {
            Ok(v) => {
                proof {
                    lemma_pow128_values();
                }
                Ok((#[verifier::truncate] (v as u64)) as i64)
            },
            Err(e) => Err(e),
        }
    }

    pub fn read_u8(&mut self) -> (r: Result<u8, CodecError>)
        ensures
            old(self).rest().len() >= 1 ==> r == Ok::<u8, CodecError>(old(self).rest()[0])
                && final(self).advanced(old(self), 1),
            old(self).rest().len() < 1 ==> r == Err::<u8, CodecError>(CodecError::OutOfData)
                && final(self).unchanged(old(self)),
    {
        if !self.check_lenght(1) {
            return Err(CodecError::OutOfData);
        }
        proof {
            self.lemma_skip((self.cursor + 1) as usize);
        }
        let b = self.data[self.cursor];
        self.cursor = self.cursor + 1;
        Ok(b)
    }

    /// Reads `n` bytes as a big-endian unsigned number.
    fn read_be(&mut self, n: usize) -> (r: Result<u64, CodecError>)
        requires
            1 <= n <= 8,
        ensures
            n <= old(self).rest().len() ==> r == Ok::<u64, CodecError>(
                be_value(old(self).rest().take(n as int)) as u64,
            ) && be_value(old(self).rest().take(n as int)) < pow256(n as nat) && final(self).advanced(old(self), n as nat),
            n > old(self).rest().len() ==> r == Err::<u64, CodecError>(CodecError::OutOfData)
                && final(self).unchanged(old(self)),
    {
        if !self.check_lenght(n) {
            return Err(CodecError::OutOfData);
        }
        let ghost s = self.rest();
        let len = self.data.len();
        let start = self.cursor;
        let mut acc: u64 = 0;
        let mut i: usize = 0;
        proof {
            lemma_pow256_values();
            assert(s.take(0) =~= Seq::<u8>::empty());
        }
        while i < n
            invariant
                i <= n <= 8,
                start + n <= self.data@.len(),
                len == self.data@.len(),
                self.cursor == start,
                start == old(self).cursor,
                s == self.rest(),
                self.data@ == old(self).data@,
                acc as nat == be_value(s.take(i as int)),
                be_value(s.take(i as int)) < pow256(i as nat),
                pow256(8) == 0x1_0000_0000_0000_0000,
            decreases n - i,
        {
            let b = self.data[start + i];
            proof {
                assert(s.take(i + 1).drop_last() =~= s.take(i as int));
                assert(s.take(i + 1).last() == b);
                let p = pow256(i as nat);
                assert(acc * 256 + b < 256 * p) by (nonlinear_arith)
                    requires
                        acc < p,
                        b < 256,
                ;
                assert(pow256((i + 1) as nat) == 256 * p);
                lemma_pow256_monotone((i + 1) as nat, 8);
            }
            acc = acc * 256 + b as u64;
            i = i + 1;
        }
        proof {
            self.lemma_skip((start + n) as usize);
        }
        self.cursor = start + n;
        Ok(acc)
    }

    pub fn read_u16(&mut self) -> (r: Result<u16, CodecError>)
        ensures
            2 <= old(self).rest().len() ==> r == Ok::<u16, CodecError>(
                be_value(old(self).rest().take(2)) as u16,
            ) && final(self).advanced(old(self), 2),
            2 > old(self).rest().len() ==> r == Err::<u16, CodecError>(CodecError::OutOfData)
                && final(self).unchanged(old(self)),
    {
        match self.read_be(2) {
            Ok(v) => {
                proof {
                    reveal_with_fuel(pow256, 3);
                }
                Ok(v as u16)
            },
            Err(e) => Err(e),
        }
    }

    pub fn read_i64(&mut self) -> (r: Result<i64, CodecError>)
        ensures
            8 <= old(self).rest().len() ==> r == Ok::<i64, CodecError>(
                (be_value(old(self).rest().take(8)) as u64) as i64,
            ) && final(self).advanced(old(self), 8),
            8 > old(self).rest().len() ==> r == Err::<i64, CodecError>(CodecError::OutOfData)
                && final(self).unchanged(old(self)),
    {
        match self.read_be(8) {
            Ok(v) => Ok(#[verifier::truncate] (v as i64)),
            Err(e) => Err(e),
        }
    }

    pub fn read_string(&mut self) -> (r: Result<String, CodecError>)
        ensures
            match parse_string(old(self).rest()) {
                Ok((chars, l)) => r matches Ok(s) && s@ == chars && final(self).advanced(
                    old(self),
                    l,
                ),
                Err(e) => r matches Err(x) && x == e && final(self).unchanged(old(self)),
            },
    {
        let start = self.cursor;
        let length = match self.read_varint() {
            Ok(n) => n,
            Err(e) => return Err(e),
        };
        if length == 0 {
            return Ok(String::new());
        }
        if length < 0 || !self.check_lenght(length as usize) {
            self.cursor = start;
            return Err(CodecError::OutOfData);
        }
        let ghost mid = *self;
        let bytes = match self.read_data_fixed(length as usize) {
            Ok(b) => b,
            Err(e) => return Err(e),
        };
        proof {
            assert(mid.rest().take(length as int) =~= old(self).rest().subrange(
                (mid.cursor - start) as int,
                (mid.cursor - start) + length,
            ));
            assert(self.rest() =~= old(self).rest().skip(self.cursor - start));
        }
        match string_from_utf8(bytes) {
            Some(s) => Ok(s),
            None => {
                self.cursor = start;
                Err(CodecError::InvalidUtf8)
            },
        }
    }
}

} // verus!
