//! A growable byte buffer that encodes protocol values; each write mirrors
//! one read of the data reader.
use vstd::prelude::*;
use crate::position::{packed_bits, Position};
use crate::wire::{
    be_bytes, le_bytes, lemma_pow128_values, lemma_var_bytes_len, string_bytes, var_bytes,
    varint_bytes, varlong_bytes,
};

verus! {

#[verifier::external_type_specification]
#[verifier::external_body]
#[verifier::reject_recursive_types(T)]
pub struct ExArrayVec<T, const CAP: usize>(arrayvec::ArrayVec<T, CAP>);

/// The bytes an encoding buffer holds, in order.
pub uninterp spec fn digits_of(v: arrayvec::ArrayVec<u8, 10>) -> Seq<u8>;

/// Relies on arrayvec's ArrayVec::new: an empty vector.
#[verifier::external_body]
fn digits_new() -> (r: arrayvec::ArrayVec<u8, 10>)
    ensures
        digits_of(r) == Seq::<u8>::empty(),
{
    arrayvec::ArrayVec::new()
}

/// Relies on arrayvec's ArrayVec::push: the byte goes last; it panics on a
/// full vector, which `requires` leaves out.
#[verifier::external_body]
fn digits_push(v: &mut arrayvec::ArrayVec<u8, 10>, b: u8)
    requires
        digits_of(*old(v)).len() < 10,
    ensures
        digits_of(*final(v)) == digits_of(*old(v)).push(b),
{
    v.push(b)
}

/// Relies on arrayvec's ArrayVec::as_slice: the elements in order.
#[verifier::external_body]
fn digits_slice(v: &arrayvec::ArrayVec<u8, 10>) -> (r: &[u8])
    ensures
        r@ == digits_of(*v),
{
    v.as_slice()
}

pub struct DataWriter {
    pub data: Vec<u8>,
}

impl DataWriter {
    pub fn new() -> (r: DataWriter)
        ensures
            r.data@ == Seq::<u8>::empty(),
    {
        DataWriter { data: Vec::new() }
    }

    pub fn with_capacity(capacity: usize) -> (r: DataWriter)
        ensures
            r.data@ == Seq::<u8>::empty(),
    {
        DataWriter { data: Vec::with_capacity(capacity) }
    }

    fn append(&mut self, src: &[u8])
        ensures
            final(self).data@ == old(self).data@ + src@,
    {
        let mut i: usize = 0;
        while i < src.len()
            invariant
                i <= src@.len(),
                self.data@ == old(self).data@ + src@.take(i as int),
            decreases src@.len() - i,
        {
            self.data.push(src[i]);
            i = i + 1;
            assert(self.data@ =~= old(self).data@ + src@.take(i as int));
        }
        assert(src@.take(i as int) =~= src@);
    }

    fn push_var(&mut self, value: u64)
        ensures
            final(self).data@ == old(self).data@ + var_bytes(value as nat),
    {
        let digits = DataWriter::var_num(value);
        self.append(digits_slice(&digits));
    }

    fn push_be(&mut self, value: u64, n: usize)
        requires
            n <= 8,
        ensures
            final(self).data@ == old(self).data@ + be_bytes(value as nat, n as nat),
        decreases n,
    {
        if n > 0 {
            self.push_be(value / 256, n - 1);
            self.data.push((value % 256) as u8);
            assert(self.data@ =~= old(self).data@ + be_bytes(value as nat, n as nat));
        } else {
            assert(self.data@ =~= old(self).data@ + be_bytes(value as nat, n as nat));
        }
    }

    fn push_le(&mut self, value: u64, n: usize)
        requires
            n <= 8,
        ensures
            final(self).data@ == old(self).data@ + le_bytes(value as nat, n as nat),
        decreases n,
    {
        if n > 0 {
            self.data.push((value % 256) as u8);
            self.push_le(value / 256, n - 1);
            assert(self.data@ =~= old(self).data@ + le_bytes(value as nat, n as nat));
        } else {
            assert(self.data@ =~= old(self).data@ + le_bytes(value as nat, n as nat));
        }
    }

    pub fn write_string(&mut self, string: &String)
        ensures
            final(self).data@ == old(self).data@ + string_bytes(string@),
    {
        let bytes = string.as_str().as_bytes();
        let n = bytes.len();
        self.write_varint(#[verifier::truncate] (n as i32));
        self.append(bytes);
        assert(self.data@ =~= old(self).data@ + string_bytes(string@));
    }

    pub fn write_varint(&mut self, value: i32)
        ensures
            final(self).data@ == old(self).data@ + varint_bytes(value),
    {
        self.push_var((#[verifier::truncate] (value as u32)) as u64);
    }

    pub fn write_varlong(&mut self, value: i64)
        ensures
            final(self).data@ == old(self).data@ + varlong_bytes(value),
    {
        self.push_var(#[verifier::truncate] (value as u64));
    }

    pub fn write_u8(&mut self, value: u8)
        ensures
            final(self).data@ == old(self).data@.push(value),
    {
        self.data.push(value);
    }

    pub fn write_u16(&mut self, value: u16)
        ensures
            final(self).data@ == old(self).data@ + be_bytes(value as nat, 2),
    {
        self.push_be(value as u64, 2);
    }

    pub fn write_u16_le(&mut self, value: u16)
        ensures
            final(self).data@ == old(self).data@ + le_bytes(value as nat, 2),
    {
        self.push_le(value as u64, 2);
    }

    pub fn write_i8(&mut self, value: i8)
        ensures
            final(self).data@ == old(self).data@.push(value as u8),
    {
        self.data.push(#[verifier::truncate] (value as u8));
    }

    pub fn write_i16(&mut self, value: i16)
        ensures
            final(self).data@ == old(self).data@ + be_bytes((value as u16) as nat, 2),
    {
        self.push_be((#[verifier::truncate] (value as u16)) as u64, 2);
    }

    pub fn write_i32(&mut self, value: i32)
        ensures
            final(self).data@ == old(self).data@ + be_bytes((value as u32) as nat, 4),
    {
        self.push_be((#[verifier::truncate] (value as u32)) as u64, 4);
    }

    pub fn write_i64(&mut self, value: i64)
        ensures
            final(self).data@ == old(self).data@ + be_bytes((value as u64) as nat, 8),
    {
        self.push_be(#[verifier::truncate] (value as u64), 8);
    }

    pub fn write_bool(&mut self, value: bool)
        ensures
            final(self).data@ == old(self).data@.push(if value { 1u8 } else { 0u8 }),
    {
        self.data.push(if value { 0x01 } else { 0x00 });
    }

    pub fn write_vec_data(&mut self, data: &Vec<u8>)
        ensures
            final(self).data@ == old(self).data@ + data@,
    {
        self.append(data.as_slice());
    }

    pub fn write_data(&mut self, data: &[u8])
        ensures
            final(self).data@ == old(self).data@ + data@,
    {
        self.append(data);
    }

    pub fn write_position(&mut self, position: &Position)
        ensures
            final(self).data@ == old(self).data@ + be_bytes(
                packed_bits(position.x, position.y, position.z) as nat,
                8,
            ),
    {
        let p = position.encode();
        self.push_be(#[verifier::truncate] (p as u64), 8);
    }

    /// The varint encoding of `value` as a fresh buffer.
    pub fn get_varint(value: u32) -> (r: Vec<u8>)
        ensures
            r@ == var_bytes(value as nat),
    {
        let digits = DataWriter::var_num(value as u64);
        vstd::slice::slice_to_vec(digits_slice(&digits))
    }

    /// The variable-length encoding of `value`, at most ten bytes.
    pub fn var_num(value: u64) -> (r: arrayvec::ArrayVec<u8, 10>)
        ensures
            digits_of(r) == var_bytes(value as nat),
    {
        let mut array = digits_new();
        let mut v = value;
        proof {
            lemma_pow128_values();
            lemma_var_bytes_len(value as nat, 10);
        }
        while v >= 128
            invariant
                digits_of(array) + var_bytes(v as nat) == var_bytes(value as nat),
                var_bytes(value as nat).len() <= 10,
            decreases v,
        {
            let ghost vv = v;
            assert(var_bytes(vv as nat) == seq![(vv % 128 + 128) as u8] + var_bytes(
                (vv / 128) as nat,
            ));
            digits_push(&mut array, (v % 128 + 128) as u8);
            v = v / 128;
            assert(digits_of(array) + var_bytes(v as nat) =~= var_bytes(value as nat));
        }
        assert(var_bytes(v as nat) == seq![v as u8]);
        digits_push(&mut array, v as u8);
        assert(digits_of(array) =~= var_bytes(value as nat));
        array
    }
}

} // verus!
