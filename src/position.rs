//! Block positions and their packed 64-bit wire form: x in the top 26 bits,
//! y in the next 12, z in the low 26, each in two's complement.
use vstd::prelude::*;

verus! {

#[derive(Debug, Clone, Copy, PartialEq, Eq, Structural)]
pub struct Position {
    pub x: i32,
    pub y: i16,
    pub z: i32,
}

/// The packed form of `(x, y, z)` as unsigned bits.
pub open spec fn packed_bits(x: i32, y: i16, z: i32) -> u64 {
    (((x as u64) & 0x3FF_FFFF) << 38u64) | (((y as u64) & 0xFFF) << 26u64) | ((z as u64)
        & 0x3FF_FFFF)
}

impl Position {
    pub fn encode(&self) -> (r: i64)
        ensures
            r as u64 == packed_bits(self.x, self.y, self.z),
    {
        let x = self.x as i64;
        let y = self.y as i64;
        let z = self.z as i64;
        let r = ((x & 0x3FF_FFFF) << 38u64) | ((y & 0xFFF) << 26u64) | (z & 0x3FF_FFFF);
        let (sx, sy, sz) = (self.x, self.y, self.z);
        assert(r as u64 == (((sx as u64) & 0x3FF_FFFF) << 38u64) | (((sy as u64) & 0xFFF)
            << 26u64) | ((sz as u64) & 0x3FF_FFFF)) by (bit_vector)
            requires
                x == sx as i64,
                y == sy as i64,
                z == sz as i64,
                r == ((x & 0x3FF_FFFF) << 38u64) | ((y & 0xFFF) << 26u64) | (z & 0x3FF_FFFF),
        ;
        r
    }
}

/// Each coordinate's low bits (26 for x and z, 12 for y) can be read back
/// from its own field of the packed form.
pub proof fn lemma_packed_fields(x: i32, y: i16, z: i32)
    ensures
        (packed_bits(x, y, z) >> 38u64) == (x as u64) & 0x3FF_FFFF,
        (packed_bits(x, y, z) >> 26u64) & 0xFFF == (y as u64) & 0xFFF,
        packed_bits(x, y, z) & 0x3FF_FFFF == (z as u64) & 0x3FF_FFFF,
{
    let (ux, uy, uz) = (x as u64, y as u64, z as u64);
    assert(((((ux & 0x3FF_FFFF) << 38u64) | ((uy & 0xFFF) << 26u64) | (uz & 0x3FF_FFFF))
        >> 38u64) == ux & 0x3FF_FFFF) by (bit_vector);
    assert(((((ux & 0x3FF_FFFF) << 38u64) | ((uy & 0xFFF) << 26u64) | (uz & 0x3FF_FFFF))
        >> 26u64) & 0xFFF == uy & 0xFFF) by (bit_vector);
    assert((((ux & 0x3FF_FFFF) << 38u64) | ((uy & 0xFFF) << 26u64) | (uz & 0x3FF_FFFF))
        & 0x3FF_FFFF == uz & 0x3FF_FFFF) by (bit_vector);
}

} // verus!
