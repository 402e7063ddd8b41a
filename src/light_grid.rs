//! Points of a 16 x 16 light grid, with the light level a source puts there.
use vstd::prelude::*;

verus! {

pub struct Pos {
    pub x: usize,
    pub z: usize,
}

pub struct PosValue {
    pub pos: Pos,
    pub value: i8,
}

/// `after` is `before` with the cell at row `x`, column `z` set to `value`.
pub open spec fn grid_set(before: [[i8; 16]; 16], after: [[i8; 16]; 16], x: int, z: int, value: i8) -> bool {
    &&& after@[x]@[z] == value
    &&& forall|i: int, j: int|
        0 <= i < 16 && 0 <= j < 16 && (i != x || j != z) ==> after@[i]@[j] == before@[i]@[j]
}

impl Pos {
    pub fn set(&self, matrix: &mut [[i8; 16]; 16], value: i8)
        requires
            self.x < 16,
            self.z < 16,
        ensures
            grid_set(*old(matrix), *final(matrix), self.x as int, self.z as int, value),
    {
        let mut row = matrix[self.x];
        row[self.z] = value;
        matrix[self.x] = row;
    }
}

impl PosValue {
    pub fn set(&self, matrix: &mut [[i8; 16]; 16])
        requires
            self.pos.x < 16,
            self.pos.z < 16,
        ensures
            grid_set(*old(matrix), *final(matrix), self.pos.x as int, self.pos.z as int, self.value),
    {
        self.pos.set(matrix, self.value)
    }

    pub fn new(x: usize, z: usize, value: i8) -> (r: PosValue)
        ensures
            r.pos.x == x,
            r.pos.z == z,
            r.value == value,
    {
        PosValue { pos: Pos { x, z }, value }
    }
}

} // verus!
