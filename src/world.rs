//! Blocks, chunk coordinates and level types: the parts of the world model
//! that travel in protocol messages.
use vstd::prelude::*;
use crate::chunk::{
    admits, block_index, block_light_of, blocks_of, column_bytes, lemma_with_nibble, light_index,
    mask_of, nibble, sky_light_of, with_nibble, ChunkColumn, ChunkSection, LightRule,
};

verus! {

#[derive(Debug, Clone, Copy, PartialEq, Eq, Structural)]
pub struct Material {
    pub id: u16,
}

/// A block: its material and four bits of metadata.
#[derive(Debug, Clone, Copy, PartialEq, Eq, Structural)]
pub struct Block {
    pub material: Material,
    pub metadata: u8,
}

/// The 16-bit form of a block: the material id above four metadata bits.
pub open spec fn encoded(material_id: u16, metadata: u8) -> u16 {
    ((material_id << 4u16) | (metadata as u16)) as u16
}

impl Block {
    /// Air: material 0, no metadata.
    pub fn new() -> (r: Block)
        ensures
            r.material.id == 0,
            r.metadata == 0,
    {
        Block { material: Material { id: 0 }, metadata: 0 }
    }

    pub fn from_material(material: Material) -> (r: Block)
        ensures
            r.material == material,
            r.metadata == 0,
    {
        Block { material, metadata: 0 }
    }

    pub fn from_material_and_metadata(material: Material, metadata: u8) -> (r: Block)
        ensures
            r.material == material,
            r.metadata == metadata,
    {
        Block { material, metadata }
    }

    pub fn from_encoded(data: u16) -> (r: Block)
        ensures
            r.material.id == data / 16,
            r.metadata == data % 16,
    {
        let id = data >> 4u16;
        let metadata = (data & 0xF) as u8;
        assert(data >> 4u16 == data / 16) by (bit_vector);
        assert(data & 0xF == data % 16) by (bit_vector);
        Block { material: Material { id }, metadata }
    }

    pub fn get_encoded(&self) -> (r: u16)
        ensures
            r == encoded(self.material.id, self.metadata),
    {
        (self.material.id << 4u16) | (self.metadata as u16)
    }
}

/// A block whose material id fits twelve bits and whose metadata fits four
/// comes back unchanged from its 16-bit form.
pub proof fn lemma_block_encoding_round_trip(id: u16, metadata: u8)
    requires
        id < 4096,
        metadata < 16,
    ensures
        encoded(id, metadata) / 16 == id,
        encoded(id, metadata) % 16 == metadata,
{
    let m = metadata as u16;
    assert(((id << 4u16) | m) >> 4u16 == id) by (bit_vector)
        requires
            id < 4096,
            m < 16,
    ;
    assert(((id << 4u16) | m) & 0xF == m) by (bit_vector)
        requires
            m < 16,
    ;
    let e = (id << 4u16) | m;
    assert(e >> 4u16 == e / 16) by (bit_vector);
    assert(e & 0xF == e % 16) by (bit_vector);
}

/// The column of chunks a block stands in.
#[derive(Debug, Clone, Copy, PartialEq, Eq, Structural, Hash, Default)]
pub struct ChunkPos {
    pub x: i32,
    pub z: i32,
}

fn floor_div16(v: i32) -> (r: i32)
    ensures
        r as int == (v as int) / 16,
{
    if v >= 0 {
        v / 16
    } else {
        let m = -(v + 1);
        let q = m / 16;
        assert(-(q as int) - 1 == (v as int) / 16) by (nonlinear_arith)
            requires
                m == -(v + 1),
                q == m / 16,
                v < 0,
        ;
        -q - 1
    }
}

impl ChunkPos {
    /// The chunk of the block at `(x, z)`: both coordinates divided by 16,
    /// rounding down.
    pub fn from_block_coords(x: i32, z: i32) -> (r: ChunkPos)
        ensures
            r.x as int == (x as int) / 16,
            r.z as int == (z as int) / 16,
    {
        ChunkPos { x: floor_div16(x), z: floor_div16(z) }
    }
}

#[derive(Debug, Clone, Copy, PartialEq, Eq, Structural)]
pub enum LevelType {
    Default,
    Flat,
    LargeBiomes,
    Amplified,
    Default11,
}

pub open spec fn level_type_name(t: LevelType) -> Seq<char> {
    match t {
        LevelType::Default => "default"@,
        LevelType::Flat => "flat"@,
        LevelType::LargeBiomes => "largeBiomes"@,
        LevelType::Amplified => "amplified"@,
        LevelType::Default11 => "default_1_1"@,
    }
}

impl LevelType {
    /// The name a join message gives the level type.
    pub fn to_str(&self) -> (r: &'static str)
        ensures
            r@ == level_type_name(*self),
    {
        match self {
            LevelType::Default => "default",
            LevelType::Flat => "flat",
            LevelType::LargeBiomes => "largeBiomes",
            LevelType::Amplified => "amplified",
            LevelType::Default11 => "default_1_1",
        }
    }
}

/// The remainder of `v` divided by 16, between 0 and 15.
fn mod16(v: i32) -> (r: usize)
    ensures
        r as int == (v as int) % 16,
        r < 16,
{
    let q = floor_div16(v);
    ((v as i64) - (q as i64) * 16) as usize
}

/// The chunk column of the block at `(x, z)`.
pub open spec fn chunk_of(x: i32, z: i32) -> ChunkPos {
    ChunkPos { x: ((x as int) / 16) as i32, z: ((z as int) / 16) as i32 }
}

/// A world: named, with a difficulty and a level type, and the chunk
/// columns generated so far, at most one per position.
pub struct World {
    pub name: String,
    pub difficulty: u8,
    pub level_type: LevelType,
    pub chunks: Vec<ChunkColumn>,
}

impl World {
    pub open spec fn wf(&self) -> bool {
        &&& forall|i: int| 0 <= i < self.chunks@.len() ==> (#[trigger] self.chunks@[i]).wf()
        &&& forall|i: int, j: int|
            0 <= i < self.chunks@.len() && 0 <= j < self.chunks@.len() && i != j ==> (
            #[trigger] self.chunks@[i]).pos() != (#[trigger] self.chunks@[j]).pos()
    }

    pub open spec fn has_chunk(&self, pos: ChunkPos) -> bool {
        exists|i: int| 0 <= i < self.chunks@.len() && (#[trigger] self.chunks@[i]).pos() == pos
    }

    /// The column at `pos` (meaningful where `has_chunk(pos)`).
    pub open spec fn column(&self, pos: ChunkPos) -> ChunkColumn {
        self.chunks@[choose|i: int| 0 <= i < self.chunks@.len() && (#[trigger] self.chunks@[i]).pos()
            == pos]
    }

    /// The stored 16-bit form of the block at `(x, y, z)`, where its column
    /// and section exist.
    pub open spec fn block_code(&self, x: i32, y: int, z: i32) -> Option<u16> {
        if self.has_chunk(chunk_of(x, z)) {
            match self.column(chunk_of(x, z)).sections@[y / 16] {
                Some(s) => Some(
                    s.blocks@[block_index(y % 16, (z as int) % 16, (x as int) % 16)],
                ),
                None => None,
            }
        } else {
            None
        }
    }

    /// The byte holding the block light of `(x, y, z)`, where its column and
    /// section exist.
    pub open spec fn light_byte(&self, x: i32, y: int, z: i32) -> Option<u8> {
        if self.has_chunk(chunk_of(x, z)) {
            match self.column(chunk_of(x, z)).sections@[y / 16] {
                Some(s) => Some(
                    s.block_light@[light_index(y % 16, (z as int) % 16, (x as int) % 16)],
                ),
                None => None,
            }
        } else {
            None
        }
    }

    pub fn new(name: String, difficulty: u8, level_type: LevelType) -> (r: World)
        ensures
            r.wf(),
            r.name == name,
            r.difficulty == difficulty,
            r.level_type == level_type,
            r.chunks@.len() == 0,
    {
        World { name, difficulty, level_type, chunks: Vec::new() }
    }

    fn find_chunk(&self, pos: ChunkPos) -> (r: Option<usize>)
        ensures
            r matches Some(i) ==> i < self.chunks@.len() && self.chunks@[i as int].pos() == pos,
            r is None ==> !self.has_chunk(pos),
    {
        let mut i: usize = 0;
        while i < self.chunks.len()
            invariant
                i <= self.chunks@.len(),
                forall|j: int| 0 <= j < i ==> (#[trigger] self.chunks@[j]).pos() != pos,
            decreases self.chunks@.len() - i,
        {
            if self.chunks[i].chunk_pos == pos {
                return Some(i);
            }
            i = i + 1;
        }
        None
    }

    proof fn lemma_column(&self, i: int)
        requires
            self.wf(),
            0 <= i < self.chunks@.len(),
        ensures
            self.has_chunk(self.chunks@[i].pos()),
            self.column(self.chunks@[i].pos()) == self.chunks@[i],
    {
        let pos = self.chunks@[i].pos();
        assert(self.has_chunk(pos));
        let j = choose|j: int| 0 <= j < self.chunks@.len() && (#[trigger] self.chunks@[j]).pos()
            == pos;
        if j != i {
            assert(self.chunks@[i].pos() != self.chunks@[j].pos());
        }
    }

    pub fn get_chunk(&self, chunk_pos: ChunkPos) -> (r: Option<&ChunkColumn>)
        requires
            self.wf(),
        ensures
            r is None <==> !self.has_chunk(chunk_pos),
            r matches Some(c) ==> *c == self.column(chunk_pos),
    {
        match self.find_chunk(chunk_pos) {
            Some(i) => {
                proof {
                    self.lemma_column(i as int);
                }
                Some(&self.chunks[i])
            },
            None => None,
        }
    }

    /// Makes sure the column at `chunk_pos` exists and gives its index; a
    /// new one has no sections.
    pub fn allocate_chunk(&mut self, chunk_pos: ChunkPos) -> (r: usize)
        requires
            old(self).wf(),
        ensures
            final(self).wf(),
            r < final(self).chunks@.len(),
            final(self).chunks@[r as int].pos() == chunk_pos,
            old(self).has_chunk(chunk_pos) ==> final(self).chunks@ == old(self).chunks@,
            !old(self).has_chunk(chunk_pos) ==> final(self).chunks@.drop_last() == old(
                self).chunks@ && r == old(self).chunks@.len() && forall|k: int|
                0 <= k < 16 ==> (#[trigger] final(self).chunks@[r as int].sections@[k]) is None,
            final(self).name == old(self).name,
            final(self).difficulty == old(self).difficulty,
            final(self).level_type == old(self).level_type,
    {
        match self.find_chunk(chunk_pos) {
            Some(i) => i,
            None => {
                self.chunks.push(ChunkColumn::new(chunk_pos));
                assert(self.chunks@.drop_last() =~= old(self).chunks@);
                self.chunks.len() - 1
            },
        }
    }

    /// Puts `block` at `(x, y, z)`, making its column and section first if
    /// need be.
    pub fn set_block(&mut self, block: Block, x: i32, y: i16, z: i32)
        requires
            old(self).wf(),
            0 <= y < 256,
        ensures
            final(self).wf(),
            final(self).block_code(x, y as int, z) == Some(
                encoded(block.material.id, block.metadata),
            ),
            block_set(*old(self), *final(self), x, y as int, z, encoded(block.material.id, block.metadata)),
    {
        let chunk_pos = ChunkPos::from_block_coords(x, z);
        let ghost before = *self;
        let i = self.allocate_chunk(chunk_pos);
        let ghost mid = *self;
        proof {
            self.lemma_column(i as int);
            if old(self).has_chunk(chunk_pos) {
                old(self).lemma_column(i as int);
            } else {
                assert(self.chunks@[i as int].sections@ =~= Seq::new(
                    16,
                    |k: int| None::<ChunkSection>,
                ));
            }
            assert(sections_at(before, chunk_pos) == mid.chunks@[i as int].sections@);
        }
        let mut column = self.chunks.remove(i);
        column.set_block(block, y as u8, mod16(z) as u8, mod16(x) as u8);
        self.chunks.insert(i, column);
        proof {
            assert(self.chunks@ =~= mid.chunks@.update(i as int, column));
            self.lemma_wf_after_replace(i as int);
            self.lemma_column(i as int);
            World::lemma_replace_column(before, *self, i as int, chunk_pos);
        }
    }

    proof fn lemma_wf_after_replace(&self, i: int)
        requires
            0 <= i < self.chunks@.len(),
            self.chunks@[i].wf(),
            forall|k: int|
                0 <= k < self.chunks@.len() && k != i ==> (#[trigger] self.chunks@[k]).wf(),
            forall|a: int, b: int|
                0 <= a < self.chunks@.len() && 0 <= b < self.chunks@.len() && a != b ==> (
                #[trigger] self.chunks@[a]).pos() != (#[trigger] self.chunks@[b]).pos(),
        ensures
            self.wf(),
    {
    }

    /// The block at `(x, y, z)`; air where its column or section does not
    /// exist.
    pub fn get_block(&self, x: i32, y: i16, z: i32) -> (r: Block)
        requires
            self.wf(),
            0 <= y < 256,
        ensures
            match self.block_code(x, y as int, z) {
                Some(v) => r.material.id == v / 16 && r.metadata == v % 16,
                None => r.material.id == 0 && r.metadata == 0,
            },
    {
        let chunk_pos = ChunkPos::from_block_coords(x, z);
        match self.find_chunk(chunk_pos) {
            None => Block::new(),
            Some(i) => {
                proof {
                    self.lemma_column(i as int);
                }
                self.chunks[i].get_block(y as u8, mod16(z) as u8, mod16(x) as u8)
            },
        }
    }
}

/// The sections of the column at `pos`, none where it does not exist yet.
pub open spec fn sections_at(w: World, pos: ChunkPos) -> Seq<Option<ChunkSection>> {
    if w.has_chunk(pos) {
        w.column(pos).sections@
    } else {
        Seq::new(16, |k: int| None::<ChunkSection>)
    }
}

/// Every column but the one at `pos` is as it was.
pub open spec fn other_columns_kept(before: World, after: World, pos: ChunkPos) -> bool {
    forall|cp: ChunkPos|
        cp != pos ==> (#[trigger] after.has_chunk(cp)) == before.has_chunk(cp) && (
        before.has_chunk(cp) ==> after.column(cp) == before.column(cp))
}

/// The block at `(x, y, z)` is set to the 16-bit form `code`: its column
/// and section exist after; every other block, the light, and every other
/// section and column stay as they were.
pub open spec fn block_set(before: World, after: World, x: i32, y: int, z: i32, code: u16) -> bool {
    let pos = chunk_of(x, z);
    let sec = y / 16;
    let o = sections_at(before, pos)[sec];
    &&& other_columns_kept(before, after, pos)
    &&& after.has_chunk(pos)
    &&& forall|k: int| 0 <= k < 16 && k != sec ==> (#[trigger] sections_at(after, pos)[k]) == sections_at(before, pos)[k]
    &&& sections_at(after, pos)[sec] matches Some(s) && {
        &&& s.blocks@ == blocks_of(o).update(block_index(y % 16, (z as int) % 16, (x as int) % 16), code)
        &&& s.block_light@ == block_light_of(o)
        &&& s.sky_light@ == sky_light_of(o)
    }
}

/// The block light of `(x, y, z)` is set by `rule`: in the world after,
/// the column and section of the block exist; the light byte of the block
/// changes as `set_light_at` says; every other byte, every block, the sky
/// light, and every other section and column stay as they were.
pub open spec fn light_set(
    before: World,
    after: World,
    x: i32,
    y: int,
    z: i32,
    power: u8,
    rule: LightRule,
    r: bool,
) -> bool {
    let pos = chunk_of(x, z);
    let sec = y / 16;
    let o = sections_at(before, pos)[sec];
    let at = light_index(y % 16, (z as int) % 16, (x as int) % 16);
    let old_byte = block_light_of(o)[at];
    let odd = (x as int) % 16 % 2 == 1;
    &&& other_columns_kept(before, after, pos)
    &&& after.has_chunk(pos)
    &&& forall|k: int| 0 <= k < 16 && k != sec ==> (#[trigger] sections_at(after, pos)[k]) == sections_at(before, pos)[k]
    &&& r == admits(rule, power, nibble(old_byte, odd))
    &&& sections_at(after, pos)[sec] matches Some(s) && {
        &&& s.block_light@ == block_light_of(o).update(
            at,
            if r {
                with_nibble(old_byte, odd, power)
            } else {
                old_byte
            },
        )
        &&& s.blocks@ == blocks_of(o)
        &&& s.sky_light@ == sky_light_of(o)
        &&& (r && power < 16) ==> nibble(s.block_light@[at], odd) == power && nibble(
            s.block_light@[at],
            !odd,
        ) == nibble(old_byte, !odd)
    }
}

impl World {
    proof fn lemma_replace_column(a: World, b: World, i: int, pos: ChunkPos)
        requires
            a.wf(),
            b.wf(),
            0 <= i < b.chunks@.len(),
            b.chunks@[i].pos() == pos,
            (b.chunks@.len() == a.chunks@.len() && a.chunks@[i].pos() == pos) || (b.chunks@.len()
                == a.chunks@.len() + 1 && i == a.chunks@.len() && !a.has_chunk(pos)),
            forall|j: int| 0 <= j < a.chunks@.len() && j != i ==> b.chunks@[j] == a.chunks@[j],
        ensures
            other_columns_kept(a, b, pos),
            b.has_chunk(pos),
            b.column(pos) == b.chunks@[i],
            a.has_chunk(pos) ==> a.column(pos) == a.chunks@[i],
    {
        b.lemma_column(i);
        if b.chunks@.len() == a.chunks@.len() {
            a.lemma_column(i);
        }
        assert forall|cp: ChunkPos| cp != pos implies (#[trigger] b.has_chunk(cp)) == a.has_chunk(cp)
            && (a.has_chunk(cp) ==> b.column(cp) == a.column(cp)) by {
            if b.has_chunk(cp) {
                let j = choose|j: int| 0 <= j < b.chunks@.len() && (#[trigger] b.chunks@[j]).pos()
                    == cp;
                assert(j != i);
                assert(b.chunks@[j] == a.chunks@[j]);
                a.lemma_column(j);
                b.lemma_column(j);
            }
            if a.has_chunk(cp) {
                let j = choose|j: int| 0 <= j < a.chunks@.len() && (#[trigger] a.chunks@[j]).pos()
                    == cp;
                if j == i {
                    assert(a.chunks@[i].pos() == pos);
                }
                assert(b.chunks@[j] == a.chunks@[j]);
                assert(b.chunks@[j].pos() == cp);
            }
        }
    }

    fn light(&mut self, power: u8, x: i32, y: i32, z: i32, rule: LightRule) -> (r: bool)
        requires
            old(self).wf(),
            0 <= y < 256,
        ensures
            final(self).wf(),
            light_set(*old(self), *final(self), x, y as int, z, power, rule, r),
    {
        let chunk_pos = ChunkPos::from_block_coords(x, z);
        let ghost before = *self;
        let i = self.allocate_chunk(chunk_pos);
        let ghost mid = *self;
        proof {
            self.lemma_column(i as int);
            if old(self).has_chunk(chunk_pos) {
                old(self).lemma_column(i as int);
            } else {
                assert(self.chunks@[i as int].sections@ =~= Seq::new(
                    16,
                    |k: int| None::<ChunkSection>,
                ));
            }
            assert(sections_at(before, chunk_pos) == mid.chunks@[i as int].sections@);
        }
        let mut column = self.chunks.remove(i);
        let r = column.set_light_at(
            (y / 16) as usize,
            (y % 16) as usize,
            mod16(z),
            mod16(x),
            power,
            rule,
        );
        self.chunks.insert(i, column);
        proof {
            assert(self.chunks@ =~= mid.chunks@.update(i as int, column));
            self.lemma_wf_after_replace(i as int);
            World::lemma_replace_column(before, *self, i as int, chunk_pos);
            let at = light_index((y % 16) as int, (z as int) % 16, (x as int) % 16);
            let o = sections_at(before, chunk_pos)[(y / 16) as int];
            let odd = (x as int) % 16 % 2 == 1;
            if power < 16 {
                lemma_with_nibble(block_light_of(o)[at], odd, power);
            }
        }
        r
    }

    /// Sets the block light at `(x, y, z)` to `power`, making its column
    /// and section first if need be; nothing else changes.
    pub fn set_block_light(&mut self, power: u8, x: i32, y: i32, z: i32)
        requires
            old(self).wf(),
            0 <= y < 256,
        ensures
            final(self).wf(),
            light_set(*old(self), *final(self), x, y as int, z, power, LightRule::Always, true),
    {
        self.light(power, x, y, z, LightRule::Always);
    }

    /// Sets the block light at `(x, y, z)` to `power` where that is at
    /// least the level there; nothing else changes. Whether it was set.
    pub fn set_light(&mut self, power: u8, x: i32, y: i32, z: i32) -> (r: bool)
        requires
            old(self).wf(),
            0 <= y < 256,
        ensures
            final(self).wf(),
            light_set(*old(self), *final(self), x, y as int, z, power, LightRule::AtLeast, r),
    {
        self.light(power, x, y, z, LightRule::AtLeast)
    }

    /// Spreads light from `(x, y, z)`: `power` there, one less on each of
    /// the six neighbours, and so on while it stays above zero. The spread
    /// goes on only through blocks it brightens, so a block already as
    /// bright stops it and each block is raised at most fifteen times.
    /// Heights outside the world are left out.
    pub fn flood_fill_light(&mut self, power: u8, x: i32, y: i32, z: i32)
        requires
            old(self).wf(),
            0 <= y < 256,
        ensures
            final(self).wf(),
        decreases power,
    {
        if !self.light(power, x, y, z, LightRule::Above) {
            return;
        }
        if power <= 1 {
            return;
        }
        let power = power - 1;
        if y < 255 {
            self.flood_fill_light(power, x, y + 1, z);
        }
        if y > 0 {
            self.flood_fill_light(power, x, y - 1, z);
        }
        if z < i32::MAX {
            self.flood_fill_light(power, x, y, z + 1);
        }
        if z > i32::MIN {
            self.flood_fill_light(power, x, y, z - 1);
        }
        if x < i32::MAX {
            self.flood_fill_light(power, x + 1, y, z);
        }
        if x > i32::MIN {
            self.flood_fill_light(power, x - 1, y, z);
        }
    }
}

/// A column's place and section mask in a bulk chunk message.
#[derive(Debug, Clone, Copy, PartialEq, Eq, Structural)]
pub struct ChunkMeta {
    pub pos: ChunkPos,
    pub bitmask: u16,
}

/// Many columns' chunk data in one message.
pub struct MapChunkBulk {
    pub sky_light: bool,
    pub chunks: Vec<ChunkMeta>,
    pub data: Vec<u8>,
}

/// The chunk data of the columns, one after another.
pub open spec fn columns_bytes(cs: Seq<ChunkColumn>) -> Seq<u8>
    decreases cs.len(),
{
    if cs.len() == 0 {
        Seq::empty()
    } else {
        columns_bytes(cs.drop_last()) + column_bytes(cs.last().sections@)
    }
}

impl World {
    /// Every column of the world in one bulk message, with sky light: the
    /// columns' places and masks in order, and their data in the same order.
    /// The centre and radius of the view do not narrow it.
    pub fn get_map_bulk_packet(&self, center: ChunkPos, radius: u8) -> (r: MapChunkBulk)
        requires
            self.wf(),
        ensures
            r.sky_light,
            r.chunks@.len() == self.chunks@.len(),
            forall|i: int|
                0 <= i < self.chunks@.len() ==> #[trigger] r.chunks@[i] == (ChunkMeta {
                    pos: self.chunks@[i].pos(),
                    bitmask: mask_of(self.chunks@[i].sections@) as u16,
                }),
            r.data@ == columns_bytes(self.chunks@),
    {
        let mut chunks: Vec<ChunkMeta> = Vec::new();
        let mut data: Vec<u8> = Vec::new();
        let mut i: usize = 0;
        assert(self.chunks@.take(0) =~= Seq::<ChunkColumn>::empty());
        while i < self.chunks.len()
            invariant
                self.wf(),
                i <= self.chunks@.len(),
                chunks@.len() == i,
                forall|j: int|
                    0 <= j < i ==> #[trigger] chunks@[j] == (ChunkMeta {
                        pos: self.chunks@[j].pos(),
                        bitmask: mask_of(self.chunks@[j].sections@) as u16,
                    }),
                data@ == columns_bytes(self.chunks@.take(i as int)),
            decreases self.chunks@.len() - i,
        {
            let column = &self.chunks[i];
            let bitmask = column.bitmask();
            chunks.push(ChunkMeta { pos: column.chunk_pos, bitmask: bitmask.0 });
            assert(self.chunks@.take(i + 1).drop_last() =~= self.chunks@.take(i as int));
            column.write(&mut data);
            i = i + 1;
        }
        assert(self.chunks@.take(i as int) =~= self.chunks@);
        MapChunkBulk { sky_light: true, chunks, data }
    }
}

/// Lays the spawn platform: stone over x and z from -15 to 14 at height 49,
/// a torch at (0, 50, 0) beside a stone block at (-1, 50, 0), and the torch's
/// light spread from there.
pub fn generate(world: &mut World)
    requires
        old(world).wf(),
    ensures
        final(world).wf(),
{
    let stone = Block::from_material(Material { id: 2 });
    let torch = Block::from_material_and_metadata(Material { id: 50 }, 5);
    let mut x: i32 = -15;
    while x < 15
        invariant
            -15 <= x <= 15,
            world.wf(),
        decreases 15 - x,
    {
        let mut z: i32 = -15;
        while z < 15
            invariant
                -15 <= z <= 15,
                world.wf(),
            decreases 15 - z,
        {
            world.set_block(stone, x, 49, z);
            z = z + 1;
        }
        x = x + 1;
    }
    world.set_block(torch, 0, 50, 0);
    world.set_block(stone, -1, 50, 0);
    world.flood_fill_light(15, 0, 50, 0);
}

} // verus!
