//! Block storage: a chunk column is sixteen optional sections stacked from
//! y = 0; a section holds 16 x 16 x 16 block ids (y, then z, then x) and a
//! half byte of block light and of sky light per block.
use vstd::prelude::*;
use crate::wire::le_bytes;
use crate::world::{encoded, Block, ChunkPos};

verus! {

pub const SECTION_BLOCKS: usize = 4096;

pub const SECTION_LIGHT_BYTES: usize = 2048;

pub const SECTIONS_PER_COLUMN: usize = 16;

/// Where the block at `(y, z, x)` of a section stands in its block array.
pub open spec fn block_index(y: int, z: int, x: int) -> int {
    y * 256 + z * 16 + x
}

pub struct ChunkSection {
    pub blocks: Vec<u16>,
    pub block_light: Vec<u8>,
    pub sky_light: Vec<u8>,
}

impl ChunkSection {
    pub open spec fn wf(&self) -> bool {
        &&& self.blocks@.len() == SECTION_BLOCKS
        &&& self.block_light@.len() == SECTION_LIGHT_BYTES
        &&& self.sky_light@.len() == SECTION_LIGHT_BYTES
    }

    /// A section of air, without light.
    pub fn new() -> (r: ChunkSection)
        ensures
            r.wf(),
            forall|i: int| 0 <= i < SECTION_BLOCKS ==> r.blocks@[i] == 0,
            forall|i: int| 0 <= i < SECTION_LIGHT_BYTES ==> r.block_light@[i] == 0,
            forall|i: int| 0 <= i < SECTION_LIGHT_BYTES ==> r.sky_light@[i] == 0,
    {
        ChunkSection {
            blocks: vec![0u16; SECTION_BLOCKS],
            block_light: vec![0u8; SECTION_LIGHT_BYTES],
            sky_light: vec![0u8; SECTION_LIGHT_BYTES],
        }
    }
}

pub struct ChunkColumn {
    pub chunk_pos: ChunkPos,
    pub sections: Vec<Option<ChunkSection>>,
}

/// The section mask of a column: bit `i` is set when section `i` exists.
pub open spec fn mask_of(s: Seq<Option<ChunkSection>>) -> nat
    decreases s.len(),
{
    if s.len() == 0 {
        0
    } else {
        mask_of(s.drop_last()) + if s.last() is Some {
            vstd::arithmetic::power2::pow2((s.len() - 1) as nat)
        } else {
            0
        }
    }
}

/// How many sections of a column exist.
pub open spec fn count_of(s: Seq<Option<ChunkSection>>) -> nat
    decreases s.len(),
{
    if s.len() == 0 {
        0
    } else {
        count_of(s.drop_last()) + if s.last() is Some {
            1nat
        } else {
            0
        }
    }
}

impl ChunkColumn {
    pub open spec fn pos(&self) -> ChunkPos {
        self.chunk_pos
    }

    pub open spec fn wf(&self) -> bool {
        &&& self.sections@.len() == SECTIONS_PER_COLUMN
        &&& forall|i: int|
            0 <= i < SECTIONS_PER_COLUMN ==> (#[trigger] self.sections@[i] matches Some(s)
                ==> s.wf())
    }

    /// An empty column: no section exists yet.
    pub fn new(chunk_pos: ChunkPos) -> (r: ChunkColumn)
        ensures
            r.wf(),
            r.pos() == chunk_pos,
            forall|i: int| 0 <= i < SECTIONS_PER_COLUMN ==> r.sections@[i] is None,
    {
        let mut sections: Vec<Option<ChunkSection>> = Vec::new();
        let mut i: usize = 0;
        while i < SECTIONS_PER_COLUMN
            invariant
                i <= SECTIONS_PER_COLUMN,
                sections@.len() == i,
                forall|j: int| 0 <= j < i ==> sections@[j] is None,
            decreases SECTIONS_PER_COLUMN - i,
        {
            sections.push(None);
            i = i + 1;
        }
        ChunkColumn { chunk_pos, sections }
    }

    /// Makes sure section `section` exists; a new one is air without light.
    pub fn allocate_section(&mut self, section: usize)
        requires
            old(self).wf(),
            section < SECTIONS_PER_COLUMN,
        ensures
            final(self).wf(),
            final(self).pos() == old(self).pos(),
            final(self).sections@[section as int] is Some,
            old(self).sections@[section as int] is Some ==> final(self).sections@ == old(self).sections@,
            old(self).sections@[section as int] is None ==> final(self).sections@ == old(self).sections@.update(section as int, final(self).sections@[section as int]) && (final(self).sections@[section as int] matches Some(s) && (forall|i: int|
                0 <= i < SECTION_BLOCKS ==> s.blocks@[i] == 0) && forall|i: int|
                0 <= i < SECTION_LIGHT_BYTES ==> s.block_light@[i] == 0 && s.sky_light@[i] == 0),
    {
        if self.sections[section].is_none() {
            self.sections.set(section, Some(ChunkSection::new()));
        }
    }

    /// Puts `block` at height `y`, row `z` and column `x` of the column.
    pub fn set_block(&mut self, block: Block, y: u8, z: u8, x: u8)
        requires
            old(self).wf(),
            z < 16,
            x < 16,
        ensures
            final(self).wf(),
            final(self).pos() == old(self).pos(),
            forall|i: int|
                0 <= i < SECTIONS_PER_COLUMN && i != (y / 16) as int ==> final(self).sections@[i] == old(self).sections@[i],
            final(self).sections@[(y / 16) as int] matches Some(s) && {
                let o = old(self).sections@[(y / 16) as int];
                &&& s.blocks@ == blocks_of(o).update(
                    block_index((y % 16) as int, z as int, x as int),
                    encoded(block.material.id, block.metadata),
                )
                &&& s.block_light@ == block_light_of(o)
                &&& s.sky_light@ == sky_light_of(o)
            },
    {
        let index = (y / 16) as usize;
        self.allocate_section(index);
        let mut section = self.sections[index].take().unwrap();
        let at = (y % 16) as usize * 256 + z as usize * 16 + x as usize;
        let ghost old_section = section;
        section.blocks.set(at, block.get_encoded());
        proof {
            let o = old(self).sections@[index as int];
            if o is None {
                assert(old_section.blocks@ =~= blocks_of(o));
                assert(section.block_light@ =~= block_light_of(o));
                assert(section.sky_light@ =~= sky_light_of(o));
            }
        }
        self.sections.set(index, Some(section));
    }

    /// The block at height `y`, row `z` and column `x`; air where its
    /// section does not exist.
    pub fn get_block(&self, y: u8, z: u8, x: u8) -> (r: Block)
        requires
            self.wf(),
            z < 16,
            x < 16,
        ensures
            match self.sections@[(y / 16) as int] {
                None => r.material.id == 0 && r.metadata == 0,
                Some(s) => r.material.id == s.blocks@[block_index((y % 16) as int, z as int, x as int)]
                    / 16 && r.metadata == s.blocks@[block_index((y % 16) as int, z as int, x as int)] % 16,
            },
    {
        let index = (y / 16) as usize;
        match &self.sections[index] {
            None => Block::new(),
            Some(section) => {
                let at = (y % 16) as usize * 256 + z as usize * 16 + x as usize;
                Block::from_encoded(section.blocks[at])
            },
        }
    }

    /// The section mask and the number of sections that exist.
    pub fn bitmask(&self) -> (r: (u16, usize))
        requires
            self.wf(),
        ensures
            r.0 == mask_of(self.sections@),
            r.1 == count_of(self.sections@),
    {
        let mut mask: u32 = 0;
        let mut count: usize = 0;
        let mut bit: u32 = 1;
        let mut i: usize = 0;
        proof {
            vstd::arithmetic::power2::lemma2_to64();
            assert(self.sections@.take(0) =~= Seq::<Option<ChunkSection>>::empty());
        }
        while i < SECTIONS_PER_COLUMN
            invariant
                self.sections@.len() == SECTIONS_PER_COLUMN,
                i <= SECTIONS_PER_COLUMN,
                bit as nat == vstd::arithmetic::power2::pow2(i as nat),
                mask as nat == mask_of(self.sections@.take(i as int)),
                count as nat == count_of(self.sections@.take(i as int)),
                mask < bit,
                count <= i,
            decreases SECTIONS_PER_COLUMN - i,
        {
            proof {
                assert(self.sections@.take(i + 1).drop_last() =~= self.sections@.take(i as int));
                vstd::arithmetic::power2::lemma_pow2_unfold((i + 1) as nat);
                vstd::arithmetic::power2::lemma_pow2_strictly_increases(i as nat, 16);
                vstd::arithmetic::power2::lemma2_to64();
            }
            if self.sections[i].is_some() {
                mask = mask + bit;
                count = count + 1;
            }
            bit = bit * 2;
            i = i + 1;
        }
        proof {
            assert(self.sections@.take(16) =~= self.sections@);
            vstd::arithmetic::power2::lemma2_to64();
        }
        (mask as u16, count)
    }

    pub fn get_chunk_pos(&self) -> (r: &ChunkPos)
        ensures
            *r == self.pos(),
    {
        &self.chunk_pos
    }
}

/// The light half byte of `b` for an odd or even x.
pub open spec fn nibble(b: u8, odd: bool) -> u8 {
    if odd {
        b >> 4u8
    } else {
        b & 0x0F
    }
}

/// `b` with the half byte for an odd or even x replaced by `power`.
pub open spec fn with_nibble(b: u8, odd: bool, power: u8) -> u8 {
    if odd {
        (b & 0x0F) | ((power << 4u8) as u8)
    } else {
        (b & 0xF0) | power
    }
}

/// Where the light of the block at `(y, z, x)` of a section is kept.
pub open spec fn light_index(y: int, z: int, x: int) -> int {
    y * 128 + z * 8 + x / 2
}

/// The blocks of a section, air where it does not exist yet.
pub open spec fn blocks_of(o: Option<ChunkSection>) -> Seq<u16> {
    match o {
        Some(s) => s.blocks@,
        None => Seq::new(SECTION_BLOCKS as nat, |i: int| 0u16),
    }
}

/// The block light bytes of a section, dark where it does not exist yet.
pub open spec fn block_light_of(o: Option<ChunkSection>) -> Seq<u8> {
    match o {
        Some(s) => s.block_light@,
        None => Seq::new(SECTION_LIGHT_BYTES as nat, |i: int| 0u8),
    }
}

/// The sky light bytes of a section, dark where it does not exist yet.
pub open spec fn sky_light_of(o: Option<ChunkSection>) -> Seq<u8> {
    match o {
        Some(s) => s.sky_light@,
        None => Seq::new(SECTION_LIGHT_BYTES as nat, |i: int| 0u8),
    }
}

/// When a light level may be written over the one stored.
#[derive(Debug, Clone, Copy, PartialEq, Eq, Structural)]
pub enum LightRule {
    Always,
    AtLeast,
    Above,
}

pub open spec fn admits(rule: LightRule, power: u8, current: u8) -> bool {
    match rule {
        LightRule::Always => true,
        LightRule::AtLeast => power >= current,
        LightRule::Above => power > current,
    }
}

/// A level below 16 is what the half byte then holds, and the other half
/// byte stays.
pub proof fn lemma_with_nibble(b: u8, odd: bool, power: u8)
    requires
        power < 16,
    ensures
        nibble(with_nibble(b, odd, power), odd) == power,
        nibble(with_nibble(b, odd, power), !odd) == nibble(b, !odd),
{
    assert(((b & 0x0F) | ((power << 4u8) as u8)) >> 4u8 == power) by (bit_vector)
        requires
            power < 16,
    ;
    assert(((b & 0x0F) | ((power << 4u8) as u8)) & 0x0F == b & 0x0F) by (bit_vector);
    assert(((b & 0xF0) | power) & 0x0F == power) by (bit_vector)
        requires
            power < 16,
    ;
    assert(((b & 0xF0) | power) >> 4u8 == b >> 4u8) by (bit_vector)
        requires
            power < 16,
    ;
}

impl ChunkColumn {
    /// Sets the block light half byte of `(y, z, x)` in section `section`,
    /// making the section first if need be, where `rule` admits `power`
    /// over the level stored. Whether it was set.
    pub fn set_light_at(
        &mut self,
        section: usize,
        y: usize,
        z: usize,
        x: usize,
        power: u8,
        rule: LightRule,
    ) -> (r: bool)
        requires
            old(self).wf(),
            section < SECTIONS_PER_COLUMN,
            y < 16,
            z < 16,
            x < 16,
        ensures
            final(self).wf(),
            final(self).pos() == old(self).pos(),
            forall|i: int|
                0 <= i < SECTIONS_PER_COLUMN && i != section ==> final(self).sections@[i] == old(self).sections@[i],
            final(self).sections@[section as int] matches Some(s) && {
                let o = old(self).sections@[section as int];
                let at = light_index(y as int, z as int, x as int);
                let before = block_light_of(o)[at];
                let odd = x % 2 == 1;
                &&& r == admits(rule, power, nibble(before, odd))
                &&& s.block_light@ == block_light_of(o).update(
                    at,
                    if r {
                        with_nibble(before, odd, power)
                    } else {
                        before
                    },
                )
                &&& s.blocks@ == blocks_of(o)
                &&& s.sky_light@ == sky_light_of(o)
            },
    {
        self.allocate_section(section);
        let mut s = self.sections[section].take().unwrap();
        let index = y * 128 + z * 8 + x / 2;
        let ghost old_light = s.block_light@;
        let before = s.block_light[index];
        let odd = x % 2 == 1;
        let current = if odd {
            before >> 4u8
        } else {
            before & 0x0F
        };
        let r = match rule {
            LightRule::Always => true,
            LightRule::AtLeast => power >= current,
            LightRule::Above => power > current,
        };
        if r {
            let value = if odd {
                (before & 0x0F) | (#[verifier::truncate] ((power << 4u8) as u8))
            } else {
                (before & 0xF0) | power
            };
            s.block_light.set(index, value);
        }
        proof {
            let o = old(self).sections@[section as int];
            if o is None {
                assert(s.blocks@ =~= blocks_of(o));
                assert(s.sky_light@ =~= sky_light_of(o));
                assert(old_light =~= block_light_of(o));
            }
        }
        self.sections.set(section, Some(s));
        r
    }
}

/// Block ids as two little-endian bytes each, in order.
pub open spec fn u16s_le(b: Seq<u16>) -> Seq<u8>
    decreases b.len(),
{
    if b.len() == 0 {
        Seq::empty()
    } else {
        u16s_le(b.drop_last()) + le_bytes(b.last() as nat, 2)
    }
}

/// The block ids of the existing sections, bottom up.
pub open spec fn blocks_part(s: Seq<Option<ChunkSection>>) -> Seq<u8>
    decreases s.len(),
{
    if s.len() == 0 {
        Seq::empty()
    } else {
        blocks_part(s.drop_last()) + match s.last() {
            Some(sec) => u16s_le(sec.blocks@),
            None => Seq::empty(),
        }
    }
}

/// The block light bytes of the existing sections, bottom up.
pub open spec fn light_part(s: Seq<Option<ChunkSection>>) -> Seq<u8>
    decreases s.len(),
{
    if s.len() == 0 {
        Seq::empty()
    } else {
        light_part(s.drop_last()) + match s.last() {
            Some(sec) => sec.block_light@,
            None => Seq::empty(),
        }
    }
}

/// The sky light bytes of the existing sections, bottom up.
pub open spec fn sky_part(s: Seq<Option<ChunkSection>>) -> Seq<u8>
    decreases s.len(),
{
    if s.len() == 0 {
        Seq::empty()
    } else {
        sky_part(s.drop_last()) + match s.last() {
            Some(sec) => sec.sky_light@,
            None => Seq::empty(),
        }
    }
}

/// Bytes of biome data after a column's sections.
pub const CHUNK_BIOME_SIZE: usize = 256;

/// A column in the layout of chunk data: every block id, then every block
/// light byte, then every sky light byte of the existing sections, then the
/// biome bytes (all zero).
pub open spec fn column_bytes(s: Seq<Option<ChunkSection>>) -> Seq<u8> {
    blocks_part(s) + light_part(s) + sky_part(s) + Seq::new(CHUNK_BIOME_SIZE as nat, |i: int| 0u8)
}

/// One column's chunk data message.
pub struct ChunkData {
    pub x: i32,
    pub z: i32,
    pub ground_up_continuous: bool,
    pub bitmask: u16,
    pub data: Vec<u8>,
}

fn append_u16s_le(out: &mut Vec<u8>, b: &Vec<u16>)
    ensures
        final(out)@ == old(out)@ + u16s_le(b@),
{
    let mut i: usize = 0;
    assert(b@.take(0) =~= Seq::<u16>::empty());
    while i < b.len()
        invariant
            i <= b@.len(),
            out@ == old(out)@ + u16s_le(b@.take(i as int)),
        decreases b@.len() - i,
    {
        let v = b[i];
        assert(b@.take(i + 1).drop_last() =~= b@.take(i as int));
        out.push((v % 256) as u8);
        out.push(((v / 256) % 256) as u8);
        i = i + 1;
        assert(le_bytes(v as nat, 2) =~= seq![(v % 256) as u8, ((v / 256) % 256) as u8]) by {
            assert(le_bytes((v / 256) as nat, 1) =~= seq![((v / 256) % 256) as u8] + le_bytes(
                ((v / 256) / 256) as nat,
                0,
            ));
        }
        assert(out@ =~= old(out)@ + u16s_le(b@.take(i as int)));
    }
    assert(b@.take(i as int) =~= b@);
}

fn append_bytes(out: &mut Vec<u8>, b: &Vec<u8>)
    ensures
        final(out)@ == old(out)@ + b@,
{
    let mut i: usize = 0;
    while i < b.len()
        invariant
            i <= b@.len(),
            out@ == old(out)@ + b@.take(i as int),
        decreases b@.len() - i,
    {
        out.push(b[i]);
        i = i + 1;
        assert(out@ =~= old(out)@ + b@.take(i as int));
    }
    assert(b@.take(i as int) =~= b@);
}

impl ChunkColumn {
    /// Appends the column in the layout of chunk data.
    pub fn write(&self, data: &mut Vec<u8>)
        requires
            self.wf(),
        ensures
            final(data)@ == old(data)@ + column_bytes(self.sections@),
    {
        let n = self.sections.len();
        let ghost s = self.sections@;
        let mut i: usize = 0;
        assert(s.take(0) =~= Seq::<Option<ChunkSection>>::empty());
        while i < n
            invariant
                n == s.len(),
                s == self.sections@,
                i <= n,
                data@ == old(data)@ + blocks_part(s.take(i as int)),
            decreases n - i,
        {
            assert(s.take(i + 1).drop_last() =~= s.take(i as int));
            match &self.sections[i] {
                Some(sec) => append_u16s_le(data, &sec.blocks),
                None => {},
            }
            i = i + 1;
            assert(data@ =~= old(data)@ + blocks_part(s.take(i as int)));
        }
        let ghost after_blocks = data@;
        i = 0;
        while i < n
            invariant
                n == s.len(),
                s == self.sections@,
                i <= n,
                data@ == after_blocks + light_part(s.take(i as int)),
            decreases n - i,
        {
            assert(s.take(i + 1).drop_last() =~= s.take(i as int));
            match &self.sections[i] {
                Some(sec) => append_bytes(data, &sec.block_light),
                None => {},
            }
            i = i + 1;
            assert(data@ =~= after_blocks + light_part(s.take(i as int)));
        }
        let ghost after_light = data@;
        i = 0;
        while i < n
            invariant
                n == s.len(),
                s == self.sections@,
                i <= n,
                data@ == after_light + sky_part(s.take(i as int)),
            decreases n - i,
        {
            assert(s.take(i + 1).drop_last() =~= s.take(i as int));
            match &self.sections[i] {
                Some(sec) => append_bytes(data, &sec.sky_light),
                None => {},
            }
            i = i + 1;
            assert(data@ =~= after_light + sky_part(s.take(i as int)));
        }
        let biomes = vec![0u8; CHUNK_BIOME_SIZE];
        append_bytes(data, &biomes);
        assert(s.take(n as int) =~= s);
        assert(biomes@ =~= Seq::new(CHUNK_BIOME_SIZE as nat, |i: int| 0u8));
        assert(data@ =~= old(data)@ + column_bytes(s));
    }

    /// The column's chunk data message: its position, full-column, its
    /// section mask, and its data.
    pub fn write_chunk_data(&self) -> (r: ChunkData)
        requires
            self.wf(),
        ensures
            r.x == self.pos().x,
            r.z == self.pos().z,
            r.ground_up_continuous,
            r.bitmask == mask_of(self.sections@),
            r.data@ == column_bytes(self.sections@),
    {
        let bitmask = self.bitmask();
        let mut data: Vec<u8> = Vec::new();
        self.write(&mut data);
        ChunkData {
            x: self.chunk_pos.x,
            z: self.chunk_pos.z,
            ground_up_continuous: true,
            bitmask: bitmask.0,
            data,
        }
    }
}

} // verus!
