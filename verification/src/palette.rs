//! The blocks of a chunk, stored by a palette.

use crate::block::{BlockColor, BlockEntry, BlockKey};
use crate::rotation::BlockRotation;
use palettevec::index_buffer::AlignedIndexBuffer;
use palettevec::palette::HybridPalette;
use palettevec::PaletteVec;
use vstd::prelude::*;

verus! {

/// A palette vector of `palettevec` that holds numbers.
#[verifier::external_body]
pub struct PackedValues {
    values: PaletteVec<u64, HybridPalette<16, u64>, AlignedIndexBuffer>,
}

/// The values of a palette vector, in order.
pub uninterp spec fn palette_values(values: PackedValues) -> Seq<u64>;

/// `count` times `value`.
pub open spec fn repeated(value: u64, count: nat) -> Seq<u64> {
    Seq::new(count, |i: int| value)
}

/// A palette vector that holds `value` `len` times.
///
/// `PaletteVec::filled`: one palette entry that every place refers to. The entry counts its places
/// in 32 bits.
#[verifier::external_body]
fn palette_filled(value: u64, len: usize) -> (r: PackedValues)
    requires
        0 < len <= u32::MAX,
    ensures
        palette_values(r) == repeated(value, len as nat),
{
    PackedValues { values: PaletteVec::filled(value, len) }
}

/// The value at a place.
///
/// `PaletteVec::get`: the value that was last put there, `None` past the end.
#[verifier::external_body]
fn palette_get(
    values: &PackedValues,
    offset: usize,
) -> (r: Option<u64>)
    ensures
        r == if offset < palette_values(*values).len() {
            Some(palette_values(*values)[offset as int])
        } else {
            None
        },
{
    values.values.get(offset).copied()
}

/// Replaces the value at a place.
///
/// `PaletteVec::set`: the other places keep their values.
#[verifier::external_body]
fn palette_set(
    values: &mut PackedValues,
    offset: usize,
    value: u64,
)
    requires
        offset < palette_values(*old(values)).len(),
    ensures
        palette_values(*final(values)) == palette_values(*old(values)).update(offset as int, value),
    no_unwind
{
    values.values.set(offset, &value);
}

/// How many different values a palette vector holds.
///
/// `PaletteVec::unique_values`: the palette has one entry for each value that occurs.
#[verifier::external_body]
fn palette_unique_values(
    values: &PackedValues,
) -> (r: usize)
    ensures
        r == palette_values(*values).to_set().len(),
{
    values.values.unique_values()
}

impl BlockEntry {
    /// The number that stands for the entry in a palette.
    pub open spec fn packed(self) -> int {
        self.block.index() * 2097152 + self.color.0 * 32 + self.rotation.number()
    }

    fn pack(self) -> (r: u64)
        ensures
            r == self.packed(),
    {
        proof {
            lemma_index_fits(self.block);
        }
        self.block.numeric_id() as u64 * 2097152 + self.color.0 as u64 * 32
            + self.rotation.to_index() as u64
    }

    fn unpack(packed: u64) -> (r: BlockEntry)
        requires
            is_packed(packed),
        ensures
            r == unpacked(packed),
    {
        let ghost entry = unpacked(packed);
        proof {
            lemma_index_fits(entry.block);
            assert(packed / 2097152 == entry.block.index());
            assert((packed / 32) % 65536 == entry.color.0);
            assert(packed % 32 == entry.rotation.number());
        }
        let r = BlockEntry {
            block: BlockKey::from_index((packed / 2097152) as u32),
            color: BlockColor(((packed / 32) % 65536) as u16),
            rotation: BlockRotation::from_index((packed % 32) as u8),
        };
        proof {
            law_packed_unique(r, entry);
        }
        r
    }
}

proof fn lemma_index_fits(key: BlockKey)
    ensures
        0 <= key.index() < 0x1_0000_0000,
{
    key.lemma_index_fits();
}

/// Whether a number stands for a block entry.
pub open spec fn is_packed(packed: u64) -> bool {
    exists|entry: BlockEntry| entry.packed() == packed
}

/// The block entry that a number stands for.
pub open spec fn unpacked(packed: u64) -> BlockEntry {
    choose|entry: BlockEntry| entry.packed() == packed
}

/// No number stands for two block entries.
pub proof fn law_packed_unique(a: BlockEntry, b: BlockEntry)
    requires
        a.packed() == b.packed(),
    ensures
        a == b,
{
    lemma_index_fits(a.block);
    lemma_index_fits(b.block);
    assert(a.rotation.number() == b.rotation.number());
    crate::rotation::lemma_number_unique(a.rotation, b.rotation);
    crate::registry::law_key_index(a.block, b.block);
}

/// A list of blocks with few different entries, as a chunk holds it.
pub struct BlockPalette {
    values: PackedValues,
}

impl View for BlockPalette {
    type V = Seq<BlockEntry>;

    closed spec fn view(&self) -> Seq<BlockEntry> {
        Seq::new(palette_values(self.values).len(), |i: int| unpacked(palette_values(self.values)[i]))
    }
}

impl BlockPalette {
    /// Whether every value stands for a block.
    #[verifier::type_invariant]
    spec fn wf(self) -> bool {
        forall|i: int|
            0 <= i < palette_values(self.values).len() ==> is_packed(
                #[trigger] palette_values(self.values)[i],
            )
    }

    /// `len` times the same block.
    pub fn filled(entry: BlockEntry, len: usize) -> (r: BlockPalette)
        requires
            0 < len <= u32::MAX,
        ensures
            r@ == Seq::new(len as nat, |i: int| entry),
    {
        let packed = entry.pack();
        let r = BlockPalette { values: palette_filled(packed, len) };
        proof {
            law_packed_unique(unpacked(packed), entry);
        }
        r
    }

    /// The block at a place, `None` past the end.
    pub fn get(&self, offset: usize) -> (r: Option<BlockEntry>)
        ensures
            r == if offset < self@.len() {
                Some(self@[offset as int])
            } else {
                None
            },
    {
        proof {
            use_type_invariant(self);
        }
        match palette_get(&self.values, offset) {
            Some(packed) => Some(BlockEntry::unpack(packed)),
            None => None,
        }
    }

    /// Replaces the block at a place.
    pub fn set(&mut self, offset: usize, entry: &BlockEntry)
        requires
            offset < old(self)@.len(),
        ensures
            final(self)@ == old(self)@.update(offset as int, *entry),
    {
        proof {
            use_type_invariant(&*self);
        }
        let packed = entry.pack();
        let ghost before = palette_values(self.values);
        proof {
            law_packed_unique(unpacked(packed), *entry);
        }
        palette_set(&mut self.values, offset, packed);
        assert(self@ =~= old(self)@.update(offset as int, *entry));
    }

    /// How many different blocks there are.
    pub fn unique_values(&self) -> (r: usize)
        ensures
            r == self@.to_set().len(),
    {
        proof {
            use_type_invariant(self);
            let values = palette_values(self.values);
            let unpack = |packed: u64| unpacked(packed);
            assert(self@ =~= values.map_values(unpack));
            assert(values.to_set().map(unpack) =~= self@.to_set()) by {
                assert forall|entry: BlockEntry| self@.to_set().contains(entry) implies values.to_set().map(
                    unpack,
                ).contains(entry) by {
                    let i = choose|i: int| 0 <= i < self@.len() && self@[i] == entry;
                    assert(values.to_set().contains(values[i]));
                    assert(unpack(values[i]) == entry);
                }
                assert forall|entry: BlockEntry| values.to_set().map(unpack).contains(
                    entry,
                ) implies self@.to_set().contains(entry) by {
                    let packed = choose|packed: u64| values.to_set().contains(packed) && unpack(packed) == entry;
                    let i = choose|i: int| 0 <= i < values.len() && values[i] == packed;
                    assert(self@[i] == entry);
                }
            }
            vstd::set_lib::lemma_map_size(values.to_set(), self@.to_set(), unpack);
        }
        palette_unique_values(&self.values)
    }
}

}
