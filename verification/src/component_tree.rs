//! A sparse map from the blocks of a chunk to small numbers.
//!
//! A block's place is cut into three parts, from the coarsest to the finest, and each part picks a
//! branch of a tree of depth three. Inner blocks that fall out of use are used again.

use crate::coord::ChunkOffset;
use vstd::prelude::*;

verus! {

/// The key that a block has in the tree: its place without the unused top bit.
pub open spec fn block_key(block: ChunkOffset) -> int {
    block.0 as int % 32768
}

/// The coarsest part of a key: the top bit of each coordinate.
pub open spec fn first_part(key: int) -> int {
    key / 16 % 2 + 2 * (key / 512 % 2) + 4 * (key / 16384 % 2)
}

/// The middle part of a key: the next two bits of each coordinate.
pub open spec fn second_part(key: int) -> int {
    key / 4 % 4 + 4 * (key / 128 % 4) + 16 * (key / 4096 % 4)
}

/// The finest part of a key: the lowest two bits of each coordinate.
pub open spec fn third_part(key: int) -> int {
    key % 4 + 4 * (key / 32 % 4) + 16 * (key / 1024 % 4)
}

/// The key that three parts belong to.
spec fn joined(first: int, second: int, third: int) -> int {
    third % 4 + 4 * (second % 4) + 16 * (first % 2) + 32 * (third / 4 % 4) + 128 * (second / 4 % 4)
        + 512 * (first / 2 % 2) + 1024 * (third / 16 % 4) + 4096 * (second / 16 % 4) + 16384 * (
    first / 4 % 2)
}

/// Two keys with the same parts are the same key.
pub proof fn law_parts_fix_key(a: int, b: int)
    requires
        0 <= a < 32768,
        0 <= b < 32768,
        first_part(a) == first_part(b),
        second_part(a) == second_part(b),
        third_part(a) == third_part(b),
    ensures
        a == b,
{
    lemma_joined(a);
    lemma_joined(b);
}

proof fn lemma_joined(key: int)
    requires
        0 <= key < 32768,
    ensures
        joined(first_part(key), second_part(key), third_part(key)) == key,
        0 <= first_part(key) < 8,
        0 <= second_part(key) < 64,
        0 <= third_part(key) < 64,
{
    let k = key as u16;
    let f = first_part(key) as u16;
    let s = second_part(key) as u16;
    let t = third_part(key) as u16;
    assert(f == k / 16 % 2 + 2 * (k / 512 % 2) + 4 * (k / 16384 % 2));
    assert(s == k / 4 % 4 + 4 * (k / 128 % 4) + 16 * (k / 4096 % 4));
    assert(t == k % 4 + 4 * (k / 32 % 4) + 16 * (k / 1024 % 4));
    assert(k == t % 4 + 4 * (s % 4) + 16 * (f % 2) + 32 * (t / 4 % 4) + 128 * (s / 4 % 4) + 512 * (f
        / 2 % 2) + 1024 * (t / 16 % 4) + 4096 * (s / 16 % 4) + 16384 * (f / 4 % 2)) by (bit_vector)
        requires
            k < 32768,
            f == k / 16 % 2 + 2 * (k / 512 % 2) + 4 * (k / 16384 % 2),
            s == k / 4 % 4 + 4 * (k / 128 % 4) + 16 * (k / 4096 % 4),
            t == k % 4 + 4 * (k / 32 % 4) + 16 * (k / 1024 % 4),
    ;
}

#[derive(Clone, Copy)]
struct BlockComponentTreeBlock {
    children: [Option<u16>; 64],
    use_count: u16,
}

/// What a block of the tree is used for.
enum Use {
    Free,
    /// The branch of a coarsest part.
    First(int),
    /// The branch of a coarsest and a middle part.
    Second(int, int),
}

/// How many entries are filled.
spec fn filled(children: Seq<Option<u16>>) -> nat
    decreases children.len(),
{
    if children.len() == 0 {
        0
    } else {
        filled(children.drop_last()) + if children.last() is Some {
            1nat
        } else {
            0
        }
    }
}

proof fn lemma_filled_update(children: Seq<Option<u16>>, i: int, v: Option<u16>)
    requires
        0 <= i < children.len(),
    ensures
        filled(children.update(i, v)) == filled(children) - (if children[i] is Some {
            1int
        } else {
            0
        }) + (if v is Some {
            1int
        } else {
            0
        }),
    decreases children.len(),
{
    let n = children.len() - 1;
    if i == n {
        assert(children.update(i, v).drop_last() =~= children.drop_last());
    } else {
        lemma_filled_update(children.drop_last(), i, v);
        assert(children.update(i, v).drop_last() =~= children.drop_last().update(i, v));
    }
}

proof fn lemma_filled_bound(children: Seq<Option<u16>>)
    ensures
        filled(children) <= children.len(),
        forall|i: int|
            0 <= i < children.len() && #[trigger] children[i] is Some ==> filled(children) > 0,
        filled(children) == 0 ==> forall|i: int|
            0 <= i < children.len() ==> #[trigger] children[i] is None,
    decreases children.len(),
{
    if children.len() > 0 {
        lemma_filled_bound(children.drop_last());
        assert forall|i: int| 0 <= i < children.len() && #[trigger] children[i] is Some implies filled(
            children,
        ) > 0 by {
            if i < children.len() - 1 {
                assert(children.drop_last()[i] is Some);
            }
        }
    }
}

proof fn lemma_filled_none(children: Seq<Option<u16>>)
    requires
        forall|i: int| 0 <= i < children.len() ==> #[trigger] children[i] is None,
    ensures
        filled(children) == 0,
    decreases children.len(),
{
    if children.len() > 0 {
        assert forall|i: int| 0 <= i < children.drop_last().len() implies #[trigger]
        children.drop_last()[i] is None by {
            assert(children[i] is None);
        }
        lemma_filled_none(children.drop_last());
    }
}

/// A map from the blocks of a chunk to numbers below `u16::MAX`.
pub struct BlockComponentTree {
    roots: [Option<u16>; 8],
    blocks: Vec<BlockComponentTreeBlock>,
    uses: Ghost<Seq<Use>>,
}

impl BlockComponentTree {
    spec fn child(self, block: int, i: int) -> Option<u16> {
        self.blocks@[block].children@[i]
    }

    spec fn count(self, block: int) -> int {
        self.blocks@[block].use_count as int
    }

    /// Whether block `b` is used as `use_` says.
    spec fn block_wf(self, b: int) -> bool {
        match self.uses@[b] {
            Use::Free => {
                &&& self.count(b) == 0
                &&& filled(self.blocks@[b].children@) == 0
            },
            Use::First(f) => {
                &&& 0 <= f < 8
                &&& self.roots@[f] == Some(b as u16)
                &&& self.count(b) == filled(self.blocks@[b].children@)
                &&& self.count(b) > 0
                &&& forall|s: int|
                    0 <= s < 64 ==> match #[trigger] self.child(b, s) {
                        Some(c) => c < self.blocks@.len() && self.uses@[c as int]
                            == Use::Second(f, s),
                        None => true,
                    }
            },
            Use::Second(f, s) => {
                &&& 0 <= f < 8
                &&& 0 <= s < 64
                &&& self.roots@[f] is Some
                &&& self.roots@[f]->0 < self.blocks@.len()
                &&& self.child(self.roots@[f]->0 as int, s) == Some(b as u16)
                &&& self.count(b) >= filled(self.blocks@[b].children@)
                &&& self.count(b) > 0
                &&& forall|t: int|
                    0 <= t < 64 ==> match #[trigger] self.child(b, t) {
                        Some(v) => v < u16::MAX,
                        None => true,
                    }
            },
        }
    }

    /// Whether the blocks form a tree.
    pub closed spec fn wf(self) -> bool {
        &&& self.uses@.len() == self.blocks@.len() <= 255
        &&& forall|f: int|
            0 <= f < 8 ==> match #[trigger] self.roots@[f] {
                Some(b) => b < self.blocks@.len() && self.uses@[b as int] == Use::First(f),
                None => true,
            }
        &&& forall|b: int| 0 <= b < self.blocks@.len() ==> #[trigger] self.block_wf(b)
    }

    /// The number at the end of three branches.
    spec fn lookup(self, f: int, s: int, t: int) -> Option<u16> {
        match self.roots@[f] {
            None => None,
            Some(b) => match self.child(b as int, s) {
                None => None,
                Some(c) => self.child(c as int, t),
            },
        }
    }

    spec fn at(self, key: int) -> Option<u16> {
        self.lookup(first_part(key), second_part(key), third_part(key))
    }

    /// Whether the tree has room for one more entry at `block`: it holds at most 255 inner blocks,
    /// and an inner block counts at most `u16::MAX` writes.
    pub closed spec fn can_set(self, block: ChunkOffset) -> bool {
        let (f, s) = (first_part(block_key(block)), second_part(block_key(block)));
        match self.roots@[f] {
            None => self.room(2),
            Some(b) => match self.child(b as int, s) {
                None => self.room(1),
                Some(c) => self.count(c as int) < u16::MAX,
            },
        }
    }

    /// Whether `n` more inner blocks can be had, free ones or new ones.
    spec fn room(self, n: int) -> bool {
        free_blocks(self.blocks@) + (255 - self.blocks@.len()) >= n
    }

    /// How many inner blocks are in use.
    pub closed spec fn used_blocks(self) -> int {
        self.blocks@.len() - free_blocks(self.blocks@)
    }

    /// Whether there is a branch for a coarsest part.
    pub closed spec fn has_first(self, f: int) -> bool {
        0 <= f < 8 && self.roots@[f] is Some
    }

    /// Whether there is a branch for a coarsest and a middle part.
    pub closed spec fn has_second(self, f: int, s: int) -> bool {
        self.has_first(f) && 0 <= s < 64 && self.child(self.roots@[f]->0 as int, s) is Some
    }

    /// Whether no inner block counts more than `n` writes.
    pub closed spec fn writes_at_most(self, n: int) -> bool {
        forall|b: int| 0 <= b < self.blocks@.len() ==> #[trigger] self.count(b) <= n
    }

    /// Whether `n` more entries can be written, wherever they are.
    pub closed spec fn can_set_times(self, n: int) -> bool {
        &&& self.blocks@.len() + 2 * n <= 255
        &&& forall|b: int| 0 <= b < self.blocks@.len() ==> #[trigger] self.count(b) + n <= u16::MAX
    }
}

/// How many branches a write at `block` brings.
pub open spec fn new_branches(tree: BlockComponentTree, block: ChunkOffset) -> int {
    let (f, s) = (first_part(block_key(block)), second_part(block_key(block)));
    if !tree.has_first(f) {
        2
    } else if !tree.has_second(f, s) {
        1
    } else {
        0
    }
}

/// How many of the first `n` coarsest parts have a branch.
pub open spec fn first_count(tree: BlockComponentTree, n: int) -> int
    decreases n,
{
    if n <= 0 {
        0
    } else {
        first_count(tree, n - 1) + if tree.has_first(n - 1) {
            1int
        } else {
            0
        }
    }
}

/// Whether the tree uses no more room than it may after `n` calls of `set` and `remove`: each brings
/// one branch of a coarsest and a middle part at most, and is counted once at most.
pub open spec fn is_within(tree: BlockComponentTree, n: int) -> bool {
    &&& n >= 0
    &&& tree.used_blocks() - first_count(tree, 8) <= n
    &&& tree.writes_at_most(n + 64)
}

/// What is changed by a call.
pub enum TreeCall {
    Write(ChunkOffset, u16),
    Clear(ChunkOffset),
}

/// Whether `after` is `before` with `value` at `block`.
pub open spec fn is_set(
    before: BlockComponentTree,
    after: BlockComponentTree,
    block: ChunkOffset,
    value: u16,
) -> bool {
    let (f, s) = (first_part(block_key(block)), second_part(block_key(block)));
    &&& after.wf()
    &&& after@ == before@.insert(block_key(block), value)
    &&& after.used_blocks() == before.used_blocks() + new_branches(before, block)
    &&& forall|g: int| #[trigger] after.has_first(g) <==> before.has_first(g) || g == f
    &&& forall|g: int, s2: int| #[trigger]
        after.has_second(g, s2) <==> before.has_second(g, s2) || g == f && s2 == s
    &&& forall|n: int| n >= 64 && #[trigger]
        before.writes_at_most(n) ==> after.writes_at_most(n + 1)
}

/// How many branches two trees differ by, of those on the way to a block.
pub open spec fn branches_gone(
    before: BlockComponentTree,
    after: BlockComponentTree,
    block: ChunkOffset,
) -> int {
    let (f, s) = (first_part(block_key(block)), second_part(block_key(block)));
    (if before.has_first(f) && !after.has_first(f) {
        1int
    } else {
        0
    }) + (if before.has_second(f, s) && !after.has_second(f, s) {
        1int
    } else {
        0
    })
}

/// Whether `after` is `before` without the number at `block`. The branches to the block may be gone,
/// and their inner blocks are then free; a branch goes only with those below it.
pub open spec fn is_removed(
    before: BlockComponentTree,
    after: BlockComponentTree,
    block: ChunkOffset,
) -> bool {
    let (f, s) = (first_part(block_key(block)), second_part(block_key(block)));
    &&& after.wf()
    &&& after@ == before@.remove(block_key(block))
    &&& after.used_blocks() == before.used_blocks() - branches_gone(before, after, block)
    &&& forall|g: int| #[trigger]
        after.has_first(g) <==> before.has_first(g) && (g != f || after.has_first(f))
    &&& forall|g: int, s2: int| #[trigger]
        after.has_second(g, s2) <==> before.has_second(g, s2) && (g != f || s2 != s
            || after.has_second(f, s))
    &&& !after.has_first(f) && before.has_first(f) ==> before.has_second(f, s)
        && !after.has_second(f, s)
    &&& forall|n: int| #[trigger] before.writes_at_most(n) ==> after.writes_at_most(n)
}

/// Whether a call has brought a tree from one state to another.
pub open spec fn is_called(
    before: BlockComponentTree,
    after: BlockComponentTree,
    call: TreeCall,
) -> bool {
    match call {
        TreeCall::Write(block, value) => is_set(before, after, block, value),
        TreeCall::Clear(block) => is_removed(before, after, block),
    }
}

/// A write that brings new branches needs inner blocks for them; one that brings none needs no room
/// but for the count of writes.
pub proof fn law_room_is_for_branches(tree: BlockComponentTree, block: ChunkOffset, n: int)
    requires
        tree.wf(),
        tree.writes_at_most(n),
        n < u16::MAX,
    ensures
        tree.can_set(block) <==> new_branches(tree, block) == 0 || tree.used_blocks() + new_branches(
            tree,
            block,
        ) <= 255,
{
    lemma_joined(block_key(block));
    let (f, s) = (first_part(block_key(block)), second_part(block_key(block)));
    if tree.has_second(f, s) {
        let a = tree.roots@[f]->0 as int;
        assert(tree.block_wf(a));
        let b = tree.child(a, s)->0 as int;
        assert(tree.count(b) <= n);
    }
}

/// How many blocks are not in use.
spec fn free_blocks(blocks: Seq<BlockComponentTreeBlock>) -> nat
    decreases blocks.len(),
{
    if blocks.len() == 0 {
        0
    } else {
        free_blocks(blocks.drop_last()) + if blocks.last().use_count == 0 {
            1nat
        } else {
            0
        }
    }
}

impl View for BlockComponentTree {
    type V = Map<int, u16>;

    closed spec fn view(&self) -> Map<int, u16> {
        Map::new(|key: int| 0 <= key < 32768 && self.at(key) is Some, |key: int| self.at(key)->0)
    }
}

impl BlockComponentTree {
    /// The parts of a block's key.
    fn chunk_offset_indices(block: ChunkOffset) -> (r: (usize, usize, usize))
        ensures
            r.0 == first_part(block_key(block)),
            r.1 == second_part(block_key(block)),
            r.2 == third_part(block_key(block)),
            r.0 < 8,
            r.1 < 64,
            r.2 < 64,
    {
        let bits: u16 = block.0;
        let first: u16 = (((bits >> 14u16) & 1u16) << 2u16) | (((bits >> 9u16) & 1u16) << 1u16) | (
        (bits >> 4u16) & 1u16);
        let second: u16 = (((bits >> 12u16) & 3u16) << 4u16) | (((bits >> 7u16) & 3u16) << 2u16) | (
        (bits >> 2u16) & 3u16);
        let third: u16 = (((bits >> 10u16) & 3u16) << 4u16) | (((bits >> 5u16) & 3u16) << 2u16) | (
        bits & 3u16);
        proof {
            assert(first == ((bits % 32768) / 16) % 2 + 2 * (((bits % 32768) / 512) % 2) + 4 * (((
            bits % 32768) / 16384) % 2)) by (bit_vector)
                requires
                    first == (((bits >> 14u16) & 1u16) << 2u16) | (((bits >> 9u16) & 1u16) << 1u16)
                        | ((bits >> 4u16) & 1u16),
            ;
            assert(second == ((bits % 32768) / 4) % 4 + 4 * (((bits % 32768) / 128) % 4) + 16 * (((
            bits % 32768) / 4096) % 4)) by (bit_vector)
                requires
                    second == (((bits >> 12u16) & 3u16) << 4u16) | (((bits >> 7u16) & 3u16) << 2u16)
                        | ((bits >> 2u16) & 3u16),
            ;
            assert(third == (bits % 32768) % 4 + 4 * (((bits % 32768) / 32) % 4) + 16 * (((bits
                % 32768) / 1024) % 4)) by (bit_vector)
                requires
                    third == (((bits >> 10u16) & 3u16) << 4u16) | (((bits >> 5u16) & 3u16) << 2u16)
                        | (bits & 3u16),
            ;
            lemma_joined(block_key(block));
        }
        (first as usize, second as usize, third as usize)
    }

    /// The number of a block.
    pub fn get(&self, block: ChunkOffset) -> (r: Option<u16>)
        requires
            self.wf(),
        ensures
            r == if self@.contains_key(block_key(block)) {
                Some(self@[block_key(block)])
            } else {
                None
            },
            r matches Some(v) ==> v < u16::MAX,
    {
        let (first, second, third) = BlockComponentTree::chunk_offset_indices(block);
        let first_block: usize = match self.roots[first] {
            Some(b) => b as usize,
            None => {
                return None;
            },
        };
        assert(self.block_wf(first_block as int));
        assert(self.child(first_block as int, second as int)
            == self.blocks@[first_block as int].children@[second as int]);
        let second_block: usize = match self.blocks[first_block].children[second] {
            Some(b) => b as usize,
            None => {
                return None;
            },
        };
        assert(self.block_wf(second_block as int));
        assert(self.child(second_block as int, third as int)
            == self.blocks@[second_block as int].children@[third as int]);
        self.blocks[second_block].children[third]
    }
}

proof fn lemma_free_update(
    blocks: Seq<BlockComponentTreeBlock>,
    i: int,
    block: BlockComponentTreeBlock,
)
    requires
        0 <= i < blocks.len(),
    ensures
        free_blocks(blocks.update(i, block)) == free_blocks(blocks) - (if blocks[i].use_count == 0 {
            1int
        } else {
            0
        }) + (if block.use_count == 0 {
            1int
        } else {
            0
        }),
    decreases blocks.len(),
{
    let n = blocks.len() - 1;
    if i == n {
        assert(blocks.update(i, block).drop_last() =~= blocks.drop_last());
    } else {
        lemma_free_update(blocks.drop_last(), i, block);
        assert(blocks.update(i, block).drop_last() =~= blocks.drop_last().update(i, block));
    }
}

proof fn lemma_free_none(blocks: Seq<BlockComponentTreeBlock>)
    requires
        forall|i: int| 0 <= i < blocks.len() ==> (#[trigger] blocks[i]).use_count != 0,
    ensures
        free_blocks(blocks) == 0,
    decreases blocks.len(),
{
    if blocks.len() > 0 {
        assert forall|i: int| 0 <= i < blocks.drop_last().len() implies (
        #[trigger] blocks.drop_last()[i]).use_count != 0 by {
            assert(blocks[i].use_count != 0);
        }
        lemma_free_none(blocks.drop_last());
    }
}

impl BlockComponentTree {
    /// An inner block that is not in use: the first one, or a new one.
    fn allocate_block(&mut self) -> (r: u8)
        requires
            old(self).uses@.len() == old(self).blocks@.len() <= 255,
            old(self).room(1),
            forall|b: int|
                0 <= b < old(self).blocks@.len() && #[trigger] old(self).count(b) == 0 ==> filled(
                    old(self).blocks@[b].children@,
                ) == 0 && old(self).uses@[b] is Free,
        ensures
            final(self).roots == old(self).roots,
            final(self).uses@.len() == final(self).blocks@.len() <= 255,
            r < final(self).blocks@.len(),
            final(self).count(r as int) == 0,
            filled(final(self).blocks@[r as int].children@) == 0,
            final(self).uses@[r as int] is Free,
            old(self).blocks@.len() <= final(self).blocks@.len() <= old(self).blocks@.len() + 1,
            forall|b: int|
                0 <= b < old(self).blocks@.len() ==> #[trigger] final(self).blocks@[b] == old(
                    self,
                ).blocks@[b],
            forall|b: int|
                0 <= b < old(self).blocks@.len() ==> #[trigger] final(self).uses@[b] == old(
                    self,
                ).uses@[b],
            final(self).blocks@.len() > old(self).blocks@.len() ==> r == old(self).blocks@.len(),
            free_blocks(final(self).blocks@) - final(self).blocks@.len() == free_blocks(
                old(self).blocks@,
            ) - old(self).blocks@.len(),
    {
        let mut i: usize = 0;
        while i < self.blocks.len()
            invariant
                i <= self.blocks@.len(),
                *self == *old(self),
                self.blocks@.len() <= 255,
                self.uses@.len() == self.blocks@.len(),
                forall|b: int| 0 <= b < i ==> (#[trigger] self.blocks@[b]).use_count != 0,
                forall|b: int|
                    0 <= b < self.blocks@.len() && #[trigger] self.count(b) == 0 ==> filled(
                        self.blocks@[b].children@,
                    ) == 0 && self.uses@[b] is Free,
            decreases self.blocks@.len() - i,
        {
            if self.blocks[i].use_count == 0 {
                assert(self.count(i as int) == 0);
                return i as u8;
            }
            i += 1;
        }
        proof {
            lemma_free_none(self.blocks@);
        }
        let ghost before = self.blocks@;
        let children: [Option<u16>; 64] = [None;64];
        self.blocks.push(BlockComponentTreeBlock { children, use_count: 0 });
        proof {
            self.uses@ = self.uses@.push(Use::Free);
            lemma_filled_none(children@);
            assert(self.blocks@.drop_last() =~= before);
        }
        (self.blocks.len() - 1) as u8
    }
}

impl BlockComponentTree {
    proof fn lemma_room(self)
        requires
            self.wf(),
        ensures
            forall|b: int|
                0 <= b < self.blocks@.len() && #[trigger] self.count(b) == 0 ==> filled(
                    self.blocks@[b].children@,
                ) == 0 && self.uses@[b] is Free,
    {
        assert forall|b: int| 0 <= b < self.blocks@.len() && #[trigger] self.count(
            b,
        ) == 0 implies filled(self.blocks@[b].children@) == 0 && self.uses@[b] is Free by {
            assert(self.block_wf(b));
        }
    }

    /// What a write of `value` at the end of the branches `f`, `s` and `t` does to the inner blocks
    /// `a` and `b` on the way, whose entries were `oa` and `ob` before.
    spec fn written(
        start: BlockComponentTree,
        end: BlockComponentTree,
        a: int,
        b: int,
        oa: Seq<Option<u16>>,
        ob: Seq<Option<u16>>,
        f: int,
        s: int,
        t: int,
        value: u16,
    ) -> bool {
        let n = start.blocks@.len();
        &&& start.wf()
        &&& 0 <= f < 8 && 0 <= s < 64 && 0 <= t < 64
        &&& value < u16::MAX
        &&& n <= end.blocks@.len() <= 255
        &&& 0 <= a < end.blocks@.len() && 0 <= b < end.blocks@.len() && a != b
        &&& forall|i: int|
            #![trigger end.uses@[i]]
            n <= i < end.blocks@.len() ==> i == a || i == b
        &&& oa.len() == 64 && ob.len() == 64
        &&& match start.roots@[f] {
            Some(r) => a == r && oa == start.blocks@[a].children@,
            None => filled(oa) == 0 && (a < n ==> start.uses@[a] is Free),
        }
        &&& match oa[s] {
            Some(c) => b == c && ob == start.blocks@[b].children@,
            None => filled(ob) == 0 && (b < n ==> start.uses@[b] is Free),
        }
        &&& end.roots@ == start.roots@.update(f, Some(a as u16))
        &&& end.blocks@[a].children@ == oa.update(s, Some(b as u16))
        &&& end.count(a) == filled(oa) + if oa[s] is None {
            1int
        } else {
            0
        }
        &&& end.blocks@[b].children@ == ob.update(t, Some(value))
        &&& end.count(b) == if oa[s] is Some {
            start.count(b) + 1
        } else {
            1
        }
        &&& end.uses@.len() == end.blocks@.len()
        &&& end.uses@[a] == Use::First(f)
        &&& end.uses@[b] == Use::Second(f, s)
        &&& forall|i: int|
            0 <= i < n && i != a && i != b ==> #[trigger] end.blocks@[i] == start.blocks@[i]
        &&& forall|i: int|
            0 <= i < n && i != a && i != b ==> #[trigger] end.uses@[i] == start.uses@[i]
    }

    proof fn lemma_written_uses(
        start: BlockComponentTree,
        end: BlockComponentTree,
        a: int,
        b: int,
        oa: Seq<Option<u16>>,
        ob: Seq<Option<u16>>,
        f: int,
        s: int,
        t: int,
        value: u16,
    )
        requires
            BlockComponentTree::written(start, end, a, b, oa, ob, f, s, t, value),
        ensures
            a < start.blocks@.len() ==> start.uses@[a] == (if start.roots@[f] is Some {
                Use::First(f)
            } else {
                Use::Free
            }),
            b < start.blocks@.len() ==> start.uses@[b] == (if oa[s] is Some {
                Use::Second(f, s)
            } else {
                Use::Free
            }),
            start.roots@[f] is Some ==> a < start.blocks@.len(),
            oa[s] is Some ==> b < start.blocks@.len() && start.roots@[f] is Some,
    {
        lemma_filled_bound(oa);
        if start.roots@[f] is Some {
            assert(start.block_wf(a));
            assert(start.child(a, s) == oa[s]);
        }
    }

    #[verifier::rlimit(50)]
    proof fn lemma_written_wf(
        start: BlockComponentTree,
        end: BlockComponentTree,
        a: int,
        b: int,
        oa: Seq<Option<u16>>,
        ob: Seq<Option<u16>>,
        f: int,
        s: int,
        t: int,
        value: u16,
    )
        requires
            BlockComponentTree::written(start, end, a, b, oa, ob, f, s, t, value),
        ensures
            end.wf(),
    {
        let n = start.blocks@.len();
        lemma_filled_update(oa, s, Some(b as u16));
        lemma_filled_update(ob, t, Some(value));
        lemma_filled_bound(oa);
        lemma_filled_bound(ob);
        BlockComponentTree::lemma_written_uses(start, end, a, b, oa, ob, f, s, t, value);
        if a < n {
            assert(start.block_wf(a));
        }
        if b < n {
            assert(start.block_wf(b));
        }
        assert forall|g: int| 0 <= g < 8 implies match #[trigger] end.roots@[g] {
            Some(r) => r < end.blocks@.len() && end.uses@[r as int] == Use::First(g),
            None => true,
        } by {
            if g != f {
                assert(end.roots@[g] == start.roots@[g]);
            }
        }
        assert forall|i: int| 0 <= i < end.blocks@.len() implies #[trigger] end.block_wf(i) by {
            if i == a {
                assert forall|s2: int| 0 <= s2 < 64 implies match #[trigger] end.child(a, s2) {
                    Some(c) => c < end.blocks@.len() && end.uses@[c as int] == Use::Second(f, s2),
                    None => true,
                } by {
                    if s2 != s {
                        assert(end.child(a, s2) == oa[s2]);
                        if start.roots@[f] is Some {
                            assert(start.child(a, s2) == oa[s2]);
                        }
                    }
                }
            } else if i == b {
                assert(end.child(a, s) == Some(b as u16));
                assert forall|t2: int| 0 <= t2 < 64 implies match #[trigger] end.child(b, t2) {
                    Some(v) => v < u16::MAX,
                    None => true,
                } by {
                    if t2 != t {
                        assert(end.child(b, t2) == ob[t2]);
                        if oa[s] is Some {
                            assert(start.child(b, t2) == ob[t2]);
                        }
                    }
                }
            } else {
                assert(end.uses@[i] == start.uses@[i]);
                assert(start.block_wf(i));
                assert(end.blocks@[i] == start.blocks@[i]);
                match start.uses@[i] {
                    Use::Free => {},
                    Use::First(g) => {
                        assert(g != f);
                        assert(end.roots@[g] == start.roots@[g]);
                        assert forall|s2: int| 0 <= s2 < 64 implies match #[trigger] end.child(
                            i,
                            s2,
                        ) {
                            Some(c) => c < end.blocks@.len() && end.uses@[c as int] == Use::Second(
                                g,
                                s2,
                            ),
                            None => true,
                        } by {
                            assert(end.child(i, s2) == start.child(i, s2));
                        }
                    },
                    Use::Second(g, s2) => {
                        let p = start.roots@[g]->0 as int;
                        assert(start.block_wf(p));
                        assert(start.child(p, s2) == Some(i as u16));
                        if g == f {
                            assert(p == a);
                            assert(s2 != s);
                            assert(end.child(a, s2) == oa[s2]);
                        } else {
                            assert(end.roots@[g] == start.roots@[g]);
                            assert(end.child(p, s2) == start.child(p, s2));
                        }
                        assert forall|t2: int| 0 <= t2 < 64 implies match #[trigger] end.child(
                            i,
                            t2,
                        ) {
                            Some(v) => v < u16::MAX,
                            None => true,
                        } by {
                            assert(end.child(i, t2) == start.child(i, t2));
                        }
                    },
                }
            }
        }
    }

    #[verifier::rlimit(50)]
    proof fn lemma_written_lookup(
        start: BlockComponentTree,
        end: BlockComponentTree,
        a: int,
        b: int,
        oa: Seq<Option<u16>>,
        ob: Seq<Option<u16>>,
        f: int,
        s: int,
        t: int,
        value: u16,
        g: int,
        s2: int,
        t2: int,
    )
        requires
            BlockComponentTree::written(start, end, a, b, oa, ob, f, s, t, value),
            0 <= g < 8,
            0 <= s2 < 64,
            0 <= t2 < 64,
        ensures
            end.lookup(g, s2, t2) == if g == f && s2 == s && t2 == t {
                Some(value)
            } else {
                start.lookup(g, s2, t2)
            },
    {
        lemma_filled_bound(oa);
        lemma_filled_bound(ob);
        BlockComponentTree::lemma_written_uses(start, end, a, b, oa, ob, f, s, t, value);
        if g == f {
            assert(end.child(a, s2) == oa.update(s, Some(b as u16))[s2]);
            if s2 == s {
                assert(end.child(b, t2) == ob.update(t, Some(value))[t2]);
                if start.roots@[f] is Some {
                    assert(start.child(a, s) == oa[s]);
                    if oa[s] is Some {
                        assert(start.child(b, t2) == ob[t2]);
                    }
                }
            } else if start.roots@[f] is Some {
                assert(start.child(a, s2) == oa[s2]);
                assert(start.block_wf(a));
                if oa[s2] is Some {
                    let c = oa[s2]->0 as int;
                    assert(start.block_wf(c));
                    assert(c != a && c != b);
                    assert(end.child(c, t2) == start.child(c, t2));
                }
            }
        } else {
            assert(end.roots@[g] == start.roots@[g]);
            if start.roots@[g] is Some {
                let p = start.roots@[g]->0 as int;
                assert(start.block_wf(p));
                assert(p != a && p != b);
                assert(end.child(p, s2) == start.child(p, s2));
                if start.child(p, s2) is Some {
                    let c = start.child(p, s2)->0 as int;
                    assert(start.block_wf(c));
                    assert(c != a && c != b);
                    assert(end.child(c, t2) == start.child(c, t2));
                }
            }
        }
    }

    proof fn lemma_written_branches(
        start: BlockComponentTree,
        end: BlockComponentTree,
        a: int,
        b: int,
        oa: Seq<Option<u16>>,
        ob: Seq<Option<u16>>,
        f: int,
        s: int,
        t: int,
        value: u16,
    )
        requires
            BlockComponentTree::written(start, end, a, b, oa, ob, f, s, t, value),
        ensures
            forall|g: int| #[trigger] end.has_first(g) <==> start.has_first(g) || g == f,
            forall|g: int, s2: int| #[trigger]
                end.has_second(g, s2) <==> start.has_second(g, s2) || g == f && s2 == s,
            forall|n: int| n >= 64 && #[trigger]
                start.writes_at_most(n) ==> end.writes_at_most(n + 1),
    {
        let n = start.blocks@.len();
        lemma_filled_bound(oa);
        BlockComponentTree::lemma_written_wf(start, end, a, b, oa, ob, f, s, t, value);
        BlockComponentTree::lemma_written_uses(start, end, a, b, oa, ob, f, s, t, value);
        assert forall|g: int| #[trigger] end.has_first(g) <==> start.has_first(g) || g == f by {
            if 0 <= g < 8 && g != f {
                assert(end.roots@[g] == start.roots@[g]);
            }
        }
        assert forall|g: int, s2: int| #[trigger] end.has_second(g, s2) <==> start.has_second(g, s2)
            || g == f && s2 == s by {
            if 0 <= g < 8 && 0 <= s2 < 64 {
                if g == f {
                    assert(end.child(a, s2) == oa.update(s, Some(b as u16))[s2]);
                    if start.roots@[f] is Some {
                        assert(start.child(a, s2) == oa[s2]);
                    }
                } else {
                    assert(end.roots@[g] == start.roots@[g]);
                    if start.roots@[g] is Some {
                        let p = start.roots@[g]->0 as int;
                        assert(start.block_wf(p));
                        assert(p != a && p != b);
                        assert(end.child(p, s2) == start.child(p, s2));
                    }
                }
            }
        }
        assert forall|m: int| m >= 64 && #[trigger] start.writes_at_most(m) implies end.writes_at_most(
            m + 1,
        ) by {
            assert forall|i: int| 0 <= i < end.blocks@.len() implies #[trigger] end.count(i) <= m
                + 1 by {
                if i != a && i != b {
                    assert(end.block_wf(i));
                    assert(i < n);
                    assert(end.blocks@[i] == start.blocks@[i]);
                    assert(start.count(i) <= m);
                } else if i == b && oa[s] is Some {
                    assert(start.count(b) <= m);
                }
            }
        }
    }

    /// Gives a block a number.
    #[verifier::rlimit(50)]
    pub fn set(&mut self, block: ChunkOffset, value: u16)
        requires
            old(self).wf(),
            old(self).can_set(block),
            value < u16::MAX,
        ensures
            is_set(*old(self), *final(self), block, value),
            forall|n: int| #[trigger]
                old(self).can_set_times(n) ==> final(self).can_set_times(n - 1),
    {
        let (first, second, third) = BlockComponentTree::chunk_offset_indices(block);
        let ghost (f, s, t) = (first as int, second as int, third as int);
        let ghost start = *self;
        proof {
            self.lemma_room();
        }
        let first_block: usize = match self.roots[first] {
            Some(first_block) => first_block as usize,
            None => {
                let new_block: usize = self.allocate_block() as usize;
                self.roots[first] = Some(new_block as u16);
                new_block
            },
        };
        let ghost mid = *self;
        proof {
            if start.roots@[f] is Some {
                assert(start.block_wf(first_block as int));
            }
            lemma_filled_bound(mid.blocks@[first_block as int].children@);
        }
        assert(mid.child(first_block as int, s)
            == mid.blocks@[first_block as int].children@[s]);
        let second_block: usize = match self.blocks[first_block].children[second] {
            Some(second_block) => {
                proof {
                    assert(start.block_wf(second_block as int));
                }
                second_block as usize
            },
            None => {
                proof {
                    if start.roots@[f] is Some {
                        lemma_filled_update(mid.blocks@[first_block as int].children@, s, Some(0));
                        let grown = mid.blocks@[first_block as int].children@.update(s, Some(0u16));
                        lemma_filled_bound(grown);
                    }
                }
                self.blocks[first_block].use_count += 1;
                proof {
                    lemma_free_update(
                        mid.blocks@,
                        first_block as int,
                        self.blocks@[first_block as int],
                    );
                    assert(self.blocks@ =~= mid.blocks@.update(
                        first_block as int,
                        self.blocks@[first_block as int],
                    ));
                    assert forall|b: int|
                        0 <= b < self.blocks@.len() && #[trigger] self.count(b) == 0 implies filled(
                        self.blocks@[b].children@,
                    ) == 0 && self.uses@[b] is Free by {
                        if b < start.blocks@.len() {
                            assert(start.blocks@[b] == self.blocks@[b]);
                            assert(start.count(b) == 0);
                        }
                    }
                }
                let ghost counted = *self;
                let new_block: usize = self.allocate_block() as usize;
                let ghost allocated = *self;
                self.blocks[first_block].children[second] = Some(new_block as u16);
                proof {
                    lemma_free_update(
                        allocated.blocks@,
                        first_block as int,
                        self.blocks@[first_block as int],
                    );
                    assert(self.blocks@ =~= allocated.blocks@.update(
                        first_block as int,
                        self.blocks@[first_block as int],
                    ));
                    assert(allocated.blocks@[first_block as int] == counted.blocks@[first_block as int]);
                }
                new_block
            },
        };
        let ghost late = *self;
        self.blocks[second_block].use_count += 1;
        self.blocks[second_block].children[third] = Some(value);
        proof {
            self.uses@ = late.uses@.update(first_block as int, Use::First(f)).update(
                second_block as int,
                Use::Second(f, s),
            );
            let (a, b) = (first_block as int, second_block as int);
            let oa = mid.blocks@[a].children@;
            let ob = late.blocks@[b].children@;
            assert(self.roots@ =~= start.roots@.update(f, Some(a as u16)));
            assert(self.blocks@[a].children@ =~= oa.update(s, Some(b as u16)));
            assert(BlockComponentTree::written(start, *self, a, b, oa, ob, f, s, t, value));
            lemma_free_update(late.blocks@, b, self.blocks@[b]);
            assert(self.blocks@ =~= late.blocks@.update(b, self.blocks@[b]));
            assert(self.used_blocks() == start.used_blocks() + new_branches(start, block));
            BlockComponentTree::lemma_written_branches(
                start,
                *self,
                a,
                b,
                oa,
                ob,
                f,
                s,
                t,
                value,
            );
            BlockComponentTree::lemma_written_wf(start, *self, a, b, oa, ob, f, s, t, value);
            let key = block_key(block);
            assert forall|k: int| 0 <= k < 32768 implies #[trigger] self.at(k) == if k == key {
                Some(value)
            } else {
                start.at(k)
            } by {
                lemma_joined(k);
                if first_part(k) == f && second_part(k) == s && third_part(k) == t {
                    law_parts_fix_key(k, key);
                }
                BlockComponentTree::lemma_written_lookup(
                    start,
                    *self,
                    a,
                    b,
                    oa,
                    ob,
                    f,
                    s,
                    t,
                    value,
                    first_part(k),
                    second_part(k),
                    third_part(k),
                );
            }
            assert(self@ =~= start@.insert(key, value));
            assert forall|n: int| #[trigger] start.can_set_times(n) implies self.can_set_times(
                n - 1,
            ) by {
                assert forall|i: int| 0 <= i < self.blocks@.len() implies #[trigger] self.count(i)
                    + (n - 1) <= u16::MAX by {
                    lemma_filled_bound(oa);
                    if i < start.blocks@.len() {
                        assert(start.count(i) + n <= u16::MAX);
                    }
                }
            }
        }
    }
}

impl BlockComponentTree {
    /// What taking the number at the end of the branches `f`, `s` and `t` away does to the inner
    /// blocks `a` and `b` on the way.
    spec fn taken(
        start: BlockComponentTree,
        end: BlockComponentTree,
        a: int,
        b: int,
        f: int,
        s: int,
        t: int,
    ) -> bool {
        let n = start.blocks@.len();
        let b_freed = start.count(b) == 1;
        let a_freed = b_freed && start.count(a) == 1;
        &&& start.wf()
        &&& 0 <= f < 8 && 0 <= s < 64 && 0 <= t < 64
        &&& end.blocks@.len() == n
        &&& end.uses@.len() == n
        &&& start.roots@[f] == Some(a as u16) && 0 <= a < n
        &&& start.child(a, s) == Some(b as u16) && 0 <= b < n
        &&& start.child(b, t) is Some
        &&& end.roots@ == (if a_freed {
            start.roots@.update(f, None)
        } else {
            start.roots@
        })
        &&& end.blocks@[a].children@ == (if b_freed {
            start.blocks@[a].children@.update(s, None)
        } else {
            start.blocks@[a].children@
        })
        &&& end.count(a) == start.count(a) - if b_freed {
            1int
        } else {
            0
        }
        &&& end.blocks@[b].children@ == start.blocks@[b].children@.update(t, None)
        &&& end.count(b) == start.count(b) - 1
        &&& end.uses@ == start.uses@.update(
            a,
            if a_freed {
                Use::Free
            } else {
                Use::First(f)
            },
        ).update(
            b,
            if b_freed {
                Use::Free
            } else {
                Use::Second(f, s)
            },
        )
        &&& forall|i: int|
            0 <= i < n && i != a && i != b ==> #[trigger] end.blocks@[i] == start.blocks@[i]
    }

    #[verifier::rlimit(50)]
    proof fn lemma_taken_wf(
        start: BlockComponentTree,
        end: BlockComponentTree,
        a: int,
        b: int,
        f: int,
        s: int,
        t: int,
    )
        requires
            BlockComponentTree::taken(start, end, a, b, f, s, t),
        ensures
            end.wf(),
    {
        let n = start.blocks@.len();
        assert(start.block_wf(a));
        assert(start.block_wf(b));
        let b_freed = start.count(b) == 1;
        lemma_filled_update(start.blocks@[a].children@, s, None);
        lemma_filled_update(start.blocks@[b].children@, t, None);
        assert(start.blocks@[b].children@[t] is Some);
        assert(start.blocks@[a].children@[s] is Some);
        assert forall|g: int| 0 <= g < 8 implies match #[trigger] end.roots@[g] {
            Some(r) => r < end.blocks@.len() && end.uses@[r as int] == Use::First(g),
            None => true,
        } by {
            if g != f {
                assert(end.roots@[g] == start.roots@[g]);
            }
        }
        assert forall|i: int| 0 <= i < end.blocks@.len() implies #[trigger] end.block_wf(i) by {
            if i == a {
                assert forall|s2: int| 0 <= s2 < 64 implies match #[trigger] end.child(a, s2) {
                    Some(c) => c < end.blocks@.len() && end.uses@[c as int] == Use::Second(f, s2),
                    None => true,
                } by {
                    if s2 != s || !b_freed {
                        assert(end.child(a, s2) == start.child(a, s2));
                    }
                }
            } else if i == b {
                if !b_freed {
                    assert(end.child(a, s) == start.child(a, s));
                }
                assert forall|t2: int| 0 <= t2 < 64 implies match #[trigger] end.child(b, t2) {
                    Some(v) => v < u16::MAX,
                    None => true,
                } by {
                    if t2 != t {
                        assert(end.child(b, t2) == start.child(b, t2));
                    }
                }
            } else {
                assert(end.uses@[i] == start.uses@[i]);
                assert(start.block_wf(i));
                assert(end.blocks@[i] == start.blocks@[i]);
                match start.uses@[i] {
                    Use::Free => {},
                    Use::First(g) => {
                        assert(g != f);
                        assert(end.roots@[g] == start.roots@[g]);
                        assert forall|s2: int| 0 <= s2 < 64 implies match #[trigger] end.child(
                            i,
                            s2,
                        ) {
                            Some(c) => c < end.blocks@.len() && end.uses@[c as int] == Use::Second(
                                g,
                                s2,
                            ),
                            None => true,
                        } by {
                            assert(end.child(i, s2) == start.child(i, s2));
                        }
                    },
                    Use::Second(g, s2) => {
                        let p = start.roots@[g]->0 as int;
                        assert(start.block_wf(p));
                        assert(start.child(p, s2) == Some(i as u16));
                        if g == f {
                            assert(p == a);
                            assert(s2 != s);
                            assert(end.child(a, s2) == start.child(a, s2));
                            lemma_filled_bound(end.blocks@[a].children@);
                            assert(end.blocks@[a].children@[s2] is Some);
                            assert(end.count(a) > 0);
                        } else {
                            assert(p != a && p != b);
                            assert(end.roots@[g] == start.roots@[g]);
                            assert(end.child(p, s2) == start.child(p, s2));
                        }
                        assert forall|t2: int| 0 <= t2 < 64 implies match #[trigger] end.child(
                            i,
                            t2,
                        ) {
                            Some(v) => v < u16::MAX,
                            None => true,
                        } by {
                            assert(end.child(i, t2) == start.child(i, t2));
                        }
                    },
                }
            }
        }
    }

    #[verifier::rlimit(50)]
    proof fn lemma_taken_lookup(
        start: BlockComponentTree,
        end: BlockComponentTree,
        a: int,
        b: int,
        f: int,
        s: int,
        t: int,
        g: int,
        s2: int,
        t2: int,
    )
        requires
            BlockComponentTree::taken(start, end, a, b, f, s, t),
            0 <= g < 8,
            0 <= s2 < 64,
            0 <= t2 < 64,
        ensures
            end.lookup(g, s2, t2) == if g == f && s2 == s && t2 == t {
                None
            } else {
                start.lookup(g, s2, t2)
            },
    {
        assert(start.block_wf(a));
        assert(start.block_wf(b));
        let b_freed = start.count(b) == 1;
        lemma_filled_update(start.blocks@[a].children@, s, None);
        lemma_filled_update(start.blocks@[b].children@, t, None);
        assert(start.blocks@[b].children@[t] is Some);
        assert(start.blocks@[a].children@[s] is Some);
        lemma_filled_bound(end.blocks@[a].children@);
        lemma_filled_bound(end.blocks@[b].children@);
        if g == f {
            if s2 == s {
                if t2 != t {
                    assert(end.child(b, t2) == start.child(b, t2));
                    if b_freed {
                        assert(end.blocks@[b].children@[t2] is None);
                    } else {
                        assert(end.child(a, s) == start.child(a, s));
                    }
                } else {
                    assert(end.child(b, t) is None);
                }
            } else {
                assert(end.child(a, s2) == start.child(a, s2));
                if start.child(a, s2) is Some {
                    assert(end.blocks@[a].children@[s2] is Some);
                    let c = start.child(a, s2)->0 as int;
                    assert(start.block_wf(c));
                    assert(c != a && c != b);
                    assert(end.child(c, t2) == start.child(c, t2));
                }
            }
        } else {
            assert(end.roots@[g] == start.roots@[g]);
            if start.roots@[g] is Some {
                let p = start.roots@[g]->0 as int;
                assert(start.block_wf(p));
                assert(p != a && p != b);
                assert(end.child(p, s2) == start.child(p, s2));
                if start.child(p, s2) is Some {
                    let c = start.child(p, s2)->0 as int;
                    assert(start.block_wf(c));
                    assert(c != a && c != b);
                    assert(end.child(c, t2) == start.child(c, t2));
                }
            }
        }
    }

    proof fn lemma_taken_branches(
        start: BlockComponentTree,
        end: BlockComponentTree,
        a: int,
        b: int,
        f: int,
        s: int,
        t: int,
    )
        requires
            BlockComponentTree::taken(start, end, a, b, f, s, t),
        ensures
            start.has_first(f),
            start.has_second(f, s),
            end.has_second(f, s) <==> start.count(b) != 1,
            end.has_first(f) <==> start.count(b) != 1 || start.count(a) != 1,
            forall|g: int| #[trigger]
                end.has_first(g) <==> start.has_first(g) && (g != f || end.has_first(f)),
            forall|g: int, s2: int| #[trigger]
                end.has_second(g, s2) <==> start.has_second(g, s2) && (g != f || s2 != s
                    || end.has_second(f, s)),
            forall|n: int| #[trigger] start.writes_at_most(n) ==> end.writes_at_most(n),
    {
        assert(start.block_wf(a));
        assert(start.block_wf(b));
        let b_freed = start.count(b) == 1;
        lemma_filled_update(start.blocks@[a].children@, s, None);
        assert(start.blocks@[a].children@[s] is Some);
        lemma_filled_bound(end.blocks@[a].children@);
        assert(end.child(a, s) == end.blocks@[a].children@[s]);
        assert forall|g: int| #[trigger]
            end.has_first(g) <==> start.has_first(g) && (g != f || end.has_first(f)) by {
            if 0 <= g < 8 && g != f {
                assert(end.roots@[g] == start.roots@[g]);
            }
        }
        assert forall|g: int, s2: int| #[trigger]
            end.has_second(g, s2) <==> start.has_second(g, s2) && (g != f || s2 != s
                || end.has_second(f, s)) by {
            if 0 <= g < 8 && 0 <= s2 < 64 {
                if g == f {
                    if s2 != s {
                        assert(end.child(a, s2) == start.child(a, s2));
                        if start.child(a, s2) is Some {
                            assert(end.blocks@[a].children@[s2] is Some);
                        }
                    }
                } else {
                    assert(end.roots@[g] == start.roots@[g]);
                    if start.roots@[g] is Some {
                        let p = start.roots@[g]->0 as int;
                        assert(start.block_wf(p));
                        assert(p != a && p != b);
                        assert(end.child(p, s2) == start.child(p, s2));
                    }
                }
            }
        }
        assert forall|n: int| #[trigger] start.writes_at_most(n) implies end.writes_at_most(n) by {
            assert forall|i: int| 0 <= i < end.blocks@.len() implies #[trigger] end.count(i)
                <= n by {
                assert(start.count(i) <= n);
            }
        }
    }

    /// Takes the number of a block away.
    pub fn remove(&mut self, block: ChunkOffset) -> (r: Option<u16>)
        requires
            old(self).wf(),
        ensures
            is_removed(*old(self), *final(self), block),
            r == if old(self)@.contains_key(block_key(block)) {
                Some(old(self)@[block_key(block)])
            } else {
                None
            },
            r matches Some(v) ==> v < u16::MAX,
            forall|n: int| #[trigger] old(self).can_set_times(n) ==> final(self).can_set_times(n),
            forall|other: ChunkOffset|
                old(self).can_set(other) && final(self)@.contains_key(block_key(other))
                    ==> #[trigger] final(self).can_set(other),
    {
        let (first, second, third) = BlockComponentTree::chunk_offset_indices(block);
        let ghost (f, s, t) = (first as int, second as int, third as int);
        let ghost start = *self;
        let ghost key = block_key(block);
        let first_block: usize = match self.roots[first] {
            Some(b) => b as usize,
            None => {
                assert(start@ =~= start@.remove(key));
                return None;
            },
        };
        assert(self.block_wf(first_block as int));
        assert(self.child(first_block as int, s) == self.blocks@[first_block as int].children@[s]);
        let second_block: usize = match self.blocks[first_block].children[second] {
            Some(b) => b as usize,
            None => {
                assert(start@ =~= start@.remove(key));
                return None;
            },
        };
        assert(self.block_wf(second_block as int));
        assert(self.child(second_block as int, t)
            == self.blocks@[second_block as int].children@[t]);
        let previous: u16 = match self.blocks[second_block].children[third] {
            Some(value) => value,
            None => {
                assert(start@ =~= start@.remove(key));
                return None;
            },
        };
        let ghost (a, b) = (first_block as int, second_block as int);
        proof {
            lemma_filled_bound(start.blocks@[a].children@);
            lemma_filled_bound(start.blocks@[b].children@);
            assert(start.blocks@[a].children@[s] is Some);
        }
        self.blocks[second_block].children[third] = None;
        self.blocks[second_block].use_count -= 1;
        if self.blocks[second_block].use_count == 0 {
            self.blocks[first_block].children[second] = None;
            self.blocks[first_block].use_count -= 1;
            if self.blocks[first_block].use_count == 0 {
                self.roots[first] = None;
            }
        }
        proof {
            let b_freed = start.count(b) == 1;
            let a_freed = b_freed && start.count(a) == 1;
            self.uses@ = start.uses@.update(
                a,
                if a_freed {
                    Use::Free
                } else {
                    Use::First(f)
                },
            ).update(
                b,
                if b_freed {
                    Use::Free
                } else {
                    Use::Second(f, s)
                },
            );
            assert(self.roots@ =~= (if a_freed {
                start.roots@.update(f, None)
            } else {
                start.roots@
            }));
            assert(self.blocks@[a].children@ =~= (if b_freed {
                start.blocks@[a].children@.update(s, None)
            } else {
                start.blocks@[a].children@
            }));
            assert(self.blocks@[b].children@ =~= start.blocks@[b].children@.update(t, None));
            BlockComponentTree::lemma_taken_wf(start, *self, a, b, f, s, t);
            lemma_free_update(start.blocks@, b, self.blocks@[b]);
            lemma_free_update(
                start.blocks@.update(b, self.blocks@[b]),
                a,
                self.blocks@[a],
            );
            assert(self.blocks@ =~= start.blocks@.update(b, self.blocks@[b]).update(
                a,
                self.blocks@[a],
            ));
            BlockComponentTree::lemma_taken_branches(start, *self, a, b, f, s, t);
            assert forall|k: int| 0 <= k < 32768 implies #[trigger] self.at(k) == if k == key {
                None
            } else {
                start.at(k)
            } by {
                lemma_joined(k);
                if first_part(k) == f && second_part(k) == s && third_part(k) == t {
                    law_parts_fix_key(k, key);
                }
                BlockComponentTree::lemma_taken_lookup(
                    start,
                    *self,
                    a,
                    b,
                    f,
                    s,
                    t,
                    first_part(k),
                    second_part(k),
                    third_part(k),
                );
            }
            assert(self@ =~= start@.remove(key));
            assert forall|other: ChunkOffset|
                start.can_set(other) && self@.contains_key(
                    block_key(other),
                ) implies #[trigger] self.can_set(other) by {
                let k = block_key(other);
                lemma_joined(k);
                assert(self.at(k) is Some && start.at(k) is Some);
                let p = start.roots@[first_part(k)]->0 as int;
                assert(self.roots@[first_part(k)] == start.roots@[first_part(k)]);
                assert(start.block_wf(p));
                assert(self.child(p, second_part(k)) == start.child(p, second_part(k)));
                let c = start.child(p, second_part(k))->0 as int;
                assert(start.block_wf(c));
                assert(self.count(c) <= start.count(c));
            }
            assert forall|n: int| #[trigger] start.can_set_times(n) implies self.can_set_times(
                n,
            ) by {
                assert forall|i: int| 0 <= i < self.blocks@.len() implies #[trigger] self.count(i)
                    + n <= u16::MAX by {
                    assert(start.count(i) + n <= u16::MAX);
                }
            }
        }
        Some(previous)
    }

    proof fn lemma_same(a: BlockComponentTree, b: BlockComponentTree)
        requires
            a.roots == b.roots,
            a.blocks@ == b.blocks@,
            a.uses@ == b.uses@,
        ensures
            a.wf() ==> b.wf(),
            forall|n: int| #[trigger] a.can_set_times(n) ==> b.can_set_times(n),
    {
        if a.wf() {
            assert forall|i: int| 0 <= i < b.blocks@.len() implies #[trigger] b.block_wf(i) by {
                assert(a.block_wf(i));
                assert forall|j: int| 0 <= j < 64 implies #[trigger] b.child(i, j) == a.child(
                    i,
                    j,
                ) by {}
            }
        }
        assert forall|n: int| #[trigger] a.can_set_times(n) implies b.can_set_times(n) by {
            assert forall|i: int| 0 <= i < b.blocks@.len() implies #[trigger] b.count(i) + n
                <= u16::MAX by {
                assert(a.count(i) + n <= u16::MAX);
            }
        }
    }

    /// Whether there is room for one more entry at `block`.
    pub fn has_room(&self, block: ChunkOffset) -> (r: bool)
        requires
            self.wf(),
        ensures
            r == self.can_set(block),
    {
        let (first, second, _) = BlockComponentTree::chunk_offset_indices(block);
        match self.roots[first] {
            None => self.count_room() >= 2,
            Some(b) => {
                assert(self.block_wf(b as int));
                assert(self.child(b as int, second as int)
                    == self.blocks@[b as int].children@[second as int]);
                match self.blocks[b as usize].children[second] {
                    None => self.count_room() >= 1,
                    Some(c) => self.blocks[c as usize].use_count < u16::MAX,
                }
            },
        }
    }

    fn count_room(&self) -> (r: usize)
        requires
            self.wf(),
        ensures
            r == free_blocks(self.blocks@) + (255 - self.blocks@.len()),
    {
        let mut free: usize = 0;
        let mut i: usize = 0;
        while i < self.blocks.len()
            invariant
                i <= self.blocks@.len(),
                free <= i,
                free == free_blocks(self.blocks@.take(i as int)),
            decreases self.blocks@.len() - i,
        {
            assert(self.blocks@.take(i + 1).drop_last() =~= self.blocks@.take(i as int));
            if self.blocks[i].use_count == 0 {
                free += 1;
            }
            i += 1;
        }
        assert(self.blocks@.take(self.blocks@.len() as int) =~= self.blocks@);
        free + (255 - self.blocks.len())
    }
}

impl Default for BlockComponentTree {
    fn default() -> (r: BlockComponentTree)
        ensures
            r.wf(),
            r@ == Map::<int, u16>::empty(),
            r.can_set_times(127),
            r.used_blocks() == 0,
            r.writes_at_most(64),
            is_within(r, 0),
            forall|f: int| !#[trigger] r.has_first(f),
            forall|f: int, s: int| !#[trigger] r.has_second(f, s),
    {
        let r = BlockComponentTree {
            roots: [None;8],
            blocks: Vec::new(),
            uses: Ghost(Seq::empty()),
        };
        assert forall|key: int| 0 <= key < 32768 implies #[trigger] r.at(key) is None by {
            lemma_joined(key);
        }
        assert(r@ =~= Map::<int, u16>::empty());
        proof {
            lemma_first_count_bound(r, 0, 8);
        }
        r
    }
}

impl Clone for BlockComponentTree {
    fn clone(&self) -> (r: BlockComponentTree)
        ensures
            r@ == self@,
            r.wf() == self.wf(),
            forall|block: ChunkOffset| #[trigger] r.can_set(block) == self.can_set(block),
            forall|n: int| #[trigger] r.can_set_times(n) == self.can_set_times(n),
            r.used_blocks() == self.used_blocks(),
            forall|f: int| #[trigger] r.has_first(f) == self.has_first(f),
            forall|f: int, s: int| #[trigger] r.has_second(f, s) == self.has_second(f, s),
            forall|n: int| #[trigger] r.writes_at_most(n) == self.writes_at_most(n),
    {
        let mut blocks: Vec<BlockComponentTreeBlock> = Vec::new();
        let mut i: usize = 0;
        while i < self.blocks.len()
            invariant
                i <= self.blocks@.len(),
                blocks@ == self.blocks@.take(i as int),
            decreases self.blocks@.len() - i,
        {
            blocks.push(self.blocks[i]);
            assert(blocks@ =~= self.blocks@.take(i + 1));
            i += 1;
        }
        assert(blocks@ =~= self.blocks@);
        let r = BlockComponentTree { roots: self.roots, blocks, uses: self.uses };
        proof {
            assert forall|key: int| #[trigger] r.at(key) == self.at(key) by {}
            assert(r@ =~= self@);
            BlockComponentTree::lemma_same(r, *self);
            BlockComponentTree::lemma_same(*self, r);
            assert forall|n: int| #[trigger] r.writes_at_most(n) == self.writes_at_most(n) by {
                if r.writes_at_most(n) {
                    assert forall|b: int| 0 <= b < self.blocks@.len() implies #[trigger] self.count(b)
                        <= n by {
                        assert(r.count(b) <= n);
                    }
                }
                if self.writes_at_most(n) {
                    assert forall|b: int| 0 <= b < r.blocks@.len() implies #[trigger] r.count(b)
                        <= n by {
                        assert(self.count(b) <= n);
                    }
                }
            }
        }
        r
    }
}

proof fn lemma_first_count(before: BlockComponentTree, after: BlockComponentTree, f: int, n: int)
    requires
        0 <= f < 8,
        forall|g: int| g != f ==> #[trigger] after.has_first(g) == before.has_first(g),
    ensures
        first_count(after, n) - first_count(before, n) == if f >= n {
            0int
        } else {
            (if after.has_first(f) {
                1int
            } else {
                0
            }) - (if before.has_first(f) {
                1int
            } else {
                0
            })
        },
    decreases n,
{
    if n > 0 {
        lemma_first_count(before, after, f, n - 1);
    }
}

proof fn lemma_first_count_bound(tree: BlockComponentTree, f: int, n: int)
    requires
        0 <= n,
    ensures
        0 <= first_count(tree, n) <= n,
        0 <= f < n && !tree.has_first(f) ==> first_count(tree, n) < n,
    decreases n,
{
    if n > 0 {
        lemma_first_count_bound(tree, f, n - 1);
    }
}

/// Each call takes its share of the room at most.
pub proof fn law_calls_stay_within(
    before: BlockComponentTree,
    after: BlockComponentTree,
    call: TreeCall,
    n: int,
)
    requires
        is_called(before, after, call),
        is_within(before, n),
    ensures
        is_within(after, n + 1),
{
    let block = match call {
        TreeCall::Write(block, _) => block,
        TreeCall::Clear(block) => block,
    };
    lemma_joined(block_key(block));
    let f = first_part(block_key(block));
    assert forall|g: int| g != f implies #[trigger] after.has_first(g) == before.has_first(g) by {}
    lemma_first_count(before, after, f, 8);
    match call {
        TreeCall::Write(..) => {
            assert(after.has_first(f));
            assert(before.writes_at_most(n + 64));
            assert(after.writes_at_most(n + 64 + 1));
        },
        TreeCall::Clear(_) => {
            assert(after.writes_at_most(n + 64));
            lemma_more_writes(after, n + 64);
            assert(after.has_first(f) ==> before.has_first(f));
        },
    }
}

proof fn lemma_more_writes(tree: BlockComponentTree, n: int)
    requires
        tree.writes_at_most(n),
    ensures
        tree.writes_at_most(n + 1),
{
    assert forall|b: int| 0 <= b < tree.blocks@.len() implies #[trigger] tree.count(b) <= n + 1 by {
        assert(tree.count(b) <= n);
    }
}

/// A tree that uses no more room than it may after 246 calls has room for an entry anywhere.
pub proof fn law_room_within(tree: BlockComponentTree, n: int, block: ChunkOffset)
    requires
        tree.wf(),
        is_within(tree, n),
        n <= 246,
    ensures
        tree.can_set(block),
{
    lemma_joined(block_key(block));
    lemma_first_count_bound(tree, first_part(block_key(block)), 8);
    law_room_is_for_branches(tree, block, n + 64);
}

/// A tree that was empty has room for an entry anywhere after up to 246 calls, whatever they were, and
/// holds what they wrote: `trees` are its states before the first call and after each.
pub proof fn law_room_after_calls(
    trees: Seq<BlockComponentTree>,
    calls: Seq<TreeCall>,
    block: ChunkOffset,
)
    requires
        trees.len() == calls.len() + 1,
        trees[0].wf(),
        is_within(trees[0], 0),
        forall|i: int|
            #![trigger calls[i]]
            0 <= i < calls.len() ==> is_called(trees[i], trees[i + 1], calls[i]),
        calls.len() <= 246,
    ensures
        trees.last().wf(),
        is_within(trees.last(), calls.len() as int),
        trees.last().can_set(block),
        trees.last()@ == called_map(trees[0]@, calls),
    decreases calls.len(),
{
    if calls.len() > 0 {
        let before = trees.drop_last();
        let first = calls.drop_last();
        assert forall|i: int|
            #![trigger first[i]]
            0 <= i < first.len() implies is_called(before[i], before[i + 1], first[i]) by {
            assert(calls[i] == first[i]);
        }
        law_room_after_calls(before, first, block);
        let last = calls[calls.len() - 1];
        assert(is_called(before.last(), trees.last(), last));
        law_calls_stay_within(before.last(), trees.last(), last, first.len() as int);
    }
    law_room_within(trees.last(), calls.len() as int, block);
}

/// What a map holds after calls.
pub open spec fn called_map(map: Map<int, u16>, calls: Seq<TreeCall>) -> Map<int, u16>
    decreases calls.len(),
{
    if calls.len() == 0 {
        map
    } else {
        let before = called_map(map, calls.drop_last());
        match calls.last() {
            TreeCall::Write(block, value) => before.insert(block_key(block), value),
            TreeCall::Clear(block) => before.remove(block_key(block)),
        }
    }
}

/// A tree that can be written `n` times, once at least, has room for any entry.
pub proof fn law_can_set_times(tree: BlockComponentTree, n: int, block: ChunkOffset)
    requires
        tree.wf(),
        tree.can_set_times(n),
        n >= 1,
    ensures
        tree.can_set(block),
{
    let key = block_key(block);
    lemma_joined(key);
    if let Some(b) = tree.roots@[first_part(key)] {
        assert(tree.block_wf(b as int));
        if let Some(c) = tree.child(b as int, second_part(key)) {
            assert(tree.count(c as int) + n <= u16::MAX);
        }
    }
}

/// The keys of a tree are places in a chunk, and its numbers are below `u16::MAX`.
pub proof fn law_tree_bounds(tree: BlockComponentTree, key: int)
    requires
        tree.wf(),
        tree@.contains_key(key),
    ensures
        0 <= key < 32768,
        tree@[key] < u16::MAX,
{
    lemma_joined(key);
    let p = tree.roots@[first_part(key)]->0 as int;
    assert(tree.block_wf(p));
    let c = tree.child(p, second_part(key))->0 as int;
    assert(tree.block_wf(c));
    assert(tree.child(c, third_part(key)) is Some);
}

/// A tree that can be written `n` times can be written fewer times.
pub proof fn law_fewer_sets(tree: BlockComponentTree, n: int, m: int)
    requires
        tree.can_set_times(n),
        m <= n,
    ensures
        tree.can_set_times(m),
{
    assert forall|b: int| 0 <= b < tree.blocks@.len() implies #[trigger] tree.count(b) + m
        <= u16::MAX by {
        assert(tree.count(b) + n <= u16::MAX);
    }
}

/// Every place in a chunk has its own key.
pub proof fn law_block_keys(a: ChunkOffset, b: ChunkOffset)
    requires
        a.in_chunk(),
        b.in_chunk(),
    ensures
        0 <= block_key(a) < 32768,
        block_key(a) == block_key(b) ==> a == b,
{
}

} // verus!
