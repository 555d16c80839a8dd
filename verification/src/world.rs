//! Components that are attached to single blocks of a chunk.

use crate::component_tree::{
    block_key, first_part, law_can_set_times, law_fewer_sets, law_room_is_for_branches,
    law_tree_bounds, new_branches, second_part, BlockComponentTree,
};
use crate::coord::ChunkOffset;
use crate::plants::PlantList;
use crate::tick_list::BlockTickList;
use vstd::prelude::*;

verus! {

/// The components of one kind in a chunk, at most one to a block.
pub struct BlockComponentStorage<T> {
    pub components: Vec<(ChunkOffset, T)>,
    pub tree: BlockComponentTree,
    pub tick_list: BlockTickList,
}

/// What stands in the list at the places that the tree gives: the components by their blocks.
pub open spec fn component_map<T>(components: Seq<(ChunkOffset, T)>, tree: Map<int, u16>) -> Map<
    int,
    T,
> {
    Map::new(|key: int| tree.contains_key(key), |key: int| components[tree[key] as int].1)
}

impl<T> View for BlockComponentStorage<T> {
    type V = Map<int, T>;

    open spec fn view(&self) -> Map<int, T> {
        component_map(self.components@, self.tree@)
    }
}

impl<T> BlockComponentStorage<T> {
    /// Whether the tree knows the place of each component in the list, and of nothing else.
    pub open spec fn wf(self) -> bool {
        &&& self.tree.wf()
        &&& self.tick_list.wf()
        &&& self.tree@.dom().finite()
        &&& self.tree@.dom().len() == self.components@.len()
        &&& forall|i: int|
            0 <= i < self.components@.len() ==> {
                let key = block_key((#[trigger] self.components@[i]).0);
                self.tree@.contains_key(key) && self.tree@[key] == i
            }
        &&& forall|key: int| #[trigger]
            self.tree@.contains_key(key) ==> self.tree@[key] < self.components@.len() && block_key(
                self.components@[self.tree@[key] as int].0,
            ) == key
    }

    /// The component of a block.
    pub fn get(&self, block: ChunkOffset) -> (r: Option<&T>)
        requires
            self.wf(),
        ensures
            match r {
                Some(data) => self@.contains_key(block_key(block)) && *data == self@[block_key(
                    block,
                )],
                None => !self@.contains_key(block_key(block)),
            },
    {
        match self.tree.get(block) {
            Some(index) => Some(&self.components[index as usize].1),
            None => None,
        }
    }

    /// The place of a block's component: what is written there changes that component and no other.
    pub fn get_mut(&mut self, block: ChunkOffset) -> (r: Option<&mut T>)
        requires
            old(self).wf(),
        ensures
            final(self).wf(),
            final(self).tree == old(self).tree,
            final(self).tick_list == old(self).tick_list,
            match r {
                Some(data) => {
                    let key = block_key(block);
                    let index = old(self).tree@[key] as int;
                    &&& old(self)@.contains_key(key)
                    &&& *data == old(self)@[key]
                    &&& final(self).components@ == old(self).components@.update(
                        index,
                        (old(self).components@[index].0, *final(data)),
                    )
                    &&& final(self)@ == old(self)@.insert(key, *final(data))
                },
                None => !old(self)@.contains_key(block_key(block)) && *final(self) == *old(self),
            },
    {
        match self.tree.get(block) {
            Some(index) => Some(&mut self.components[index as usize].1),
            None => None,
        }
    }
}

/// The keys of a well-formed storage are places in a chunk, so it holds at most 32768 components.
pub proof fn law_storage_bound<T>(storage: BlockComponentStorage<T>)
    requires
        storage.wf(),
    ensures
        storage.components@.len() <= 32768,
{
    let all = vstd::set_lib::set_int_range(0, 32768);
    vstd::set_lib::lemma_int_range(0, 32768);
    assert forall|key: int| #[trigger] storage.tree@.dom().contains(key) implies all.contains(
        key,
    ) by {
        law_tree_bounds(storage.tree, key);
    }
    assert(storage.tree@.dom().subset_of(all));
    vstd::set_lib::lemma_len_subset(storage.tree@.dom(), all);
}

proof fn lemma_one_more<T>(storage: BlockComponentStorage<T>, block: ChunkOffset)
    requires
        storage.wf(),
        !storage.tree@.contains_key(block_key(block)),
    ensures
        storage.components@.len() < 32768,
{
    let all = vstd::set_lib::set_int_range(0, 32768);
    vstd::set_lib::lemma_int_range(0, 32768);
    let grown = storage.tree@.dom().insert(block_key(block));
    assert forall|key: int| #[trigger] grown.contains(key) implies all.contains(key) by {
        if key != block_key(block) {
            law_tree_bounds(storage.tree, key);
        }
    }
    assert(grown.subset_of(all));
    vstd::set_lib::lemma_len_subset(grown, all);
}

impl<T> BlockComponentStorage<T> {
    /// Gives a block a component, in place of the one that it has.
    pub fn set(&mut self, block: ChunkOffset, data: T)
        requires
            old(self).wf(),
            !old(self)@.contains_key(block_key(block)) ==> old(self).tree.can_set(block),
        ensures
            final(self).wf(),
            final(self)@ == old(self)@.insert(block_key(block), data),
            final(self).tick_list == old(self).tick_list,
            final(self).components@ == if old(self)@.contains_key(block_key(block)) {
                let index = old(self).tree@[block_key(block)] as int;
                old(self).components@.update(index, (old(self).components@[index].0, data))
            } else {
                old(self).components@.push((block, data))
            },
            forall|n: int| #[trigger]
                old(self).tree.can_set_times(n) ==> final(self).tree.can_set_times(n - 1),
    {
        let ghost start = *self;
        let ghost key = block_key(block);
        match self.tree.get(block) {
            Some(index) => {
                let offset = self.components[index as usize].0;
                self.components.set(index as usize, (offset, data));
                proof {
                    assert(self@ =~= start@.insert(key, data));
                    assert forall|n: int| #[trigger] start.tree.can_set_times(n) implies self.tree.can_set_times(
                        n - 1,
                    ) by {
                        law_fewer_sets(start.tree, n, n - 1);
                    }
                }
            },
            None => {
                proof {
                    lemma_one_more(*self, block);
                }
                self.tree.set(block, self.components.len() as u16);
                self.components.push((block, data));
                proof {
                    assert(start.tree@.insert(key, start.components@.len() as u16).dom()
                        =~= start.tree@.dom().insert(key));
                    assert(self@ =~= start@.insert(key, data));
                }
            },
        }
    }

    /// The place of a block's component, which is made by `init` if the block has none.
    pub fn get_or_init<F: FnOnce() -> T>(&mut self, block: ChunkOffset, init: F) -> (r: &mut T)
        requires
            old(self).wf(),
            !old(self)@.contains_key(block_key(block)) ==> old(self).tree.can_set(block)
                && call_requires(init, ()),
        ensures
            final(self).wf(),
            final(self).tick_list == old(self).tick_list,
            old(self)@.contains_key(block_key(block)) ==> *r == old(self)@[block_key(block)],
            !old(self)@.contains_key(block_key(block)) ==> call_ensures(init, (), *r),
            final(self)@ == old(self)@.insert(block_key(block), *final(r)),
    {
        let ghost start = *self;
        match self.tree.get(block) {
            Some(_) => {},
            None => {
                self.set(block, init());
            },
        }
        let ghost key = block_key(block);
        let ghost mid = *self;
        proof {
            assert(mid@.contains_key(key));
            assert(forall|v: T| mid@.insert(key, v) =~= start@.insert(key, v));
        }
        self.get_mut(block).unwrap()
    }

    /// Takes a block's component away. The last component of the list takes its place there.
    pub fn remove(&mut self, block: ChunkOffset) -> (r: Option<T>)
        requires
            old(self).wf(),
            old(self).components@.len() > 0 ==> old(self).tree.can_set(
                old(self).components@.last().0,
            ),
        ensures
            final(self).wf(),
            final(self)@ == old(self)@.remove(block_key(block)),
            match r {
                Some(data) => {
                    let index = old(self).tree@[block_key(block)] as int;
                    let length = old(self).components@.len();
                    &&& old(self)@.contains_key(block_key(block))
                    &&& data == old(self)@[block_key(block)]
                    &&& final(self).components@ == old(self).components@.update(
                        index,
                        old(self).components@.last(),
                    ).drop_last()
                    &&& final(self).tick_list.timers() == old(self).tick_list.timers().remove(
                        block.0,
                    )
                    &&& forall|id: int| #[trigger]
                        final(self).tick_list.ticking().contains(id) == (id != length - 1 && old(
                            self,
                        ).tick_list.ticking().contains(
                            if id == index {
                                length - 1
                            } else {
                                id
                            },
                        ))
                },
                None => !old(self)@.contains_key(block_key(block)) && final(self).components@
                    == old(self).components@ && final(self).tick_list == old(self).tick_list,
            },
            forall|n: int| #[trigger]
                old(self).tree.can_set_times(n) ==> final(self).tree.can_set_times(n - 1),
    {
        let ghost start = *self;
        let ghost key = block_key(block);
        match self.tree.remove(block) {
            Some(index) => {
                let index: usize = index as usize;
                proof {
                    law_storage_bound(start);
                    assert(start.components@[index as int].0 == start.components@[index as int].0);
                }
                self.tick_list.remove(block, index, self.components.len());
                let (_, removed) = self.components.swap_remove(index);
                let ghost last = start.components@.len() - 1;
                let ghost middle = self.tree;
                proof {
                    assert(start.tree@.remove(key).dom() =~= start.tree@.dom().remove(key));
                }
                if index < self.components.len() {
                    let offset = self.components[index].0;
                    proof {
                        assert(start.components@[last].0 == offset);
                        assert(block_key(offset) != key);
                    }
                    self.tree.set(offset, index as u16);
                    proof {
                        assert(middle@.insert(block_key(offset), index as u16).dom()
                            =~= middle@.dom());
                    }
                } else {
                    proof {
                        assert forall|n: int| #[trigger] start.tree.can_set_times(
                            n,
                        ) implies self.tree.can_set_times(n - 1) by {
                            assert(self.tree.can_set_times(n));
                            law_fewer_sets(self.tree, n, n - 1);
                        }
                    }
                }
                proof {
                    assert forall|i: int| 0 <= i < self.components@.len() implies ({
                        let k = block_key((#[trigger] self.components@[i]).0);
                        self.tree@.contains_key(k) && self.tree@[k] == i
                    }) by {
                        if i == index {
                            assert(start.components@[last].0 == self.components@[i].0);
                        } else {
                            assert(start.components@[i] == self.components@[i]);
                            assert(start.components@[last].0 == start.components@[last].0);
                        }
                    }
                    assert forall|k: int| #[trigger] self.tree@.contains_key(k) implies self.tree@[k]
                        < self.components@.len() && block_key(
                        self.components@[self.tree@[k] as int].0,
                    ) == k by {
                        assert(start.tree@.contains_key(k));
                        assert(start.components@[last].0 == start.components@[last].0);
                    }
                    assert(self@ =~= start@.remove(key)) by {
                        assert forall|k: int| self@.contains_key(k) implies #[trigger] self@[k]
                            == start@[k] by {
                            assert(start.tree@.contains_key(k));
                        }
                    }
                }
                Some(removed)
            },
            None => {
                proof {
                    assert(start.tree@.remove(key) =~= start.tree@);
                    assert(self@ =~= start@.remove(key));
                    assert forall|n: int| #[trigger] start.tree.can_set_times(n) implies self.tree.can_set_times(
                        n - 1,
                    ) by {
                        assert(self.tree.can_set_times(n));
                        law_fewer_sets(self.tree, n, n - 1);
                    }
                }
                None
            },
        }
    }

    /// The components with their blocks, in the order of the list.
    pub fn iter(&self) -> (r: Vec<(ChunkOffset, &T)>)
        ensures
            r@ == Seq::new(
                self.components@.len(),
                |i: int| (self.components@[i].0, &self.components@[i].1),
            ),
    {
        let mut r: Vec<(ChunkOffset, &T)> = Vec::new();
        let mut i: usize = 0;
        while i < self.components.len()
            invariant
                i <= self.components@.len(),
                r@ == Seq::new(
                    i as nat,
                    |i: int| (self.components@[i].0, &self.components@[i].1),
                ),
            decreases self.components@.len() - i,
        {
            let component = &self.components[i];
            r.push((component.0, &component.1));
            assert(r@ =~= Seq::new(
                (i + 1) as nat,
                |i: int| (self.components@[i].0, &self.components@[i].1),
            ));
            i += 1;
        }
        r
    }

    pub fn is_empty(&self) -> (r: bool)
        requires
            self.wf(),
        ensures
            r == (self.components@.len() == 0),
            r == (self@ == Map::<int, T>::empty()),
    {
        proof {
            if self.components@.len() == 0 {
                assert(self.tree@.dom() =~= Set::<int>::empty());
                assert(self@ =~= Map::<int, T>::empty());
            } else {
                assert(self@.contains_key(block_key(self.components@[0].0)));
            }
        }
        self.components.is_empty()
    }

    /// A storage of the same blocks, with what `mapper` makes of each component.
    pub fn map<U, F: FnMut(&T) -> U>(&self, mapper: F) -> (r: BlockComponentStorage<U>)
        requires
            forall|i: int|
                0 <= i < self.components@.len() ==> call_requires(
                    mapper,
                    (&(#[trigger] self.components@[i]).1,),
                ),
        ensures
            self.wf() ==> r.wf(),
            r@.dom() == self@.dom(),
            r.tree@ == self.tree@,
            r.tick_list.timers() == self.tick_list.timers(),
            r.tick_list.ticking() == self.tick_list.ticking(),
            r.components@.len() == self.components@.len(),
            forall|i: int|
                0 <= i < r.components@.len() ==> (#[trigger] r.components@[i]).0
                    == self.components@[i].0 && call_ensures(
                    mapper,
                    (&self.components@[i].1,),
                    r.components@[i].1,
                ),
    {
        let mut mapper = mapper;
        let ghost f = mapper;
        let mut components: Vec<(ChunkOffset, U)> = Vec::new();
        let mut i: usize = 0;
        while i < self.components.len()
            invariant
                mapper == f,
                i <= self.components@.len(),
                components@.len() == i,
                forall|i: int|
                    0 <= i < self.components@.len() ==> call_requires(
                        f,
                        (&(#[trigger] self.components@[i]).1,),
                    ),
                forall|j: int|
                    0 <= j < i ==> (#[trigger] components@[j]).0 == self.components@[j].0
                        && call_ensures(f, (&self.components@[j].1,), components@[j].1),
            decreases self.components@.len() - i,
        {
            let component = &self.components[i];
            components.push((component.0, mapper(&component.1)));
            i += 1;
        }
        let r = BlockComponentStorage {
            components,
            tree: self.tree.clone(),
            tick_list: self.tick_list.clone(),
        };
        proof {
            assert(r@.dom() =~= self@.dom());
            if self.wf() {
                assert forall|i: int| 0 <= i < r.components@.len() implies ({
                    let key = block_key((#[trigger] r.components@[i]).0);
                    r.tree@.contains_key(key) && r.tree@[key] == i
                }) by {
                    assert(r.components@[i].0 == self.components@[i].0);
                }
                assert forall|key: int| #[trigger] r.tree@.contains_key(key) implies r.tree@[key]
                    < r.components@.len() && block_key(r.components@[r.tree@[key] as int].0)
                    == key by {
                    let i = self.tree@[key] as int;
                    assert(r.components@[i].0 == self.components@[i].0);
                }
            }
        }
        r
    }

    /// A storage of a list of components and what ticks of them: `None` if the tree has no room for
    /// them.
    pub fn from_components(
        components: Vec<(ChunkOffset, T)>,
        tick_list: BlockTickList,
    ) -> (r: Option<BlockComponentStorage<T>>)
        requires
            tick_list.wf(),
            forall|i: int, j: int|
                0 <= i < j < components@.len() ==> block_key((#[trigger] components@[i]).0)
                    != block_key((#[trigger] components@[j]).0),
        ensures
            r is Some <==> branch_count(components@, components@.len() as int) <= 255,
            components@.len() <= 127 ==> r is Some,
            r matches Some(storage) ==> {
                &&& storage.wf()
                &&& storage.components == components
                &&& storage.tick_list == tick_list
            },
    {
        let mut tree = BlockComponentTree::default();
        let mut index: usize = 0;
        proof {
            lemma_distinct_keys(components@);
        }
        while index < components.len()
            invariant
                index <= components@.len() <= 32768,
                tree.wf(),
                tree@.dom().finite(),
                tree@.dom().len() == index,
                forall|i: int, j: int|
                    0 <= i < j < components@.len() ==> block_key((#[trigger] components@[i]).0)
                        != block_key((#[trigger] components@[j]).0),
                forall|i: int|
                    0 <= i < index ==> {
                        let key = block_key((#[trigger] components@[i]).0);
                        tree@.contains_key(key) && tree@[key] == i
                    },
                forall|key: int| #[trigger]
                    tree@.contains_key(key) ==> tree@[key] < index && block_key(
                        components@[tree@[key] as int].0,
                    ) == key,
                index <= 127 ==> tree.can_set_times(127 - index),
                tree.used_blocks() == branch_count(components@, index as int),
                tree.used_blocks() <= 255,
                tree.writes_at_most(index + 64),
                forall|f: int| #[trigger]
                    tree.has_first(f) <==> first_is_met(components@, index as int, f),
                forall|f: int, s: int| #[trigger]
                    tree.has_second(f, s) <==> second_is_met(components@, index as int, f, s),
            decreases components@.len() - index,
        {
            let offset = components[index].0;
            let ghost before = tree;
            proof {
                law_room_is_for_branches(tree, offset, index + 64);
                lemma_branches_met(components@, index as int, tree, offset);
            }
            if !tree.has_room(offset) {
                proof {
                    lemma_branch_count_grows(components@, index + 1, components@.len() as int);
                    if components@.len() <= 127 {
                        law_can_set_times(tree, 127 - index, offset);
                    }
                }
                return None;
            }
            tree.set(offset, index as u16);
            proof {
                let key = block_key(offset);
                if before@.contains_key(key) {
                    let i = before@[key] as int;
                    assert(block_key(components@[i].0) == block_key(components@[index as int].0));
                }
                assert(before@.insert(key, index as u16).dom() =~= before@.dom().insert(key));
                lemma_met_grows(components@, index as int);
            }
            index += 1;
        }
        Some(BlockComponentStorage { components, tree, tick_list })
    }
}

/// Whether one of the first `n` components has that coarsest part.
pub open spec fn first_is_met<T>(components: Seq<(ChunkOffset, T)>, n: int, f: int) -> bool {
    exists|i: int| 0 <= i < n && first_part(block_key((#[trigger] components[i]).0)) == f
}

/// Whether one of the first `n` components has these coarsest and middle parts.
pub open spec fn second_is_met<T>(
    components: Seq<(ChunkOffset, T)>,
    n: int,
    f: int,
    s: int,
) -> bool {
    exists|i: int|
        0 <= i < n && first_part(block_key((#[trigger] components[i]).0)) == f && second_part(
            block_key(components[i].0),
        ) == s
}

/// How many branches the first `n` components take: one for each coarsest part, and one for each
/// middle part with its coarsest part.
pub open spec fn branch_count<T>(components: Seq<(ChunkOffset, T)>, n: int) -> int
    decreases n,
{
    if n <= 0 {
        0
    } else {
        let key = block_key(components[n - 1].0);
        branch_count(components, n - 1) + (if first_is_met(components, n - 1, first_part(key)) {
            0int
        } else {
            1
        }) + (if second_is_met(components, n - 1, first_part(key), second_part(key)) {
            0int
        } else {
            1
        })
    }
}

proof fn lemma_branch_count_grows<T>(components: Seq<(ChunkOffset, T)>, n: int, m: int)
    requires
        n <= m,
    ensures
        branch_count(components, n) <= branch_count(components, m),
    decreases m - n,
{
    if n < m {
        lemma_branch_count_grows(components, n, m - 1);
    }
}

proof fn lemma_branches_met<T>(
    components: Seq<(ChunkOffset, T)>,
    n: int,
    tree: BlockComponentTree,
    block: ChunkOffset,
)
    requires
        0 <= n < components.len(),
        block == components[n].0,
        forall|f: int| #[trigger] tree.has_first(f) <==> first_is_met(components, n, f),
        forall|f: int, s: int| #[trigger]
            tree.has_second(f, s) <==> second_is_met(components, n, f, s),
    ensures
        branch_count(components, n + 1) == branch_count(components, n) + new_branches(tree, block),
{
    let (f, s) = (first_part(block_key(block)), second_part(block_key(block)));
    if second_is_met(components, n, f, s) {
        let i = choose|i: int|
            0 <= i < n && first_part(block_key((#[trigger] components[i]).0)) == f && second_part(
                block_key(components[i].0),
            ) == s;
        assert(first_is_met(components, n, f));
    }
    assert(tree.has_first(f) <==> first_is_met(components, n, f));
    assert(tree.has_second(f, s) <==> second_is_met(components, n, f, s));
}

proof fn lemma_met_grows<T>(components: Seq<(ChunkOffset, T)>, n: int)
    requires
        0 <= n < components.len(),
    ensures
        forall|f: int| #[trigger]
            first_is_met(components, n + 1, f) <==> first_is_met(components, n, f) || f
                == first_part(block_key(components[n].0)),
        forall|f: int, s: int| #[trigger]
            second_is_met(components, n + 1, f, s) <==> second_is_met(components, n, f, s) || f
                == first_part(block_key(components[n].0)) && s == second_part(
                block_key(components[n].0),
            ),
{
    assert forall|f: int| #[trigger] first_is_met(components, n + 1, f) <==> first_is_met(
        components,
        n,
        f,
    ) || f == first_part(block_key(components[n].0)) by {
        if first_is_met(components, n, f) {
            let i = choose|i: int|
                0 <= i < n && first_part(block_key((#[trigger] components[i]).0)) == f;
            assert(0 <= i < n + 1);
        }
    }
    assert forall|f: int, s: int| #[trigger] second_is_met(
        components,
        n + 1,
        f,
        s,
    ) <==> second_is_met(components, n, f, s) || f == first_part(block_key(components[n].0)) && s
        == second_part(block_key(components[n].0)) by {
        if second_is_met(components, n, f, s) {
            let i = choose|i: int|
                0 <= i < n && first_part(block_key((#[trigger] components[i]).0)) == f
                    && second_part(block_key(components[i].0)) == s;
            assert(0 <= i < n + 1);
        }
    }
}

proof fn lemma_distinct_keys<T>(components: Seq<(ChunkOffset, T)>)
    requires
        forall|i: int, j: int|
            0 <= i < j < components.len() ==> block_key((#[trigger] components[i]).0)
                != block_key((#[trigger] components[j]).0),
    ensures
        components.len() <= 32768,
{
    let keys = components.map_values(|c: (ChunkOffset, T)| block_key(c.0));
    assert(keys.no_duplicates()) by {
        assert forall|i: int, j: int|
            0 <= i < keys.len() && 0 <= j < keys.len() && i != j implies keys[i] != keys[j] by {
            if i < j {
                assert(block_key(components[i].0) != block_key(components[j].0));
            } else {
                assert(block_key(components[j].0) != block_key(components[i].0));
            }
        }
    }
    keys.unique_seq_to_set();
    let all = vstd::set_lib::set_int_range(0, 32768);
    vstd::set_lib::lemma_int_range(0, 32768);
    assert(keys.to_set().subset_of(all)) by {
        assert forall|k: int| #[trigger] keys.to_set().contains(k) implies all.contains(k) by {
            let i = choose|i: int| 0 <= i < keys.len() && keys[i] == k;
            assert(block_key(components[i].0) == k);
        }
    }
    vstd::set_lib::lemma_len_subset(keys.to_set(), all);
}

impl<T> Default for BlockComponentStorage<T> {
    fn default() -> (r: BlockComponentStorage<T>)
        ensures
            r.wf(),
            r@ == Map::<int, T>::empty(),
            r.components@ == Seq::<(ChunkOffset, T)>::empty(),
            r.tree.can_set_times(127),
            r.tick_list.ticking() == Set::<int>::empty(),
            r.tick_list.timers() == Map::<u16, u64>::empty(),
    {
        let r: BlockComponentStorage<T> = BlockComponentStorage {
            components: Vec::new(),
            tree: BlockComponentTree::default(),
            tick_list: BlockTickList::default(),
        };
        assert(r.tree@.dom() =~= Set::<int>::empty());
        assert(r@ =~= Map::<int, T>::empty());
        r
    }
}

/// How far a block is broken. `F` is the type of the damage.
pub struct ClientBlockDamage<F> {
    pub damage: F,
}

/// The plants that grow on a block, each with its stage.
pub struct ClientBlockPlants {
    pub plants: PlantList,
}

/// The animation that a machine plays.
#[derive(Clone, Copy, PartialEq, Eq, Structural, Debug)]
pub struct ClientBlockMachine {
    pub animation: u16,
    pub animation_start_time: u64,
}

/// The components of the blocks of a chunk.
pub struct ClientChunkBlockComponents<F> {
    pub damage: BlockComponentStorage<ClientBlockDamage<F>>,
    pub plant: BlockComponentStorage<ClientBlockPlants>,
    pub machine: BlockComponentStorage<ClientBlockMachine>,
}

impl<F> ClientChunkBlockComponents<F> {
    /// Whether the components of each kind are stored in order.
    pub open spec fn wf(self) -> bool {
        &&& self.damage.wf()
        &&& self.plant.wf()
        &&& self.machine.wf()
    }
}

/// The part of a structure that holds the components of type `T`.
pub trait ComponentTypeAccess<T> {
    type Item;

    spec fn component(&self) -> Self::Item;

    fn get_component_type(&self) -> (r: &Self::Item)
        ensures
            *r == self.component(),
    ;

    fn get_component_type_mut(&mut self) -> (r: &mut Self::Item)
        ensures
            *r == old(self).component(),
            final(self).component() == *final(r),
    ;
}

impl<F> ComponentTypeAccess<ClientBlockDamage<F>> for ClientChunkBlockComponents<F> {
    type Item = BlockComponentStorage<ClientBlockDamage<F>>;

    open spec fn component(&self) -> BlockComponentStorage<ClientBlockDamage<F>> {
        self.damage
    }

    fn get_component_type(&self) -> (r: &BlockComponentStorage<ClientBlockDamage<F>>) {
        &self.damage
    }

    fn get_component_type_mut(&mut self) -> (r: &mut BlockComponentStorage<ClientBlockDamage<F>>) {
        &mut self.damage
    }
}

impl<F> ComponentTypeAccess<ClientBlockPlants> for ClientChunkBlockComponents<F> {
    type Item = BlockComponentStorage<ClientBlockPlants>;

    open spec fn component(&self) -> BlockComponentStorage<ClientBlockPlants> {
        self.plant
    }

    fn get_component_type(&self) -> (r: &BlockComponentStorage<ClientBlockPlants>) {
        &self.plant
    }

    fn get_component_type_mut(&mut self) -> (r: &mut BlockComponentStorage<ClientBlockPlants>) {
        &mut self.plant
    }
}

impl<F> ComponentTypeAccess<ClientBlockMachine> for ClientChunkBlockComponents<F> {
    type Item = BlockComponentStorage<ClientBlockMachine>;

    open spec fn component(&self) -> BlockComponentStorage<ClientBlockMachine> {
        self.machine
    }

    fn get_component_type(&self) -> (r: &BlockComponentStorage<ClientBlockMachine>) {
        &self.machine
    }

    fn get_component_type_mut(&mut self) -> (r: &mut BlockComponentStorage<ClientBlockMachine>) {
        &mut self.machine
    }
}

/// A new component for a block, or none.
pub enum ClientBlockComponentUpdate<F> {
    ClientBlockDamage(Option<ClientBlockDamage<F>>),
    ClientBlockPlants(Option<ClientBlockPlants>),
    ClientBlockMachine(Option<ClientBlockMachine>),
}

/// Whether a component of a storage can be written or taken away at `offset`.
pub open spec fn can_update<T>(
    storage: BlockComponentStorage<T>,
    offset: ChunkOffset,
    data: Option<T>,
) -> bool {
    &&& storage.wf()
    &&& data is Some && !storage@.contains_key(block_key(offset)) ==> storage.tree.can_set(offset)
    &&& data is None && storage.components@.len() > 0 ==> storage.tree.can_set(
        storage.components@.last().0,
    )
}

fn fits_storage<T>(
    storage: &BlockComponentStorage<T>,
    offset: ChunkOffset,
    data: &Option<T>,
) -> (r: bool)
    requires
        storage.wf(),
    ensures
        r == can_update(*storage, offset, *data),
{
    if data.is_some() {
        storage.get(offset).is_some() || storage.tree.has_room(offset)
    } else if storage.components.len() > 0 {
        storage.tree.has_room(storage.components[storage.components.len() - 1].0)
    } else {
        true
    }
}

/// Whether `after` is `before` with the component at `offset` replaced by `data`.
pub open spec fn is_updated<T>(
    before: BlockComponentStorage<T>,
    after: BlockComponentStorage<T>,
    offset: ChunkOffset,
    data: Option<T>,
) -> bool {
    &&& after.wf()
    &&& after@ == match data {
        Some(data) => before@.insert(block_key(offset), data),
        None => before@.remove(block_key(offset)),
    }
}

fn update_storage<T>(storage: &mut BlockComponentStorage<T>, offset: ChunkOffset, data: Option<T>)
    requires
        can_update(*old(storage), offset, data),
    ensures
        is_updated(*old(storage), *final(storage), offset, data),
{
    match data {
        Some(data) => {
            storage.set(offset, data);
        },
        None => {
            let _ = storage.remove(offset);
        },
    }
}

impl<F> ClientBlockComponentUpdate<F> {
    /// Whether the component of a block can be replaced.
    pub open spec fn can_apply(
        self,
        offset: ChunkOffset,
        components: ClientChunkBlockComponents<F>,
    ) -> bool {
        match self {
            ClientBlockComponentUpdate::ClientBlockDamage(data) => can_update(
                components.damage,
                offset,
                data,
            ),
            ClientBlockComponentUpdate::ClientBlockPlants(data) => can_update(
                components.plant,
                offset,
                data,
            ),
            ClientBlockComponentUpdate::ClientBlockMachine(data) => can_update(
                components.machine,
                offset,
                data,
            ),
        }
    }

    /// Whether `after` is `before` with the component of a block replaced.
    pub open spec fn is_applied(
        self,
        offset: ChunkOffset,
        before: ClientChunkBlockComponents<F>,
        after: ClientChunkBlockComponents<F>,
    ) -> bool {
        match self {
            ClientBlockComponentUpdate::ClientBlockDamage(data) => {
                &&& is_updated(before.damage, after.damage, offset, data)
                &&& after.plant == before.plant
                &&& after.machine == before.machine
            },
            ClientBlockComponentUpdate::ClientBlockPlants(data) => {
                &&& is_updated(before.plant, after.plant, offset, data)
                &&& after.damage == before.damage
                &&& after.machine == before.machine
            },
            ClientBlockComponentUpdate::ClientBlockMachine(data) => {
                &&& is_updated(before.machine, after.machine, offset, data)
                &&& after.damage == before.damage
                &&& after.plant == before.plant
            },
        }
    }

    /// Whether the component of a block can be replaced.
    pub fn fits(&self, offset: ChunkOffset, components: &ClientChunkBlockComponents<F>) -> (r: bool)
        requires
            components.wf(),
        ensures
            r == self.can_apply(offset, *components),
    {
        match self {
            ClientBlockComponentUpdate::ClientBlockDamage(data) => {
                fits_storage(&components.damage, offset, data)
            },
            ClientBlockComponentUpdate::ClientBlockPlants(data) => {
                fits_storage(&components.plant, offset, data)
            },
            ClientBlockComponentUpdate::ClientBlockMachine(data) => {
                fits_storage(&components.machine, offset, data)
            },
        }
    }

    /// Writes the component to its block, or takes the block's component away.
    pub fn update(self, offset: ChunkOffset, components: &mut ClientChunkBlockComponents<F>)
        requires
            self.can_apply(offset, *old(components)),
        ensures
            self.is_applied(offset, *old(components), *final(components)),
    {
        match self {
            ClientBlockComponentUpdate::ClientBlockDamage(data) => {
                update_storage(&mut components.damage, offset, data);
            },
            ClientBlockComponentUpdate::ClientBlockPlants(data) => {
                update_storage(&mut components.plant, offset, data);
            },
            ClientBlockComponentUpdate::ClientBlockMachine(data) => {
                update_storage(&mut components.machine, offset, data);
            },
        }
    }
}

/// A component that was updated is what the update says at its block, of its kind; the components of
/// other blocks and the other kinds stay.
pub proof fn law_component_is_updated<F>(
    update: ClientBlockComponentUpdate<F>,
    offset: ChunkOffset,
    other: ChunkOffset,
    before: ClientChunkBlockComponents<F>,
    after: ClientChunkBlockComponents<F>,
)
    requires
        update.is_applied(offset, before, after),
        block_key(other) != block_key(offset),
    ensures
        update matches ClientBlockComponentUpdate::ClientBlockDamage(data) ==> {
            &&& after.damage@.contains_key(block_key(offset)) == data is Some
            &&& data is Some ==> after.damage@[block_key(offset)] == data->0
            &&& after.damage@.contains_key(block_key(other)) == before.damage@.contains_key(
                block_key(other),
            )
            &&& before.damage@.contains_key(block_key(other)) ==> after.damage@[block_key(other)]
                == before.damage@[block_key(other)]
        },
        update matches ClientBlockComponentUpdate::ClientBlockPlants(data) ==> {
            &&& after.plant@.contains_key(block_key(offset)) == data is Some
            &&& data is Some ==> after.plant@[block_key(offset)] == data->0
            &&& after.plant@.contains_key(block_key(other)) == before.plant@.contains_key(
                block_key(other),
            )
            &&& before.plant@.contains_key(block_key(other)) ==> after.plant@[block_key(other)]
                == before.plant@[block_key(other)]
        },
        update matches ClientBlockComponentUpdate::ClientBlockMachine(data) ==> {
            &&& after.machine@.contains_key(block_key(offset)) == data is Some
            &&& data is Some ==> after.machine@[block_key(offset)] == data->0
            &&& after.machine@.contains_key(block_key(other)) == before.machine@.contains_key(
                block_key(other),
            )
            &&& before.machine@.contains_key(block_key(other)) ==> after.machine@[block_key(other)]
                == before.machine@[block_key(other)]
        },
        !(update is ClientBlockDamage) ==> after.damage == before.damage,
        !(update is ClientBlockPlants) ==> after.plant == before.plant,
        !(update is ClientBlockMachine) ==> after.machine == before.machine,
{
}

/// The components of a storage are those of its list: a block has the component that stands beside its
/// offset.
pub proof fn law_listed_components<T>(storage: BlockComponentStorage<T>, i: int)
    requires
        storage.wf(),
        0 <= i < storage.components@.len(),
    ensures
        storage@.contains_key(block_key(storage.components@[i].0)),
        storage@[block_key(storage.components@[i].0)] == storage.components@[i].1,
        forall|key: int| #[trigger]
            storage@.contains_key(key) ==> exists|j: int|
                0 <= j < storage.components@.len() && block_key(
                    (#[trigger] storage.components@[j]).0,
                ) == key,
{
    assert forall|key: int| #[trigger] storage@.contains_key(key) implies exists|j: int|
        0 <= j < storage.components@.len() && block_key((#[trigger] storage.components@[j]).0)
            == key by {
        assert(storage.tree@.contains_key(key));
        let j = storage.tree@[key] as int;
        assert(block_key(storage.components@[j].0) == key);
    }
}

} // verus!
