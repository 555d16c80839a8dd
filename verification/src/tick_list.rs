//! Which components of a chunk tick, and when sleeping ones wake up.

use crate::component_tree::{block_key, BlockComponentTree};
use crate::coord::ChunkOffset;
use num_integer::Integer;
use priority_queue::PriorityQueue;
use std::hash::RandomState;
use vstd::prelude::*;
use vstd::std_specs::bits::u64_trailing_zeros;

verus! {

/// The queue of `priority_queue`.
#[verifier::external_type_specification]
#[verifier::external_body]
#[verifier::reject_recursive_types(I)]
#[verifier::reject_recursive_types(P)]
#[verifier::reject_recursive_types(H)]
pub struct ExPriorityQueue<I, P, H>(PriorityQueue<I, P, H>);

/// The items of a queue with their priorities.
pub uninterp spec fn queue_items(queue: PriorityQueue<u16, u64, RandomState>) -> Map<u16, u64>;

/// No items.
pub open spec fn no_items() -> Map<u16, u64> {
    Map::empty()
}

/// An empty queue.
///
/// `PriorityQueue::new`: the queue holds nothing.
#[verifier::external_body]
fn queue_new() -> (r: PriorityQueue<u16, u64, RandomState>)
    ensures
        queue_items(r) == no_items(),
{
    PriorityQueue::new()
}

/// Puts an item into a queue, or gives it a new priority.
///
/// `PriorityQueue::push`: the item has the given priority after the call, the others keep theirs.
#[verifier::external_body]
fn queue_push(queue: &mut PriorityQueue<u16, u64, RandomState>, item: u16, priority: u64)
    ensures
        queue_items(*final(queue)) == queue_items(*old(queue)).insert(item, priority),
{
    queue.push(item, priority);
}

/// An item with the greatest priority.
///
/// `PriorityQueue::peek`: an item of the queue that no other exceeds, `None` if the queue is empty.
#[verifier::external_body]
fn queue_peek(queue: &PriorityQueue<u16, u64, RandomState>) -> (r: Option<(u16, u64)>)
    ensures
        match r {
            Some((item, priority)) => {
                &&& queue_items(*queue).contains_key(item)
                &&& queue_items(*queue)[item] == priority
                &&& forall|other: u16| #[trigger]
                    queue_items(*queue).contains_key(other) ==> queue_items(*queue)[other]
                        <= priority
            },
            None => queue_items(*queue) == no_items(),
        },
{
    queue.peek().map(|(item, priority)| (*item, *priority))
}

/// Takes an item with the greatest priority out of a queue.
///
/// `PriorityQueue::pop`: an item of the queue that no other exceeds leaves it, and is returned with
/// its priority; `None` if the queue is empty.
#[verifier::external_body]
fn queue_pop(queue: &mut PriorityQueue<u16, u64, RandomState>) -> (r: Option<(u16, u64)>)
    ensures
        match r {
            Some((item, priority)) => {
                &&& queue_items(*old(queue)).contains_key(item)
                &&& queue_items(*old(queue))[item] == priority
                &&& forall|other: u16| #[trigger]
                    queue_items(*old(queue)).contains_key(other) ==> queue_items(*old(queue))[other]
                        <= priority
                &&& queue_items(*final(queue)) == queue_items(*old(queue)).remove(item)
            },
            None => queue_items(*old(queue)) == no_items() && queue_items(
                *final(queue),
            ) == queue_items(*old(queue)),
        },
{
    queue.pop()
}

/// Takes an item out of a queue.
///
/// `PriorityQueue::remove`: the item leaves the queue, if it is there; the others stay.
#[verifier::external_body]
fn queue_remove(queue: &mut PriorityQueue<u16, u64, RandomState>, item: u16)
    ensures
        queue_items(*final(queue)) == queue_items(*old(queue)).remove(item),
{
    queue.remove(&item);
}

/// The priority of an item.
///
/// `PriorityQueue::get_priority`: the item's priority, `None` if the queue does not hold it.
#[verifier::external_body]
fn queue_get_priority(queue: &PriorityQueue<u16, u64, RandomState>, item: u16) -> (r: Option<u64>)
    ensures
        r == if queue_items(*queue).contains_key(item) {
            Some(queue_items(*queue)[item])
        } else {
            None
        },
{
    queue.get_priority(&item).cloned()
}

/// A queue with the same items and priorities.
///
/// `PriorityQueue::clone`, which copies every item with its priority.
#[verifier::external_body]
fn queue_clone(queue: &PriorityQueue<u16, u64, RandomState>) -> (r: PriorityQueue<
    u16,
    u64,
    RandomState,
>)
    ensures
        queue_items(r) == queue_items(*queue),
{
    queue.clone()
}

/// Quotient and remainder of a division.
///
/// `Integer::div_mod_floor` of `num_integer`: on unsigned numbers the results of `/` and `%`.
#[verifier::external_body]
fn div_mod_floor(a: usize, b: usize) -> (r: (usize, usize))
    requires
        b > 0,
    ensures
        r.0 == a / b,
        r.1 == a % b,
{
    a.div_mod_floor(&b)
}

/// Whether bit `k` of `word` is set.
pub open spec fn bit(word: u64, k: int) -> bool {
    (word >> (k as u64)) & 1 == 1
}

proof fn lemma_bit_set(word: u64, s: u64, k: u64)
    requires
        s < 64,
        k < 64,
    ensures
        bit(word | (1u64 << s), k as int) == (k == s || bit(word, k as int)),
        bit(word & !(1u64 << s), k as int) == (k != s && bit(word, k as int)),
        (word >> s) & 1 == 0 || (word >> s) & 1 == 1,
{
    assert((((word | (1u64 << s)) >> k) & 1 == 1) == (k == s || (word >> k) & 1 == 1))
        by (bit_vector)
        requires
            s < 64,
            k < 64,
    ;
    assert((((word & !(1u64 << s)) >> k) & 1 == 1) == (k != s && (word >> k) & 1 == 1))
        by (bit_vector)
        requires
            s < 64,
            k < 64,
    ;
    assert((word >> s) & 1 == 0 || (word >> s) & 1 == 1) by (bit_vector);
}

proof fn lemma_bit_shift(word: u64, n: u64, k: u64)
    requires
        n + k < 64,
    ensures
        bit(word >> n, k as int) == bit(word, n + k),
{
    let m = (n + k) as u64;
    assert(((word >> n) >> k) & 1 == (word >> m) & 1) by (bit_vector)
        requires
            n + k < 64,
            m == n + k,
    ;
}

proof fn lemma_bit_zero(k: u64)
    ensures
        !bit(0, k as int),
{
    assert((0u64 >> k) & 1 == 0) by (bit_vector);
}

/// Which ids are marked in a list of words, 64 to a word.
pub open spec fn marked(words: Seq<u64>, id: int) -> bool {
    0 <= id < words.len() * 64 && bit(words[id / 64], id % 64)
}

/// The marked ids.
pub open spec fn marked_ids(words: Seq<u64>) -> Set<int> {
    Set::new(|id: int| marked(words, id))
}

proof fn lemma_marked_finite(words: Seq<u64>)
    ensures
        marked_ids(words).finite(),
        marked_ids(words).len() <= words.len() * 64,
{
    let top = (words.len() * 64) as int;
    let all = vstd::set_lib::set_int_range(0, top);
    vstd::set_lib::lemma_int_range(0, top);
    assert(marked_ids(words).subset_of(all));
    vstd::set_lib::lemma_len_subset(marked_ids(words), all);
}

/// The components that tick, by their index, and the time at which each sleeping one wakes up.
pub struct BlockTickList {
    pub tick_mask: Vec<u64>,
    pub ticking_count: usize,
    pub wakeup_timer: PriorityQueue<u16, u64, RandomState>,
}

impl BlockTickList {
    /// The indices of the components that tick.
    pub open spec fn ticking(self) -> Set<int> {
        marked_ids(self.tick_mask@)
    }

    /// The times at which blocks wake up.
    pub open spec fn timers(self) -> Map<u16, u64> {
        queue_items(self.wakeup_timer)
    }

    /// Whether the count is the number of components that tick.
    pub open spec fn wf(self) -> bool {
        &&& self.ticking_count == self.ticking().len()
        &&& self.tick_mask@.len() <= usize::MAX / 64
        &&& self.timers().dom().finite()
    }

    /// Starts or stops the component `id`.
    pub fn set_ticking(&mut self, id: usize, ticking: bool)
        requires
            old(self).wf(),
            id / 64 < usize::MAX / 64,
        ensures
            final(self).wf(),
            final(self).ticking() == if ticking {
                old(self).ticking().insert(id as int)
            } else {
                old(self).ticking().remove(id as int)
            },
            final(self).timers() == old(self).timers(),
    {
        let (index, shift): (usize, usize) = div_mod_floor(id, 64);
        let ghost start = *self;
        if index >= self.tick_mask.len() {
            self.tick_mask.resize(index + 1, 0);
        }
        let ghost mid = self.tick_mask@;
        proof {
            assert forall|i: int| marked(mid, i) == marked(start.tick_mask@, i) by {
                lemma_bit_zero((i % 64) as u64);
                if 0 <= i < start.tick_mask@.len() * 64 {
                    assert(mid[i / 64] == mid.subrange(0, start.tick_mask@.len() as int)[i / 64]);
                }
            }
            assert(marked_ids(mid) =~= start.ticking());
            lemma_marked_finite(mid);
            lemma_bit_set(mid[index as int], shift as u64, shift as u64);
        }
        let word: u64 = self.tick_mask[index];
        let previous = ((word >> (shift as u64)) & 1) != 0;
        assert(previous == start.ticking().contains(id as int));
        let word: u64 = if ticking {
            word | (1u64 << (shift as u64))
        } else {
            word & !(1u64 << (shift as u64))
        };
        self.tick_mask.set(index, word);
        proof {
            let after = if ticking {
                start.ticking().insert(id as int)
            } else {
                start.ticking().remove(id as int)
            };
            assert forall|i: int| marked(self.tick_mask@, i) == after.contains(i) by {
                if 0 <= i < mid.len() * 64 {
                    lemma_bit_set(mid[index as int], shift as u64, (i % 64) as u64);
                }
                assert(marked(mid, i) == start.ticking().contains(i));
            }
            assert(marked_ids(self.tick_mask@) =~= after);
            if previous {
                assert(start.ticking().len() > 0) by {
                    if start.ticking().len() == 0 {
                        assert(start.ticking() =~= Set::<int>::empty());
                    }
                }
            }
            lemma_marked_finite(self.tick_mask@);
        }
        if !previous && ticking {
            self.ticking_count = self.ticking_count + 1;
        } else if previous && !ticking {
            self.ticking_count = self.ticking_count - 1;
        }
    }

    /// Whether the component `id` ticks.
    pub fn get_ticking(&mut self, id: usize) -> (r: bool)
        ensures
            *final(self) == *old(self),
            r == old(self).ticking().contains(id as int),
    {
        let (index, shift): (usize, usize) = div_mod_floor(id, 64);
        if index >= self.tick_mask.len() {
            return false;
        }
        proof {
            lemma_bit_set(self.tick_mask@[index as int], shift as u64, shift as u64);
        }
        ((self.tick_mask[index] >> (shift as u64)) & 1) != 0
    }

    /// Follows the removal of a component: the last of the list takes the place of the removed one,
    /// and whether it ticks moves with it. The removed block no longer wakes up.
    pub fn remove(&mut self, block: ChunkOffset, remove_index: usize, components_length: usize)
        requires
            old(self).wf(),
            components_length >= 1,
            components_length / 64 < usize::MAX / 64,
            remove_index < components_length,
        ensures
            final(self).wf(),
            final(self).timers() == old(self).timers().remove(block.0),
            forall|id: int| #[trigger]
                final(self).ticking().contains(id) == (id != components_length - 1 && old(
                    self,
                ).ticking().contains(
                    if id == remove_index {
                        components_length - 1
                    } else {
                        id
                    },
                )),
    {
        queue_remove(&mut self.wakeup_timer, block.0);
        let last_index: usize = components_length - 1;
        if remove_index != last_index {
            let moved_ticking = self.get_ticking(last_index);
            self.set_ticking(remove_index, moved_ticking);
        }
        self.set_ticking(last_index, false);
    }

    /// Puts a block to sleep until `at`.
    pub fn schedule_wakeup(&mut self, block: ChunkOffset, at: u64)
        requires
            old(self).wf(),
        ensures
            final(self).wf(),
            final(self).ticking() == old(self).ticking(),
            final(self).timers() == old(self).timers().insert(block.0, at),
    {
        queue_push(&mut self.wakeup_timer, block.0, at);
    }

    /// The time at which a block wakes up.
    pub fn get_scheduled_wakeup_in(&self, block: ChunkOffset) -> (r: Option<u64>)
        ensures
            r == if self.timers().contains_key(block.0) {
                Some(self.timers()[block.0])
            } else {
                None
            },
    {
        queue_get_priority(&self.wakeup_timer, block.0)
    }
}

/// Whether every timer has run out at `now`.
pub open spec fn all_due(timers: Map<u16, u64>, now: u64) -> bool {
    forall|block: u16| #[trigger] timers.contains_key(block) ==> timers[block] <= now
}

/// The components that belong to the blocks of `timers`.
pub open spec fn woken(timers: Map<u16, u64>, tree: Map<int, u16>) -> Set<int> {
    Set::new(
        |id: int|
            exists|block: u16| #[trigger]
                timers.contains_key(block) && tree[block_key(ChunkOffset(block))] == id,
    )
}

impl BlockTickList {
    /// Wakes the sleeping blocks up if even the last of them is due. As long as one is not, all
    /// stay asleep.
    pub fn process_timer(&mut self, current_ticks_passed: u64, tree: &BlockComponentTree)
        requires
            old(self).wf(),
            tree.wf(),
            all_due(old(self).timers(), current_ticks_passed) ==> forall|block: u16| #[trigger]
                old(self).timers().contains_key(block) ==> tree@.contains_key(
                    block_key(ChunkOffset(block)),
                ),
        ensures
            final(self).wf(),
            all_due(old(self).timers(), current_ticks_passed) ==> {
                &&& final(self).timers() == no_items()
                &&& final(self).ticking() == old(self).ticking().union(
                    woken(old(self).timers(), tree@),
                )
            },
            !all_due(old(self).timers(), current_ticks_passed) ==> {
                &&& final(self).timers() == old(self).timers()
                &&& final(self).ticking() == old(self).ticking()
            },
    {
        let ghost start = *self;
        let ghost timers = self.timers();
        assert(start.ticking().union(woken(no_items(), tree@)) =~= start.ticking());
        assert(timers.remove_keys(timers.dom()) =~= no_items());
        let ghost mut done: Map<u16, u64> = no_items();
        loop
            invariant
                self.wf(),
                tree.wf(),
                start == *old(self),
                timers == start.timers(),
                done.submap_of(timers),
                self.timers() == timers.remove_keys(done.dom()),
                self.ticking() == start.ticking().union(woken(done, tree@)),
                done != no_items() ==> all_due(timers, current_ticks_passed),
                all_due(timers, current_ticks_passed) ==> forall|block: u16| #[trigger]
                    timers.contains_key(block) ==> tree@.contains_key(
                        block_key(ChunkOffset(block)),
                    ),
            decreases self.timers().dom().len(),
        {
            let head_timer: u64 = match queue_peek(&self.wakeup_timer) {
                Some((_, at)) => at,
                None => {
                    proof {
                        assert forall|block: u16| #[trigger] timers.contains_key(
                            block,
                        ) implies done.contains_key(block) by {
                            assert(!self.timers().contains_key(block));
                        }
                        assert(done =~= timers);
                        if timers == no_items() {
                            assert(woken(timers, tree@) =~= Set::<int>::empty());
                        }
                    }
                    return;
                },
            };
            if head_timer <= current_ticks_passed {
                proof {
                    if done == no_items() {
                        assert(timers.remove_keys(done.dom()) =~= timers);
                        assert forall|block: u16| #[trigger] timers.contains_key(
                            block,
                        ) implies timers[block] <= current_ticks_passed by {
                            assert(self.timers().contains_key(block));
                        }
                    }
                }
                let ghost before = self.timers();
                if let Some((block, _)) = queue_pop(&mut self.wakeup_timer) {
                    proof {
                        assert(timers.contains_key(block));
                        let next = done.insert(block, timers[block]);
                        assert(before.remove(block) =~= timers.remove_keys(next.dom()));
                        assert(before.dom().remove(block) =~= before.remove(block).dom());
                        let id = tree@[block_key(ChunkOffset(block))] as int;
                        assert(woken(next, tree@) =~= woken(done, tree@).insert(id)) by {
                            assert(next.contains_key(block));
                            assert forall|i: int| woken(done, tree@).insert(id).contains(
                                i,
                            ) implies woken(next, tree@).contains(i) by {
                                if i == id {
                                    assert(next.contains_key(block));
                                } else {
                                    let b = choose|b: u16| #[trigger]
                                        done.contains_key(b) && tree@[block_key(ChunkOffset(b))]
                                            == i;
                                    assert(next.contains_key(b));
                                }
                            }
                        }
                        assert(start.ticking().union(woken(done, tree@)).insert(id)
                            =~= start.ticking().union(woken(next, tree@)));
                        done = next;
                        assert(done.contains_key(block));
                    }
                    let id: u16 = tree.get(ChunkOffset(block)).unwrap();
                    self.set_ticking(id as usize, true);
                }
            } else {
                proof {
                    let late = choose|block: u16| #[trigger]
                        self.timers().contains_key(block) && self.timers()[block] == head_timer;
                    assert(timers.contains_key(late) && timers[late] > current_ticks_passed);
                    assert(timers.remove_keys(done.dom()) =~= timers);
                    assert(woken(done, tree@) =~= Set::<int>::empty());
                }
                return;
            }
        }
    }

    /// A walk over the components that tick.
    pub fn start_index(&self) -> (r: BlockTickIndex)
        ensures
            r.wf(),
            r.upcoming(*self) == self.ticking(),
    {
        let current_bits: u64 = if self.tick_mask.is_empty() {
            0
        } else {
            self.tick_mask[0]
        };
        let r = BlockTickIndex { big_index: 0, internal_index: 0, current_bits };
        proof {
            assert forall|id: int| r.is_upcoming(*self, id) == marked(self.tick_mask@, id) by {
                if 0 <= id < 64 {
                    lemma_bit_zero(id as u64);
                }
            }
            assert(r.upcoming(*self) =~= self.ticking());
        }
        r
    }

    /// The next component of a walk: the least that is left of it, which then leaves it.
    pub fn next_index(&self, index: &mut BlockTickIndex) -> (r: Option<usize>)
        requires
            self.wf(),
            old(index).wf(),
        ensures
            final(index).wf(),
            match r {
                Some(id) => {
                    &&& old(index).upcoming(*self).contains(id as int)
                    &&& forall|other: int| #[trigger]
                        old(index).upcoming(*self).contains(other) ==> id <= other
                    &&& final(index).upcoming(*self) == old(index).upcoming(*self).remove(id as int)
                },
                None => {
                    &&& old(index).upcoming(*self) == Set::<int>::empty()
                    &&& final(index).upcoming(*self) == Set::<int>::empty()
                },
            },
    {
        let ghost start = *index;
        loop
            invariant
                self.wf(),
                index.wf(),
                start == *old(index),
                index.upcoming(*self) =~= start.upcoming(*self),
            decreases self.tick_mask@.len() + 1 - index.big_index,
        {
            let ghost before = *index;
            let zeros: usize = index.current_bits.trailing_zeros() as usize;
            proof {
                vstd::std_specs::bits::axiom_u64_trailing_zeros(before.current_bits);
                lemma_no_bits();
                if before.current_bits != 0 {
                    assert(bit(before.current_bits, zeros as int));
                }
            }
            let next: usize = zeros + 1;
            if index.internal_index + next > 64 {
                proof {
                    assert(before.current_bits == 0);
                }
                if index.big_index >= self.tick_mask.len() {
                    index.internal_index = 0;
                    index.current_bits = 0;
                    proof {
                        lemma_none_upcoming(before, *self);
                        lemma_none_upcoming(*index, *self);
                    }
                    return None;
                }
                index.big_index = index.big_index + 1;
                index.internal_index = 0;
                index.current_bits = 0;
                if index.big_index >= self.tick_mask.len() {
                    proof {
                        lemma_none_upcoming(before, *self);
                        lemma_none_upcoming(*index, *self);
                    }
                    return None;
                }
                index.current_bits = self.tick_mask[index.big_index];
                proof {
                    assert forall|id: int| before.is_upcoming(*self, id) == index.is_upcoming(
                        *self,
                        id,
                    ) by {
                        lemma_no_bits();
                    }
                }
            } else {
                index.internal_index = index.internal_index + next;
                index.current_bits = if next >= 64 {
                    0
                } else {
                    index.current_bits >> (next as u64)
                };
                proof {
                    lemma_advance(before, *index, *self, next as int);
                }
                let id: usize = index.big_index * 64 + (index.internal_index - 1);
                return Some(id);
            }
        }
    }
}

/// Where a walk over the components that tick stands: the bits of the word that it is in, without
/// those behind it, and the number of those.
pub struct BlockTickIndex {
    big_index: usize,
    internal_index: usize,
    current_bits: u64,
}

impl BlockTickIndex {
    /// Whether the word holds no bits beyond its end.
    pub closed spec fn wf(self) -> bool {
        &&& self.internal_index <= 64
        &&& self.big_index <= usize::MAX / 64
        &&& forall|k: int|
            64 - self.internal_index <= k < 64 ==> !#[trigger] bit(self.current_bits, k)
    }

    /// Whether the walk over `list` has not met `id` yet: it is in the word at hand, or in a later
    /// one.
    spec fn is_upcoming(self, list: BlockTickList, id: int) -> bool {
        let at = self.big_index * 64 + self.internal_index;
        if id / 64 == self.big_index {
            at <= id && bit(self.current_bits, id - at)
        } else {
            id / 64 > self.big_index && marked(list.tick_mask@, id)
        }
    }

    /// What is left of the walk over `list`.
    pub closed spec fn upcoming(self, list: BlockTickList) -> Set<int> {
        Set::new(|id: int| self.is_upcoming(list, id))
    }
}

proof fn lemma_no_bits()
    ensures
        forall|k: int| 0 <= k < 64 ==> !#[trigger] bit(0, k),
{
    assert forall|k: int| 0 <= k < 64 implies !#[trigger] bit(0, k) by {
        lemma_bit_zero(k as u64);
    }
}

proof fn lemma_none_upcoming(index: BlockTickIndex, list: BlockTickList)
    requires
        index.current_bits == 0,
        index.big_index + 1 >= list.tick_mask@.len(),
    ensures
        index.upcoming(list) =~= Set::<int>::empty(),
{
    lemma_no_bits();
}

proof fn lemma_advance(
    before: BlockTickIndex,
    after: BlockTickIndex,
    list: BlockTickList,
    next: int,
)
    requires
        before.wf(),
        before.current_bits != 0,
        next == u64_trailing_zeros(before.current_bits) + 1,
        before.internal_index + next <= 64,
        after.big_index == before.big_index,
        after.internal_index == before.internal_index + next,
        after.current_bits == if next >= 64 {
            0
        } else {
            before.current_bits >> (next as u64)
        },
    ensures
        after.wf(),
        ({
            let id = before.big_index * 64 + after.internal_index - 1;
            &&& before.upcoming(list).contains(id)
            &&& forall|other: int| #[trigger] before.upcoming(list).contains(other) ==> id <= other
            &&& after.upcoming(list) =~= before.upcoming(list).remove(id)
        }),
{
    vstd::std_specs::bits::axiom_u64_trailing_zeros(before.current_bits);
    lemma_no_bits();
    let bits = before.current_bits;
    let zeros = u64_trailing_zeros(bits) as int;
    let at = before.big_index * 64 + before.internal_index;
    let id = before.big_index * 64 + after.internal_index - 1;
    assert(bit(bits, zeros));
    assert forall|k: int| 0 <= k < zeros implies !#[trigger] bit(bits, k) by {
        assert((bits >> (k as u64)) & 1u64 == 0u64);
    }
    assert forall|k: int| 0 <= k && k + next < 64 implies #[trigger] bit(after.current_bits, k)
        == bit(bits, k + next) by {
        lemma_bit_shift(bits, next as u64, k as u64);
    }
    assert forall|k: int| 64 - next <= k < 64 implies !#[trigger] bit(after.current_bits, k) by {
        if next < 64 {
            lemma_bit_shifted_out(bits, next as u64, k as u64);
        }
    }
    assert forall|k: int| 64 - after.internal_index <= k < 64 implies !#[trigger] bit(
        after.current_bits,
        k,
    ) by {
        if k + next < 64 {
            assert(bit(after.current_bits, k) == bit(bits, k + next));
        }
    }
    assert(id / 64 == before.big_index);
    assert(before.is_upcoming(list, id));
    assert forall|other: int| #[trigger] before.is_upcoming(list, other) implies id <= other by {
        if other / 64 == before.big_index {
            assert(bit(bits, other - at));
        }
    }
    assert forall|other: int| #[trigger] after.is_upcoming(list, other) == (other != id
        && before.is_upcoming(list, other)) by {
        if other / 64 == before.big_index {
            let k = other - (at + next);
            if k >= 0 {
                assert(0 <= k < 64);
                if k + next < 64 {
                    assert(bit(after.current_bits, k) == bit(bits, k + next));
                }
            } else if other >= at && other != id {
                assert(!bit(bits, other - at));
            }
        }
    }
}

proof fn lemma_bit_shifted_out(word: u64, n: u64, k: u64)
    requires
        n < 64,
        k < 64,
        n + k >= 64,
    ensures
        !bit(word >> n, k as int),
{
    assert(((word >> n) >> k) & 1 == 0) by (bit_vector)
        requires
            n < 64,
            k < 64,
            n + k >= 64,
    ;
}

impl Default for BlockTickList {
    fn default() -> (r: BlockTickList)
        ensures
            r.wf(),
            r.ticking() == Set::<int>::empty(),
            r.timers() == Map::<u16, u64>::empty(),
    {
        let r = BlockTickList {
            tick_mask: Vec::new(),
            ticking_count: 0,
            wakeup_timer: queue_new(),
        };
        assert(r.ticking() =~= Set::<int>::empty());
        r
    }
}

impl Clone for BlockTickList {
    fn clone(&self) -> (r: BlockTickList)
        ensures
            r.tick_mask@ == self.tick_mask@,
            r.ticking_count == self.ticking_count,
            r.timers() == self.timers(),
            r.wf() == self.wf(),
    {
        let mut tick_mask: Vec<u64> = Vec::new();
        let mut i: usize = 0;
        while i < self.tick_mask.len()
            invariant
                i <= self.tick_mask@.len(),
                tick_mask@ == self.tick_mask@.take(i as int),
            decreases self.tick_mask@.len() - i,
        {
            tick_mask.push(self.tick_mask[i]);
            assert(tick_mask@ =~= self.tick_mask@.take(i + 1));
            i += 1;
        }
        assert(tick_mask@ =~= self.tick_mask@);
        BlockTickList {
            tick_mask,
            ticking_count: self.ticking_count,
            wakeup_timer: queue_clone(&self.wakeup_timer),
        }
    }
}

/// A sleeping block is due from its time on, several are due when each of them is, and a block that
/// wakes up starts its own component.
pub proof fn law_due_blocks(timers: Map<u16, u64>, block: u16, at: u64, now: u64, tree: Map<int, u16>, id: int)
    ensures
        all_due(no_items(), now),
        all_due(no_items().insert(block, at), now) <==> at <= now,
        all_due(timers, now) ==> (all_due(timers.insert(block, at), now) <==> at <= now),
        block < 32768 ==> (woken(no_items().insert(block, at), tree).contains(id) <==> tree[block as int]
            == id),
        woken(timers, tree).contains(id) && !timers.contains_key(block) ==> woken(
            timers.insert(block, at),
            tree,
        ).contains(id),
        !woken(no_items(), tree).contains(id),
{
    let one = no_items().insert(block, at);
    assert(one.contains_key(block));
    assert(one[block] == at);
    let more = timers.insert(block, at);
    assert(more.contains_key(block) && more[block] == at);
    if all_due(timers, now) && at <= now {
        assert forall|other: u16| #[trigger] more.contains_key(other) implies more[other] <= now by {
            if other != block {
                assert(timers.contains_key(other));
            }
        }
    }
    if woken(timers, tree).contains(id) && !timers.contains_key(block) {
        let other = choose|other: u16| #[trigger]
            timers.contains_key(other) && tree[block_key(ChunkOffset(other))] == id;
        assert(more.contains_key(other));
    }
}

} // verus!
