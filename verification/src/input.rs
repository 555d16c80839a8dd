//! Keys and buttons that are held down.

use std::collections::{HashMap, HashSet};
use vstd::prelude::*;

verus! {

/// A mouse button.
#[derive(Copy, Clone, PartialEq, Eq, Structural, Debug)]
pub enum MouseButton {
    Left,
    Right,
    Middle,
    Back,
    Forward,
    Other(u16),
}

impl MouseButton {
    /// The number by which a button is found.
    pub open spec fn code_spec(self) -> u32 {
        match self {
            MouseButton::Left => 0,
            MouseButton::Right => 1,
            MouseButton::Middle => 2,
            MouseButton::Back => 3,
            MouseButton::Forward => 4,
            MouseButton::Other(id) => (5 + id) as u32,
        }
    }

    /// The number by which a button is found.
    pub fn code(self) -> (r: u32)
        ensures
            r == self.code_spec(),
    {
        match self {
            MouseButton::Left => 0,
            MouseButton::Right => 1,
            MouseButton::Middle => 2,
            MouseButton::Back => 3,
            MouseButton::Forward => 4,
            MouseButton::Other(id) => 5 + id as u32,
        }
    }
}

/// No two buttons have the same number.
pub proof fn law_button_code_unique(a: MouseButton, b: MouseButton)
    requires
        a.code_spec() == b.code_spec(),
    ensures
        a == b,
{
}

/// The inputs of one kind: which are held, which were pressed or released in this frame, and for how
/// long each is held. `F` is the type of a time.
pub struct InputContainer<F> {
    down: HashSet<u32>,
    just_down: HashSet<u32>,
    just_up: HashSet<u32>,
    held_for: HashMap<u32, F>,
}

/// What an input container holds.
pub struct InputModel<F> {
    pub down: Set<u32>,
    pub just_down: Set<u32>,
    pub just_up: Set<u32>,
    pub held_for: Map<u32, F>,
}

impl<F> View for InputContainer<F> {
    type V = InputModel<F>;

    closed spec fn view(&self) -> InputModel<F> {
        InputModel {
            down: self.down@,
            just_down: self.just_down@,
            just_up: self.just_up@,
            held_for: self.held_for@,
        }
    }
}

impl<F: Copy> InputContainer<F> {
    /// Nothing is held.
    pub fn new() -> (r: InputContainer<F>)
        ensures
            r@.down == Set::<u32>::empty(),
            r@.just_down == Set::<u32>::empty(),
            r@.just_up == Set::<u32>::empty(),
            r@.held_for == Map::<u32, F>::empty(),
    {
        InputContainer {
            down: HashSet::new(),
            just_down: HashSet::new(),
            just_up: HashSet::new(),
            held_for: HashMap::new(),
        }
    }

    /// An input is pressed; it is held for no time yet.
    pub fn press(&mut self, input: u32, no_time: F)
        ensures
            final(self)@ == (InputModel {
                down: old(self)@.down.insert(input),
                just_down: old(self)@.just_down.insert(input),
                just_up: old(self)@.just_up,
                held_for: old(self)@.held_for.insert(input, no_time),
            }),
    {
        broadcast use vstd::std_specs::hash::group_hash_axioms;

        self.down.insert(input);
        self.just_down.insert(input);
        self.held_for.insert(input, no_time);
    }

    /// An input is released.
    pub fn release(&mut self, input: u32)
        ensures
            final(self)@ == (InputModel {
                down: old(self)@.down.remove(input),
                just_down: old(self)@.just_down,
                just_up: old(self)@.just_up.insert(input),
                held_for: old(self)@.held_for.remove(input),
            }),
    {
        broadcast use vstd::std_specs::hash::group_hash_axioms;

        self.down.remove(&input);
        self.just_up.insert(input);
        self.held_for.remove(&input);
    }

    /// A frame is over: nothing was pressed or released just now, and everything that is held has
    /// been held longer. `longer` gives the new time.
    pub fn frame_clear(&mut self, longer: impl Fn(F) -> F)
        requires
            forall|time: F| call_requires(longer, (time,)),
        ensures
            final(self)@.down == old(self)@.down,
            final(self)@.just_down == Set::<u32>::empty(),
            final(self)@.just_up == Set::<u32>::empty(),
            final(self)@.held_for.dom() == old(self)@.held_for.dom(),
            forall|input: u32| #[trigger]
                old(self)@.held_for.contains_key(input) ==> call_ensures(
                    longer,
                    (old(self)@.held_for[input],),
                    final(self)@.held_for[input],
                ),
    {
        broadcast use vstd::std_specs::hash::group_hash_axioms;

        self.just_down.clear();
        self.just_up.clear();
        let mut held: HashMap<u32, F> = HashMap::new();
        let ghost before = self.held_for@;
        for (input, time) in it: self.held_for.iter()
            invariant
                forall|time: F| call_requires(longer, (time,)),
                before == self.held_for@,
                forall|i: int|
                    0 <= i < it.index() ==> held@.contains_key(*(#[trigger] it.seq()[i]).0),
                forall|key: u32| #[trigger]
                    held@.contains_key(key) ==> before.contains_key(key) && call_ensures(
                        longer,
                        (before[key],),
                        held@[key],
                    ),
        {
            held.insert(*input, longer(*time));
        }
        self.held_for = held;
    }

    /// Whether an input is held.
    pub fn is_down(&self, input: u32) -> (r: bool)
        ensures
            r == self@.down.contains(input),
    {
        broadcast use vstd::std_specs::hash::group_hash_axioms;

        self.down.contains(&input)
    }

    /// Whether an input was pressed in this frame.
    pub fn is_just_down(&self, input: u32) -> (r: bool)
        ensures
            r == self@.just_down.contains(input),
    {
        broadcast use vstd::std_specs::hash::group_hash_axioms;

        self.just_down.contains(&input)
    }

    /// Whether an input was released in this frame.
    pub fn is_just_up(&self, input: u32) -> (r: bool)
        ensures
            r == self@.just_up.contains(input),
    {
        broadcast use vstd::std_specs::hash::group_hash_axioms;

        self.just_up.contains(&input)
    }

    /// How long an input has been held, `no_time` if it is not.
    pub fn held_time(&self, input: u32, no_time: F) -> (r: F)
        ensures
            r == if self@.held_for.contains_key(input) {
                self@.held_for[input]
            } else {
                no_time
            },
    {
        broadcast use vstd::std_specs::hash::group_hash_axioms;

        match self.held_for.get(&input) {
            Some(time) => *time,
            None => no_time,
        }
    }
}

}
