//! The keys of a frame: which of them were pressed, and what they do one after the other.

use crate::client_game::{ClientGame, HOTBAR_SLOTS};
use crate::controls::variation_key;
use crate::input::{InputContainer, InputModel, MouseButton};
use crate::net::{ClientItem, EntityAction, NetworkMessageC2S};
use crate::raycast::RayCastResult;
use crate::registry::ItemKey;
use vstd::prelude::*;

verus! {

pub const KEY_FORWARD: u32 = 0;

pub const KEY_BACK: u32 = 1;

pub const KEY_LEFT: u32 = 2;

pub const KEY_RIGHT: u32 = 3;

pub const KEY_JUMP: u32 = 4;

pub const KEY_CROUCH: u32 = 5;

pub const KEY_RUN: u32 = 6;

pub const KEY_VARIANT: u32 = 7;

pub const KEY_INTERACT: u32 = 8;

pub const KEY_DROP: u32 = 9;

pub const KEY_ESCAPE: u32 = 10;

pub const KEY_INVENTORY: u32 = 11;

pub const KEY_VISUALIZE: u32 = 12;

/// The key of the first slot of the hotbar; those of the others follow.
pub const KEY_DIGITS: u32 = 13;

/// What the player has chosen: the slot, the variation of each item, and whether the hand shows it
/// yet.
#[verifier::ext_equal]
pub struct Chosen {
    pub slot: usize,
    pub needs_equip: bool,
    pub variations: Map<u128, usize>,
}

impl Chosen {
    /// The variation of an item.
    pub open spec fn variation(self, item: ItemKey) -> usize {
        if self.variations.contains_key(variation_key(item)) {
            self.variations[variation_key(item)]
        } else {
            0
        }
    }

    /// With another slot chosen.
    pub open spec fn with_slot(
        self,
        slots: Seq<Option<ClientItem>>,
        has_item: bool,
        slot: usize,
    ) -> Chosen {
        Chosen {
            slot,
            needs_equip: self.needs_equip || slots[slot as int] is Some || has_item,
            ..self
        }
    }

    /// With another variation of an item chosen.
    pub open spec fn with_variation(self, item: ItemKey, variation: usize, needs_equip: bool) -> Chosen {
        Chosen {
            variations: self.variations.insert(variation_key(item), variation),
            needs_equip: self.needs_equip || needs_equip,
            ..self
        }
    }
}

/// Whether a key of the hotbar was pressed.
pub open spec fn is_digit_pressed<F>(keys: InputModel<F>, slot: int) -> bool {
    keys.just_down.contains((KEY_DIGITS + slot) as u32)
}

/// Whether variations are chosen rather than slots.
pub open spec fn is_varying<F>(keys: InputModel<F>) -> bool {
    keys.down.contains(KEY_VARIANT)
}

/// Whether it is known of each item how many variations it has.
pub open spec fn are_counted(slots: Seq<Option<ClientItem>>, counts: Seq<usize>) -> bool {
    forall|i: int|
        0 <= i < slots.len() && (#[trigger] slots[i]) is Some ==> slots[i]->0.item.index()
            < counts.len()
}

impl<F: Copy, S, T, B> ClientGame<F, S, T, B> {
    /// What the player has chosen.
    pub open spec fn chosen(self) -> Chosen {
        Chosen {
            slot: self.hotbar_slot,
            needs_equip: self.needs_equip,
            variations: self.item_variation@,
        }
    }

    /// Whether `after` is `before` with another choice.
    pub open spec fn is_rechosen(
        before: ClientGame<F, S, T, B>,
        after: ClientGame<F, S, T, B>,
        chosen: Chosen,
    ) -> bool {
        &&& after == (ClientGame {
            hotbar_slot: chosen.slot,
            needs_equip: chosen.needs_equip,
            item_variation: after.item_variation,
            ..before
        })
        &&& after.item_variation@ == chosen.variations
    }

    /// The choice after the key of a slot was pressed: a variation of the held item, if it has so
    /// many, or the slot.
    pub open spec fn after_digit(
        self,
        chosen: Chosen,
        counts: Seq<usize>,
        is_varying: bool,
        slot: usize,
    ) -> Chosen {
        if is_varying {
            match self.hud.slots@[chosen.slot as int] {
                Some(item) => if slot < counts[item.item.index()] {
                    chosen.with_variation(item.item, slot, chosen.variation(item.item) != slot)
                } else {
                    chosen
                },
                None => chosen,
            }
        } else if slot == chosen.slot {
            chosen
        } else {
            chosen.with_slot(self.hud.slots@, self.swap_hand_item is Some, slot)
        }
    }

    /// The choice after the keys of the first `n` slots.
    pub open spec fn after_digits(self, keys: InputModel<F>, counts: Seq<usize>, n: int) -> Chosen
        decreases n,
    {
        if n <= 0 {
            self.chosen()
        } else {
            let before = self.after_digits(keys, counts, n - 1);
            if is_digit_pressed(keys, n - 1) {
                self.after_digit(before, counts, is_varying(keys), (n - 1) as usize)
            } else {
                before
            }
        }
    }

    /// The messages of the keys of the first `n` slots: each slot that was chosen in turn.
    pub open spec fn digit_messages(self, keys: InputModel<F>, counts: Seq<usize>, n: int) -> Seq<
        NetworkMessageC2S<F>,
    >
        decreases n,
    {
        if n <= 0 {
            Seq::empty()
        } else {
            let before = self.digit_messages(keys, counts, n - 1);
            if is_digit_pressed(keys, n - 1) && !is_varying(keys) && self.after_digits(
                keys,
                counts,
                n - 1,
            ).slot != n - 1 {
                before.push(NetworkMessageC2S::HotbarSelect { slot: (n - 1) as usize })
            } else {
                before
            }
        }
    }

    /// Whether it is known of each item of the hotbar how many variations it has.
    pub fn are_items_counted(&self, counts: &Vec<usize>) -> (r: bool)
        ensures
            r == are_counted(self.hud.slots@, counts@),
    {
        let mut i: usize = 0;
        while i < self.hud.slots.len()
            invariant
                i <= self.hud.slots@.len(),
                forall|j: int|
                    0 <= j < i && (#[trigger] self.hud.slots@[j]) is Some
                        ==> self.hud.slots@[j]->0.item.index() < counts@.len(),
            decreases self.hud.slots@.len() - i,
        {
            match &self.hud.slots[i] {
                Some(item) => {
                    if item.item.numeric_id() >= counts.len() {
                        return false;
                    }
                },
                None => {},
            }
            i += 1;
        }
        true
    }

    /// The keys of the hotbar, from the first slot to the last. `counts` says how many variations
    /// each item has.
    pub fn press_digits(&mut self, keys: &InputContainer<F>, counts: &Vec<usize>) -> (r: Vec<
        NetworkMessageC2S<F>,
    >)
        requires
            old(self).wf(),
            are_counted(old(self).hud.slots@, counts@),
        ensures
            final(self).wf(),
            Self::is_rechosen(
                *old(self),
                *final(self),
                old(self).after_digits(keys@, counts@, HOTBAR_SLOTS as int),
            ),
            r@ == old(self).digit_messages(keys@, counts@, HOTBAR_SLOTS as int),
    {
        let ghost before = *self;
        let varies = keys.is_down(KEY_VARIANT);
        let mut messages: Vec<NetworkMessageC2S<F>> = Vec::new();
        let mut slot: usize = 0;
        while slot < HOTBAR_SLOTS
            invariant
                slot <= HOTBAR_SLOTS,
                before == *old(self),
                before.wf(),
                self.wf(),
                are_counted(before.hud.slots@, counts@),
                varies == is_varying(keys@),
                Self::is_rechosen(before, *self, before.after_digits(keys@, counts@, slot as int)),
                messages@ == before.digit_messages(keys@, counts@, slot as int),
            decreases HOTBAR_SLOTS - slot,
        {
            if keys.is_just_down(KEY_DIGITS + slot as u32) {
                assert(is_digit_pressed(keys@, slot as int));
                if varies {
                    let count = match self.held_item() {
                        Some(item) => counts[item.item.numeric_id()],
                        None => 0,
                    };
                    self.choose_variation(slot, count);
                } else {
                    match self.choose_slot(slot) {
                        Some(message) => {
                            messages.push(message);
                        },
                        None => {},
                    }
                }
            }
            slot += 1;
        }
        messages
    }

    /// The choice after the wheel was turned, and the message of it.
    pub open spec fn after_wheel(
        self,
        counts: Seq<usize>,
        is_varying: bool,
        steps: i32,
    ) -> Chosen {
        let chosen = self.chosen();
        if is_varying {
            match self.held() {
                Some(item) => if counts[item.item.index()] > 1 {
                    chosen.with_variation(
                        item.item,
                        ((self.variation(item.item) + steps) % (counts[item.item.index()] as int)) as usize,
                        true,
                    )
                } else {
                    chosen
                },
                None => chosen,
            }
        } else {
            chosen.with_slot(
                self.hud.slots@,
                self.swap_hand_item is Some,
                ((self.hotbar_slot + steps) % (HOTBAR_SLOTS as int)) as usize,
            )
        }
    }

    /// The messages of the keys that act: to interact, to drop what is held, to choose another slot
    /// with the wheel.
    pub open spec fn action_messages(self, keys: InputModel<F>, deed: Deed) -> Seq<
        NetworkMessageC2S<F>,
    > {
        let interaction = if keys.just_down.contains(KEY_INTERACT) {
            match Self::interaction(deed.result, deed.is_ignored) {
                Some(message) => seq![message],
                None => Seq::empty(),
            }
        } else {
            Seq::empty()
        };
        let drop = if keys.just_down.contains(KEY_DROP) {
            seq![NetworkMessageC2S::<F>::DropItem { stack: keys.down.contains(KEY_RUN) }]
        } else {
            Seq::empty()
        };
        let choice = match deed.steps {
            Some(steps) if !is_varying(keys) => seq![
                NetworkMessageC2S::<F>::HotbarSelect {
                    slot: ((self.hotbar_slot + steps) % (HOTBAR_SLOTS as int)) as usize,
                },
            ],
            _ => Seq::empty(),
        };
        interaction + drop + choice
    }

    /// Whether the keys that act have brought the game from one state to another.
    pub open spec fn is_acted(
        before: ClientGame<F, S, T, B>,
        after: ClientGame<F, S, T, B>,
        keys: InputModel<F>,
        buttons: InputModel<F>,
        counts: Seq<usize>,
        deed: Deed,
    ) -> bool {
        let interacts = keys.just_down.contains(KEY_INTERACT) && Self::interaction(
            deed.result,
            deed.is_ignored,
        ) is Some && !(deed.result is Plant);
        let acting = ClientGame {
            current_local_action: if interacts {
                Some(EntityAction::Interact)
            } else {
                before.current_local_action
            },
            is_attack_queued: before.is_attack_queued || (deed.can_queue
                && buttons.just_down.contains(MouseButton::Left.code_spec())),
            ..before
        };
        Self::is_rechosen(
            acting,
            after,
            match deed.steps {
                Some(steps) => before.after_wheel(counts, is_varying(keys), steps),
                None => before.chosen(),
            },
        )
    }

    /// The keys that act while no screen is open, the wheel and the button that attacks.
    pub fn press_actions(
        &mut self,
        keys: &InputContainer<F>,
        buttons: &InputContainer<F>,
        counts: &Vec<usize>,
        deed: Deed,
    ) -> (r: Vec<NetworkMessageC2S<F>>)
        requires
            old(self).wf(),
            are_counted(old(self).hud.slots@, counts@),
        ensures
            final(self).wf(),
            Self::is_acted(*old(self), *final(self), keys@, buttons@, counts@, deed),
            r@ == old(self).action_messages(keys@, deed),
    {
        let mut messages: Vec<NetworkMessageC2S<F>> = Vec::new();
        if keys.is_just_down(KEY_INTERACT) {
            match self.interact(deed.result, deed.is_ignored) {
                Some(message) => {
                    messages.push(message);
                },
                None => {},
            }
        }
        if keys.is_just_down(KEY_DROP) {
            messages.push(NetworkMessageC2S::DropItem { stack: keys.is_down(KEY_RUN) });
        }
        match deed.steps {
            Some(steps) => {
                if keys.is_down(KEY_VARIANT) {
                    let count = match self.held_item() {
                        Some(item) => counts[item.item.numeric_id()],
                        None => 0,
                    };
                    self.scroll_variation(steps, count);
                } else {
                    let message = self.scroll_slot(steps);
                    messages.push(message);
                }
            },
            None => {},
        }
        if buttons.is_just_down(MouseButton::Left.code()) && deed.can_queue {
            self.is_attack_queued = true;
        }
        assert(messages@ =~= old(self).action_messages(keys@, deed));
        messages
    }

    /// The keys that leave a screen or open one.
    pub fn press_screen(&mut self, keys: &InputContainer<F>) -> (r: Vec<NetworkMessageC2S<F>>)
        requires
            old(self).wf(),
        ensures
            final(self).wf(),
            ({
                let lets_go = keys@.just_down.contains(KEY_ESCAPE) && old(self).screen is Some
                    && old(self).screen->0.selected_slot is Some;
                let leaving = if keys@.just_down.contains(KEY_ESCAPE) && !lets_go {
                    seq![NetworkMessageC2S::<F>::CloseUI]
                } else {
                    Seq::empty()
                };
                let toggling = if !keys@.just_down.contains(KEY_INVENTORY) {
                    Seq::empty()
                } else if old(self).screen is Some {
                    seq![NetworkMessageC2S::<F>::CloseUI]
                } else {
                    seq![NetworkMessageC2S::<F>::OpenPlayerInventory]
                };
                &&& r@ == leaving + toggling
                &&& *final(self) == (ClientGame {
                    screen: if lets_go {
                        Some(
                            crate::screen::ScreenData {
                                selected_slot: None,
                                ..old(self).screen->0
                            },
                        )
                    } else {
                        old(self).screen
                    },
                    ..*old(self)
                })
            }),
    {
        let mut messages: Vec<NetworkMessageC2S<F>> = Vec::new();
        if keys.is_just_down(KEY_ESCAPE) {
            match self.escape() {
                Some(message) => {
                    messages.push(message);
                },
                None => {},
            }
        }
        if keys.is_just_down(KEY_INVENTORY) {
            messages.push(self.toggle_inventory());
        }
        messages
    }
}

/// What a frame's keys are applied to: what the player looks at and whether it does nothing, how far
/// the wheel was turned, if it was, and whether an attack may wait.
#[derive(Clone, Copy)]
pub struct Deed {
    pub result: RayCastResult,
    pub is_ignored: bool,
    pub steps: Option<i32>,
    pub can_queue: bool,
}

/// Where no key was pressed the choice stays and nothing is sent.
pub proof fn law_idle_keys_do_nothing<F: Copy, S, T, B>(
    game: ClientGame<F, S, T, B>,
    keys: InputModel<F>,
    counts: Seq<usize>,
    deed: Deed,
    n: int,
)
    requires
        keys.just_down == Set::<u32>::empty(),
        deed.steps is None,
    ensures
        game.after_digits(keys, counts, n) == game.chosen(),
        game.digit_messages(keys, counts, n) == Seq::<NetworkMessageC2S<F>>::empty(),
        game.action_messages(keys, deed) == Seq::<NetworkMessageC2S<F>>::empty(),
    decreases n,
{
    if n > 0 {
        law_idle_keys_do_nothing(game, keys, counts, deed, n - 1);
    }
    assert(game.action_messages(keys, deed) =~= Seq::<NetworkMessageC2S<F>>::empty());
}

/// While variations are chosen, the slot stays and the server hears nothing of the hotbar.
pub proof fn law_varying_keeps_the_slot<F: Copy, S, T, B>(
    game: ClientGame<F, S, T, B>,
    keys: InputModel<F>,
    counts: Seq<usize>,
    n: int,
)
    requires
        is_varying(keys),
    ensures
        game.after_digits(keys, counts, n).slot == game.hotbar_slot,
        game.digit_messages(keys, counts, n) == Seq::<NetworkMessageC2S<F>>::empty(),
    decreases n,
{
    if n > 0 {
        law_varying_keeps_the_slot(game, keys, counts, n - 1);
    }
}

/// Of the keys of the slots that were pressed the last counts: its slot is chosen, and the others stay as
/// they are. Without such a key the slot stays. Every slot that was chosen on the way is sent.
pub proof fn law_last_digit_counts<F: Copy, S, T, B>(
    game: ClientGame<F, S, T, B>,
    keys: InputModel<F>,
    counts: Seq<usize>,
    n: int,
    digit: int,
)
    requires
        !is_varying(keys),
        0 <= digit < n <= HOTBAR_SLOTS,
        keys.just_down.contains((13 + digit) as u32),
        forall|later: int|
            digit < later < n ==> !keys.just_down.contains(#[trigger] ((13 + later) as u32)),
    ensures
        game.after_digits(keys, counts, n).slot == digit,
        game.after_digits(keys, counts, n).variations == game.item_variation@,
        game.hud.slots@[digit] is Some && game.hotbar_slot != digit && (forall|earlier: int|
            0 <= earlier < digit ==> !keys.just_down.contains(#[trigger] ((13 + earlier) as u32)))
            ==> game.after_digits(keys, counts, n).needs_equip && game.digit_messages(
            keys,
            counts,
            n,
        ) == seq![NetworkMessageC2S::<F>::HotbarSelect { slot: digit as usize }],
    decreases n,
{
    lemma_digits_keep_variations(game, keys, counts, n);
    if digit < n - 1 {
        assert(!keys.just_down.contains((13 + (n - 1)) as u32));
        law_last_digit_counts(game, keys, counts, n - 1, digit);
    } else {
        if forall|earlier: int|
            0 <= earlier < digit ==> !keys.just_down.contains(#[trigger] ((13 + earlier) as u32)) {
            lemma_no_digits(game, keys, counts, n - 1);
            assert(game.digit_messages(keys, counts, n) =~= if game.hotbar_slot != digit {
                seq![NetworkMessageC2S::<F>::HotbarSelect { slot: digit as usize }]
            } else {
                Seq::empty()
            });
        }
    }
}

proof fn lemma_no_digits<F: Copy, S, T, B>(
    game: ClientGame<F, S, T, B>,
    keys: InputModel<F>,
    counts: Seq<usize>,
    n: int,
)
    requires
        0 <= n <= HOTBAR_SLOTS,
        forall|digit: int|
            0 <= digit < n ==> !keys.just_down.contains(#[trigger] ((13 + digit) as u32)),
    ensures
        game.after_digits(keys, counts, n) == game.chosen(),
        game.digit_messages(keys, counts, n) == Seq::<NetworkMessageC2S<F>>::empty(),
    decreases n,
{
    if n > 0 {
        assert(!keys.just_down.contains((13 + (n - 1)) as u32));
        lemma_no_digits(game, keys, counts, n - 1);
    }
}

proof fn lemma_digits_keep_variations<F: Copy, S, T, B>(
    game: ClientGame<F, S, T, B>,
    keys: InputModel<F>,
    counts: Seq<usize>,
    n: int,
)
    requires
        !is_varying(keys),
    ensures
        game.after_digits(keys, counts, n).variations == game.item_variation@,
    decreases n,
{
    if n > 0 {
        lemma_digits_keep_variations(game, keys, counts, n - 1);
    }
}

/// While variations are chosen, the last key of a slot whose number the held item has as a variation
/// chooses it, and no other item's variation changes.
pub proof fn law_last_variation_counts<F: Copy, S, T, B>(
    game: ClientGame<F, S, T, B>,
    keys: InputModel<F>,
    counts: Seq<usize>,
    n: int,
    digit: int,
    other: ItemKey,
)
    requires
        is_varying(keys),
        0 <= digit < n <= HOTBAR_SLOTS,
        game.held() is Some,
        digit < counts[game.held()->0.item.index()],
        keys.just_down.contains((13 + digit) as u32),
        forall|later: int|
            digit < later < n ==> !keys.just_down.contains(#[trigger] ((13 + later) as u32)),
        other.index() != game.held()->0.item.index(),
    ensures
        game.after_digits(keys, counts, n).variation(game.held()->0.item) == digit,
        game.after_digits(keys, counts, n).variation(other) == game.variation(other),
        game.after_digits(keys, counts, n).slot == game.hotbar_slot,
    decreases n,
{
    law_varying_keeps_the_slot(game, keys, counts, n - 1);
    other.lemma_index_fits();
    game.held()->0.item.lemma_index_fits();
    lemma_other_variation(game, keys, counts, n, other);
    if digit < n - 1 {
        assert(!keys.just_down.contains((13 + (n - 1)) as u32));
        law_last_variation_counts(game, keys, counts, n - 1, digit, other);
    }
}

proof fn lemma_other_variation<F: Copy, S, T, B>(
    game: ClientGame<F, S, T, B>,
    keys: InputModel<F>,
    counts: Seq<usize>,
    n: int,
    other: ItemKey,
)
    requires
        is_varying(keys),
        game.held() is Some,
        other.index() != game.held()->0.item.index(),
    ensures
        game.after_digits(keys, counts, n).variation(other) == game.variation(other),
        game.after_digits(keys, counts, n).slot == game.hotbar_slot,
    decreases n,
{
    other.lemma_index_fits();
    game.held()->0.item.lemma_index_fits();
    if n > 0 {
        lemma_other_variation(game, keys, counts, n - 1, other);
    }
}

/// The wheel goes round the ten slots: one step on is the next slot, behind the last comes the first, and
/// before the first the last. While variations are chosen it goes round those of the held item in the
/// same way and leaves the slot.
pub proof fn law_wheel<F: Copy, S, T, B>(
    game: ClientGame<F, S, T, B>,
    counts: Seq<usize>,
    steps: i32,
)
    requires
        game.wf(),
    ensures
        game.after_wheel(counts, false, 0).slot == game.hotbar_slot,
        game.after_wheel(counts, false, 1).slot == if game.hotbar_slot == 9 {
            0
        } else {
            game.hotbar_slot + 1
        },
        game.after_wheel(counts, false, (-1) as i32).slot == if game.hotbar_slot == 0 {
            9
        } else {
            game.hotbar_slot - 1
        },
        game.after_wheel(counts, false, steps).slot < 10,
        exists|rounds: int|
            game.hotbar_slot + steps == game.after_wheel(counts, false, steps).slot + #[trigger] (10
                * rounds),
        game.after_wheel(counts, false, steps).variations == game.item_variation@,
        game.after_wheel(counts, true, steps).slot == game.hotbar_slot,
        game.held() matches Some(item) ==> {
            let count = counts[item.item.index()];
            let after = game.after_wheel(counts, true, steps);
            &&& count > 1 ==> after.needs_equip && after.variation(item.item) < count
            &&& count > 1 ==> exists|rounds: int|
                game.variation(item.item) + steps == after.variation(item.item) + #[trigger] (count
                    * rounds)
            &&& count <= 1 ==> after == game.chosen()
        },
{
    let total = game.hotbar_slot + steps;
    assert(total == total % 10 + 10 * (total / 10));
    if let Some(item) = game.held() {
        let count = counts[item.item.index()] as int;
        if count > 1 {
            let sum = game.variation(item.item) + steps;
            vstd::arithmetic::div_mod::lemma_fundamental_div_mod(sum, count);
            vstd::arithmetic::div_mod::lemma_mod_bound(sum, count);
            assert(sum == sum % count + (count * (sum / count)));
            assert(game.after_wheel(counts, true, steps).variation(item.item) == sum % count);
        }
    }
}

/// The keys that act send what they stand for and nothing else: an item is dropped with its key, the
/// whole stack with the key to run held, and a slot is sent with the wheel unless variations are chosen.
pub proof fn law_action_messages<F: Copy, S, T, B>(
    game: ClientGame<F, S, T, B>,
    keys: InputModel<F>,
    deed: Deed,
)
    ensures
        ({
            let sent = game.action_messages(keys, deed);
            let interacts = keys.just_down.contains(8) && ClientGame::<F, S, T, B>::interaction(
                deed.result,
                deed.is_ignored,
            ) is Some;
            let drops = keys.just_down.contains(9);
            let scrolls = deed.steps is Some && !keys.down.contains(7);
            &&& sent.len() == (if interacts {
                1int
            } else {
                0
            }) + (if drops {
                1int
            } else {
                0
            }) + (if scrolls {
                1int
            } else {
                0
            })
            &&& interacts ==> Some(sent[0]) == ClientGame::<F, S, T, B>::interaction(
                deed.result,
                deed.is_ignored,
            )
            &&& drops ==> sent[if interacts {
                1int
            } else {
                0
            }] == (NetworkMessageC2S::<F>::DropItem { stack: keys.down.contains(6) })
            &&& scrolls ==> sent.last() is HotbarSelect
        }),
{
}

/// After the keys that act, the hand interacts where something other than a plant was interacted with,
/// and an attack waits where one waited or may wait and the left button was pressed. What the player has
/// chosen changes only with the wheel; the rest of the game stays.
pub proof fn law_acted<F: Copy, S, T, B>(
    before: ClientGame<F, S, T, B>,
    after: ClientGame<F, S, T, B>,
    keys: InputModel<F>,
    buttons: InputModel<F>,
    counts: Seq<usize>,
    deed: Deed,
)
    requires
        ClientGame::is_acted(before, after, keys, buttons, counts, deed),
    ensures
        !keys.just_down.contains(8) || deed.result is Plant || deed.result is Empty
            || deed.is_ignored ==> after.current_local_action == before.current_local_action,
        keys.just_down.contains(8) && (deed.result is Block || deed.result is Entity)
            && !deed.is_ignored ==> after.current_local_action == Some(EntityAction::Interact),
        after.is_attack_queued <==> before.is_attack_queued || (deed.can_queue
            && buttons.just_down.contains(MouseButton::Left.code_spec())),
        deed.steps is None ==> after.hotbar_slot == before.hotbar_slot && after.item_variation@
            == before.item_variation@ && after.needs_equip == before.needs_equip,
        after.hud == before.hud,
        after.screen == before.screen,
        after.world == before.world,
        after.entities == before.entities,
        after.swap_hand_item == before.swap_hand_item,
{
}

} // verus!
