//! The animations of the player's hand, of machines and of entities.

use crate::block::{BlockKey, ItemAction};
use crate::client_game::ClientGame;
use crate::net::{ClientItem, EntityAction};
use crate::registry::ItemKey;
use vstd::prelude::*;

verus! {

/// The animation that the hand plays.
#[derive(Copy, Clone, PartialEq, Eq, Structural, Debug)]
pub enum HandAnimation {
    Idle,
    Running,
    Hit,
    Other,
}

/// How long the animation of the hand has been playing, by the times that matter.
#[derive(Copy, Clone, PartialEq, Eq, Structural, Debug)]
pub struct HandTimes {
    /// As long as a swing takes.
    pub swing_is_over: bool,
    /// Long enough for the item to change.
    pub item_changes: bool,
    /// Long enough for the action to be over.
    pub action_is_over: bool,
    /// As long as the animation of a still hand takes.
    pub idle_is_over: bool,
    /// As long as the animation of a running player's hand takes.
    pub running_is_over: bool,
}

/// What the hand plays next.
#[derive(Copy, Clone, PartialEq, Eq, Structural, Debug)]
pub enum HandPlay {
    /// It goes on.
    Continue,
    /// It begins anew.
    Restart,
    Idle,
    Running,
    Action(EntityAction),
}

/// What a step of the hand does.
#[derive(Copy, Clone, PartialEq, Eq, Structural, Debug)]
pub struct HandStep {
    pub play: HandPlay,
    pub ends_action: bool,
    pub changes_item: bool,
}

/// The animation of a hand at rest.
pub open spec fn rest(is_running: bool) -> HandPlay {
    if is_running {
        HandPlay::Running
    } else {
        HandPlay::Idle
    }
}

/// What a step of the hand does.
pub open spec fn hand_step_spec(
    action: Option<EntityAction>,
    animation: HandAnimation,
    times: HandTimes,
    is_running: bool,
) -> HandStep {
    match action {
        Some(action) => match animation {
            HandAnimation::Idle | HandAnimation::Running => HandStep {
                play: HandPlay::Action(action),
                ends_action: false,
                changes_item: false,
            },
            HandAnimation::Hit => HandStep {
                play: if times.swing_is_over {
                    rest(is_running)
                } else {
                    HandPlay::Continue
                },
                ends_action: times.swing_is_over && action == EntityAction::Attack,
                changes_item: false,
            },
            HandAnimation::Other => HandStep {
                play: if times.action_is_over {
                    rest(is_running)
                } else {
                    HandPlay::Continue
                },
                ends_action: times.action_is_over,
                changes_item: times.item_changes,
            },
        },
        None => HandStep {
            play: match animation {
                HandAnimation::Idle => if is_running {
                    HandPlay::Running
                } else if times.idle_is_over {
                    HandPlay::Restart
                } else {
                    HandPlay::Continue
                },
                HandAnimation::Running => if !is_running {
                    HandPlay::Idle
                } else if times.running_is_over {
                    HandPlay::Restart
                } else {
                    HandPlay::Continue
                },
                _ => HandPlay::Continue,
            },
            ends_action: false,
            changes_item: false,
        },
    }
}

/// What a step of the hand does.
pub fn hand_step(
    action: Option<EntityAction>,
    animation: HandAnimation,
    times: HandTimes,
    is_running: bool,
) -> (r: HandStep)
    ensures
        r == hand_step_spec(action, animation, times, is_running),
{
    let at_rest = if is_running {
        HandPlay::Running
    } else {
        HandPlay::Idle
    };
    let mut step = HandStep {
        play: HandPlay::Continue,
        ends_action: false,
        changes_item: false,
    };
    match action {
        Some(action) => match animation {
            HandAnimation::Idle | HandAnimation::Running => {
                step.play = HandPlay::Action(action);
            },
            HandAnimation::Hit => {
                if times.swing_is_over {
                    step.ends_action = action == EntityAction::Attack;
                    step.play = at_rest;
                }
            },
            HandAnimation::Other => {
                if times.action_is_over {
                    step.ends_action = true;
                    step.play = at_rest;
                }
                step.changes_item = times.item_changes;
            },
        },
        None => match animation {
            HandAnimation::Idle => {
                if is_running {
                    step.play = HandPlay::Running;
                } else if times.idle_is_over {
                    step.play = HandPlay::Restart;
                }
            },
            HandAnimation::Running => {
                if !is_running {
                    step.play = HandPlay::Idle;
                } else if times.running_is_over {
                    step.play = HandPlay::Restart;
                }
            },
            _ => {},
        },
    }
    step
}

/// A hand at rest takes up every action at once, and goes on with it until it is over.
pub proof fn law_actions_are_played(
    action: EntityAction,
    animation: HandAnimation,
    times: HandTimes,
    is_running: bool,
)
    ensures
        ({
            let step = hand_step_spec(Some(action), animation, times, is_running);
            &&& animation == HandAnimation::Idle || animation == HandAnimation::Running ==> step.play
                == HandPlay::Action(action) && !step.ends_action
            &&& step.ends_action ==> step.play == rest(is_running)
        }),
{
}

impl<F: Copy, S, T, B> ClientGame<F, S, T, B> {
    /// The held item with its variation.
    pub open spec fn held_variation(self) -> Option<(ItemKey, usize)> {
        match self.held() {
            Some(item) => Some((item.item, self.variation(item.item))),
            None => None,
        }
    }

    /// A frame of the hand. What the hand shows changes to the held item in the middle of an action.
    pub fn tick_hand(&mut self, animation: HandAnimation, times: HandTimes, is_running: bool) -> (r:
        HandPlay)
        requires
            old(self).wf(),
        ensures
            final(self).wf(),
            ({
                let step = hand_step_spec(
                    old(self).current_local_action,
                    animation,
                    times,
                    is_running,
                );
                &&& r == step.play
                &&& *final(self) == (ClientGame {
                    current_local_action: if step.ends_action {
                        None
                    } else {
                        old(self).current_local_action
                    },
                    swap_hand_item: if step.changes_item {
                        old(self).held_variation()
                    } else {
                        old(self).swap_hand_item
                    },
                    ..*old(self)
                })
            }),
    {
        let step = hand_step(self.current_local_action, animation, times, is_running);
        if step.changes_item {
            let held = match self.held_item() {
                Some(item) => Some(item.item),
                None => None,
            };
            self.swap_hand_item = match held {
                Some(item) => Some((item, self.chosen_variation(item))),
                None => None,
            };
        }
        if step.ends_action {
            self.current_local_action = None;
        }
        step.play
    }
}

/// What the hand shows: the block that an item places, tinted if there are too few of it, or the
/// item.
pub enum HandModel {
    Block { block: BlockKey, is_lacking: bool },
    Item,
}

/// What the hand shows of an item with a variation.
pub fn hand_model<C>(action: &ItemAction<C>, variation: usize, held: &Option<ClientItem>) -> (r:
    HandModel)
    requires
        action matches ItemAction::Place(placements) ==> variation < placements@.len(),
    ensures
        r == match *action {
            ItemAction::Place(placements) => HandModel::Block {
                block: placements@[variation as int].block,
                is_lacking: match *held {
                    Some(item) => item.count < placements@[variation as int].use_count,
                    None => false,
                },
            },
            _ => HandModel::Item,
        },
{
    match action {
        ItemAction::Place(placements) => {
            let placement = placements[variation];
            let is_lacking = match held {
                Some(item) => item.count < placement.use_count,
                None => false,
            };
            HandModel::Block { block: placement.block, is_lacking }
        },
        _ => HandModel::Item,
    }
}

/// What becomes of an animation that has come to its end.
#[derive(Copy, Clone, PartialEq, Eq, Structural, Debug)]
pub enum LoopMode {
    Once,
    Hold,
    Loop,
}

/// The time at which an animation is shown.
#[derive(Copy, Clone, PartialEq, Eq, Structural, Debug)]
pub enum AnimationTime {
    /// The time that has passed.
    Passed,
    /// What of the time comes after the animation, over and over for the length of the one shown.
    AfterEnd,
    /// The end of the animation.
    End,
    /// The time that has passed, over and over for the length of the animation.
    Repeated,
}

/// The animation that a machine with `count` of them shows while `animation` is chosen: the first
/// one follows those that play once. A machine without animations shows none.
pub fn machine_animation(animation: u16, count: usize, is_over: bool, loop_mode: LoopMode) -> (r:
    Option<(usize, AnimationTime)>)
    requires
        count > 0 ==> animation < count,
    ensures
        r == if count == 0 {
            None
        } else if !is_over {
            Some((animation as usize, AnimationTime::Passed))
        } else {
            match loop_mode {
                LoopMode::Once => Some((0usize, AnimationTime::AfterEnd)),
                LoopMode::Hold => Some((animation as usize, AnimationTime::End)),
                LoopMode::Loop => Some((animation as usize, AnimationTime::Repeated)),
            }
        },
        r matches Some((shown, _)) ==> shown < count,
{
    if count == 0 {
        return None;
    }
    if !is_over {
        return Some((animation as usize, AnimationTime::Passed));
    }
    match loop_mode {
        LoopMode::Once => Some((0, AnimationTime::AfterEnd)),
        LoopMode::Hold => Some((animation as usize, AnimationTime::End)),
        LoopMode::Loop => Some((animation as usize, AnimationTime::Repeated)),
    }
}

/// An animation and its weight in a picture. `F` is the type of a time.
#[derive(Copy, Clone)]
pub struct AnimationPlayerEntry<N: Copy, F: Copy> {
    pub animation: N,
    pub animation_time: F,
    pub interpolation_time: F,
    pub total_interpolation_time: F,
}

/// Plays animations, each of which fades into the next. `N` is the type of an animation's name.
pub struct AnimationPlayer<N: Copy, F: Copy> {
    pub current: AnimationPlayerEntry<N, F>,
    pub previous_animations: Vec<AnimationPlayerEntry<N, F>>,
}

impl<N: Copy, F: Copy> AnimationPlayer<N, F> {
    /// A player that begins with an animation. `zero` is no time at all.
    pub fn new(animation: N, zero: F) -> (r: AnimationPlayer<N, F>)
        ensures
            r.current == (AnimationPlayerEntry {
                animation,
                animation_time: zero,
                interpolation_time: zero,
                total_interpolation_time: zero,
            }),
            r.previous_animations@.len() == 0,
    {
        AnimationPlayer {
            current: AnimationPlayerEntry {
                animation,
                animation_time: zero,
                interpolation_time: zero,
                total_interpolation_time: zero,
            },
            previous_animations: Vec::new(),
        }
    }

    /// Fades into an animation over `interpolation_time`. `remaining` is the part of that time for
    /// which the current animation fades out.
    pub fn play_animation(&mut self, animation: N, interpolation_time: F, remaining: F, zero: F)
        ensures
            final(self).current == (AnimationPlayerEntry {
                animation,
                animation_time: zero,
                interpolation_time: zero,
                total_interpolation_time: interpolation_time,
            }),
            final(self).previous_animations@ == old(self).previous_animations@.push(
                AnimationPlayerEntry {
                    interpolation_time: remaining,
                    total_interpolation_time: interpolation_time,
                    ..old(self).current
                },
            ),
    {
        let previous = AnimationPlayerEntry {
            interpolation_time: remaining,
            total_interpolation_time: interpolation_time,
            ..self.current
        };
        self.current = AnimationPlayerEntry {
            animation,
            animation_time: zero,
            interpolation_time: zero,
            total_interpolation_time: interpolation_time,
        };
        self.previous_animations.push(previous);
    }

    /// The current animation and how long it has been playing.
    pub fn get_animation(&self) -> (r: (N, F))
        ensures
            r == (self.current.animation, self.current.animation_time),
    {
        (self.current.animation, self.current.animation_time)
    }

    /// Begins the current animation anew.
    pub fn restart_animation(&mut self, zero: F)
        ensures
            final(self).current == (AnimationPlayerEntry { animation_time: zero, ..old(self).current }),
            final(self).previous_animations == old(self).previous_animations,
    {
        self.current.animation_time = zero;
    }
}

/// An action ends with the swing that it is, or with the animation that it plays; the item changes only
/// within such an animation. Without an action nothing ends and nothing changes.
pub proof fn law_actions_end(
    action: Option<EntityAction>,
    animation: HandAnimation,
    times: HandTimes,
    is_running: bool,
)
    ensures
        ({
            let step = hand_step_spec(action, animation, times, is_running);
            &&& step.ends_action <==> (action == Some(EntityAction::Attack) && animation
                == HandAnimation::Hit && times.swing_is_over) || (action is Some && animation
                == HandAnimation::Other && times.action_is_over)
            &&& step.changes_item <==> action is Some && animation == HandAnimation::Other
                && times.item_changes
            &&& action is Some && animation == HandAnimation::Hit && !times.swing_is_over
                ==> step.play == HandPlay::Continue
            &&& action is Some && animation == HandAnimation::Hit && times.swing_is_over
                ==> step.play == if is_running {
                HandPlay::Running
            } else {
                HandPlay::Idle
            }
            &&& action is Some && animation == HandAnimation::Other && !times.action_is_over
                ==> step.play == HandPlay::Continue
            &&& step.ends_action ==> step.play == if is_running {
                HandPlay::Running
            } else {
                HandPlay::Idle
            }
        }),
{
}

/// A hand without an action plays what fits: running while the player runs, still while the player does
/// not, each begun anew when it is over.
pub proof fn law_hand_at_rest(animation: HandAnimation, times: HandTimes, is_running: bool)
    ensures
        ({
            let play = hand_step_spec(None, animation, times, is_running).play;
            &&& animation == HandAnimation::Idle && is_running ==> play == HandPlay::Running
            &&& animation == HandAnimation::Running && !is_running ==> play == HandPlay::Idle
            &&& animation == HandAnimation::Idle && !is_running ==> play == if times.idle_is_over {
                HandPlay::Restart
            } else {
                HandPlay::Continue
            }
            &&& animation == HandAnimation::Running && is_running ==> play
                == if times.running_is_over {
                HandPlay::Restart
            } else {
                HandPlay::Continue
            }
            &&& animation == HandAnimation::Hit || animation == HandAnimation::Other ==> play
                == HandPlay::Continue
        }),
{
}

/// The hand takes up what the player holds: the item of the chosen slot, in the variation that is chosen
/// of it.
pub proof fn law_hand_takes_the_held_item<F: Copy, S, T, B>(game: ClientGame<F, S, T, B>)
    ensures
        match game.hud.slots@[game.hotbar_slot as int] {
            Some(item) => game.held_variation() == Some((item.item, game.variation(item.item))),
            None => game.held_variation() is None,
        },
{
}

} // verus!
