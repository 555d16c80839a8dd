//! How characters move: what collisions let them do.

use crate::coord::Vec3;
use vstd::prelude::*;

verus! {

#[derive(Copy, Clone, PartialEq, Eq, Structural, Debug)]
pub enum MoveMode {
    Normal,
    Fly,
    NoClip,
}

impl MoveMode {
    /// Whether gravity pulls a character in this mode, and keeps it from steering up and down.
    pub fn has_gravity(self) -> (r: bool)
        ensures
            r == (self == MoveMode::Normal),
    {
        match self {
            MoveMode::Normal => true,
            MoveMode::Fly | MoveMode::NoClip => false,
        }
    }

    /// Whether blocks stop a character in this mode.
    pub fn collides(self) -> (r: bool)
        ensures
            r == (self != MoveMode::NoClip),
    {
        match self {
            MoveMode::Normal | MoveMode::Fly => true,
            MoveMode::NoClip => false,
        }
    }
}

#[derive(Copy, Clone, Hash, PartialEq, Eq, Structural, Debug)]
pub enum EntityPose {
    Stand,
    Walk,
    Run,
    Crouch,
    CrouchWalk,
    Slide,
    Levitate,
    Fly,
    Fall,
    Sleeping,
    Mantle,
}

impl EntityPose {
    /// Whether a character in this pose is lower than an upright one.
    pub open spec fn is_low(self) -> bool {
        self == EntityPose::Crouch || self == EntityPose::CrouchWalk || self == EntityPose::Slide
    }

    /// Whether a character in this pose is lower than an upright one.
    pub fn crouches(self) -> (r: bool)
        ensures
            r == self.is_low(),
    {
        match self {
            EntityPose::Stand
            | EntityPose::Walk
            | EntityPose::Run
            | EntityPose::Fly
            | EntityPose::Levitate
            | EntityPose::Fall
            | EntityPose::Sleeping
            | EntityPose::Mantle => false,
            EntityPose::Crouch | EntityPose::CrouchWalk | EntityPose::Slide => true,
        }
    }
}

/// An axis along the ground.
#[derive(Copy, Clone, PartialEq, Eq, Structural, Debug)]
pub enum MoveAxis {
    X,
    Z,
}

/// A place that a move asks for.
#[derive(Copy, Clone, PartialEq, Eq, Structural, Debug)]
pub enum MoveTarget {
    /// The end of the whole move.
    Through,
    /// The end of the vertical part of the move.
    Vertical,
    /// The end of the part of the move along an axis.
    Along(MoveAxis),
    /// A little below the end of the part of the move along an axis.
    Below(MoveAxis),
}

/// Whether `target` is the place that is asked for, and `hit` what a character touches there: nothing,
/// or something up to a height.
pub open spec fn finds<P, H, C: Fn(P) -> Option<H>, L: Fn(P, MoveTarget) -> P>(
    collides: C,
    place: L,
    from: P,
    asked: MoveTarget,
    target: P,
    hit: Option<H>,
) -> bool {
    call_ensures(place, (from, asked), target) && call_ensures(collides, (target,), hit)
}

/// Whether a character that moves up or down comes to `to`: to the end of the move if it touches
/// nothing there, and else it stays.
pub open spec fn is_lifted<P, H, C: Fn(P) -> Option<H>, L: Fn(P, MoveTarget) -> P>(
    collides: C,
    place: L,
    from: P,
    to: P,
    moves: bool,
) -> bool {
    exists|target: P, hit: Option<H>| #[trigger]
        finds(collides, place, from, MoveTarget::Vertical, target, hit) && moves == (hit is None)
            && to == (if hit is None {
            target
        } else {
            from
        })
}

/// Whether a character whose way to `target` is free comes to `to`. One that holds on to ledges stays
/// where there is no ground.
pub open spec fn is_walked<P, H, C: Fn(P) -> Option<H>, L: Fn(P, MoveTarget) -> P>(
    collides: C,
    place: L,
    axis: MoveAxis,
    keeps_ground: bool,
    from: P,
    target: P,
    to: P,
) -> bool {
    if keeps_ground {
        exists|below: P, ground: Option<H>| #[trigger]
            finds(collides, place, from, MoveTarget::Below(axis), below, ground) && to == (
            if ground is Some {
                target
            } else {
                from
            })
    } else {
        to == target
    }
}

/// Whether a character that may climb to `top` comes to `to`: to the top if it touches nothing there,
/// and else it stays and is stopped.
pub open spec fn is_climbed<P, H, C: Fn(P) -> Option<H>>(
    collides: C,
    top: Option<P>,
    from: P,
    to: P,
    stops: bool,
) -> bool {
    match top {
        Some(top) => exists|above: Option<H>| #[trigger]
            call_ensures(collides, (top,), above) && stops == (above is Some) && to == (
            if above is None {
                top
            } else {
                from
            }),
        None => stops && to == from,
    }
}

/// The top of an obstacle, for a character on the ground.
pub open spec fn reachable<P>(on_ground: bool, top: Option<P>) -> Option<P> {
    if on_ground {
        top
    } else {
        None
    }
}

/// Whether a character that moves along an axis comes to `to`, and whether an obstacle stops it. From
/// the ground it climbs an obstacle that is low enough; `climb` gives the place on top of such a one.
pub open spec fn is_slid<
    P,
    H,
    C: Fn(P) -> Option<H>,
    L: Fn(P, MoveTarget) -> P,
    U: Fn(P, MoveAxis, H) -> Option<P>,
>(
    collides: C,
    place: L,
    climb: U,
    axis: MoveAxis,
    on_ground: bool,
    holding_ledge: bool,
    from: P,
    to: P,
    stops: bool,
) -> bool {
    exists|target: P, hit: Option<H>| #[trigger]
        finds(collides, place, from, MoveTarget::Along(axis), target, hit) && match hit {
            None => !stops && is_walked::<P, H, C, L>(
                collides,
                place,
                axis,
                on_ground && holding_ledge,
                from,
                target,
                to,
            ),
            Some(height) => exists|top: Option<P>| #[trigger]
                call_ensures(climb, (from, axis, height), top) && is_climbed::<P, H, C>(
                    collides,
                    reachable(on_ground, top),
                    from,
                    to,
                    stops,
                ),
        }
}

/// The speed of a character, and whether it stands on the ground. `F` is the type of a coordinate.
#[derive(Copy, Clone)]
pub struct CharacterController<F: Copy> {
    pub velocity: Vec3<F>,
    pub on_ground: bool,
}

impl<F: Copy> CharacterController<F> {
    /// A character in the air that does not move.
    pub fn new(nothing: F) -> (r: CharacterController<F>)
        ensures
            r.velocity == (Vec3 { x: nothing, y: nothing, z: nothing }),
            !r.on_ground,
    {
        CharacterController {
            velocity: Vec3 { x: nothing, y: nothing, z: nothing },
            on_ground: false,
        }
    }

    /// The character after the parts of a move: what stops it takes its speed, and what stops it
    /// from below is ground.
    pub open spec fn after(
        self,
        moves: bool,
        goes_down: bool,
        stops_x: bool,
        stops_z: bool,
        nothing: F,
    ) -> CharacterController<F> {
        CharacterController {
            velocity: Vec3 {
                x: if stops_x {
                    nothing
                } else {
                    self.velocity.x
                },
                y: if moves {
                    self.velocity.y
                } else {
                    nothing
                },
                z: if stops_z {
                    nothing
                } else {
                    self.velocity.z
                },
            },
            on_ground: !moves && goes_down,
        }
    }

    /// Whether a move has brought the character from one place to another: first up or down, then
    /// along one axis and along the other. Without collisions it goes straight to its end.
    pub open spec fn is_advanced<
        P,
        H,
        C: Fn(P) -> Option<H>,
        L: Fn(P, MoveTarget) -> P,
        U: Fn(P, MoveAxis, H) -> Option<P>,
    >(
        before: CharacterController<F>,
        after: CharacterController<F>,
        push: MovePush<F>,
        collides: C,
        place: L,
        climb: U,
        from: P,
        to: P,
    ) -> bool {
        if push.move_mode == MoveMode::NoClip {
            after == before && call_ensures(place, (from, MoveTarget::Through), to)
        } else {
            exists|first: P, second: P, moves: bool, stops_x: bool, stops_z: bool|
                #![trigger is_lifted::<P, H, C, L>(collides, place, from, first, moves), is_slid::<P, H, C, L, U>(collides, place, climb, MoveAxis::X, after.on_ground, push.holding_ledge, first, second, stops_x), is_slid::<P, H, C, L, U>(collides, place, climb, MoveAxis::Z, after.on_ground, push.holding_ledge, second, to, stops_z)]
                {
                    &&& is_lifted::<P, H, C, L>(collides, place, from, first, moves)
                    &&& is_slid::<P, H, C, L, U>(
                        collides,
                        place,
                        climb,
                        MoveAxis::X,
                        after.on_ground,
                        push.holding_ledge,
                        first,
                        second,
                        stops_x,
                    )
                    &&& is_slid::<P, H, C, L, U>(
                        collides,
                        place,
                        climb,
                        MoveAxis::Z,
                        after.on_ground,
                        push.holding_ledge,
                        second,
                        to,
                        stops_z,
                    )
                    &&& after == before.after(moves, push.goes_down, stops_x, stops_z, push.nothing)
                }
        }
    }

    /// Moves the character from a place as far as nothing is in the way, and returns the place that
    /// it comes to. `collides` tells what it touches at a place, `place` gives the places that a move
    /// asks for, and `climb` the place on top of an obstacle of a height, if that is low enough.
    pub fn advance<
        P: Copy,
        H: Copy,
        C: Fn(P) -> Option<H>,
        L: Fn(P, MoveTarget) -> P,
        U: Fn(P, MoveAxis, H) -> Option<P>,
    >(&mut self, push: MovePush<F>, collides: C, place: L, climb: U, from: P) -> (to: P)
        requires
            forall|at: P| #[trigger] call_requires(collides, (at,)),
            forall|at: P, asked: MoveTarget| #[trigger] call_requires(place, (at, asked)),
            forall|at: P, axis: MoveAxis, height: H| #[trigger]
                call_requires(climb, (at, axis, height)),
        ensures
            Self::is_advanced(*old(self), *final(self), push, collides, place, climb, from, to),
    {
        if !push.move_mode.collides() {
            return place(from, MoveTarget::Through);
        }
        let ghost before = *self;
        let target = place(from, MoveTarget::Vertical);
        let hit = collides(target);
        assert(finds(collides, place, from, MoveTarget::Vertical, target, hit));
        let moves = hit.is_none();
        let first = if moves {
            target
        } else {
            self.velocity.y = push.nothing;
            from
        };
        self.on_ground = !moves && push.goes_down;
        assert(is_lifted::<P, H, C, L>(collides, place, from, first, moves));
        let (second, stops_x) = slide(
            &collides,
            &place,
            &climb,
            MoveAxis::X,
            self.on_ground,
            push.holding_ledge,
            first,
        );
        if stops_x {
            self.velocity.x = push.nothing;
        }
        let (to, stops_z) = slide(
            &collides,
            &place,
            &climb,
            MoveAxis::Z,
            self.on_ground,
            push.holding_ledge,
            second,
        );
        if stops_z {
            self.velocity.z = push.nothing;
        }
        proof {
            let after = *self;
            assert(after == before.after(moves, push.goes_down, stops_x, stops_z, push.nothing));
            assert(is_slid::<P, H, C, L, U>(
                collides,
                place,
                climb,
                MoveAxis::X,
                after.on_ground,
                push.holding_ledge,
                first,
                second,
                stops_x,
            ));
            assert(is_slid::<P, H, C, L, U>(
                collides,
                place,
                climb,
                MoveAxis::Z,
                after.on_ground,
                push.holding_ledge,
                second,
                to,
                stops_z,
            ));
            assert(Self::is_advanced(before, after, push, collides, place, climb, from, to));
        }
        to
    }
}

/// How a character is moved.
#[derive(Copy, Clone)]
pub struct MovePush<F> {
    pub move_mode: MoveMode,
    /// Whether its vertical speed leads down.
    pub goes_down: bool,
    /// Whether it keeps off the edges of the ground that it stands on.
    pub holding_ledge: bool,
    /// No speed.
    pub nothing: F,
}

fn slide<
    P: Copy,
    H: Copy,
    C: Fn(P) -> Option<H>,
    L: Fn(P, MoveTarget) -> P,
    U: Fn(P, MoveAxis, H) -> Option<P>,
>(
    collides: &C,
    place: &L,
    climb: &U,
    axis: MoveAxis,
    on_ground: bool,
    holding_ledge: bool,
    from: P,
) -> (r: (P, bool))
    requires
        forall|at: P| #[trigger] call_requires(*collides, (at,)),
        forall|at: P, asked: MoveTarget| #[trigger] call_requires(*place, (at, asked)),
        forall|at: P, axis: MoveAxis, height: H| #[trigger]
            call_requires(*climb, (at, axis, height)),
    ensures
        is_slid::<P, H, C, L, U>(
            *collides,
            *place,
            *climb,
            axis,
            on_ground,
            holding_ledge,
            from,
            r.0,
            r.1,
        ),
{
    let target = place(from, MoveTarget::Along(axis));
    let hit = collides(target);
    assert(finds(*collides, *place, from, MoveTarget::Along(axis), target, hit));
    match hit {
        None => {
            if on_ground && holding_ledge {
                let below = place(from, MoveTarget::Below(axis));
                let ground = collides(below);
                assert(finds(*collides, *place, from, MoveTarget::Below(axis), below, ground));
                if ground.is_none() {
                    return (from, false);
                }
            }
            (target, false)
        },
        Some(height) => {
            let top = climb(from, axis, height);
            assert(call_ensures(*climb, (from, axis, height), top));
            match top {
                Some(top) => {
                    if on_ground {
                        let above = collides(top);
                        assert(call_ensures(*collides, (top,), above));
                        if above.is_none() {
                            return (top, false);
                        }
                    }
                    (from, true)
                },
                None => (from, true),
            }
        },
    }
}

/// Whether a character touches nothing at a place.
pub open spec fn is_clear<P, H, C: Fn(P) -> Option<H>>(collides: C, at: P) -> bool {
    call_ensures(collides, (at,), None)
}

/// Whether what is touched at a place is always the same.
pub open spec fn is_pure<P, H, C: Fn(P) -> Option<H>>(collides: C) -> bool {
    forall|at: P, a: Option<H>, b: Option<H>|
        #![trigger call_ensures(collides, (at,), a), call_ensures(collides, (at,), b)]
        call_ensures(collides, (at,), a) && call_ensures(collides, (at,), b) ==> a == b
}

/// A move with collisions never brings a character that touches nothing to a place where it touches
/// something, and a character on the ground has no vertical speed.
pub proof fn law_move_stays_clear<
    F: Copy,
    P,
    H,
    C: Fn(P) -> Option<H>,
    L: Fn(P, MoveTarget) -> P,
    U: Fn(P, MoveAxis, H) -> Option<P>,
>(
    before: CharacterController<F>,
    after: CharacterController<F>,
    push: MovePush<F>,
    collides: C,
    place: L,
    climb: U,
    from: P,
    to: P,
    hit: Option<H>,
)
    requires
        push.move_mode != MoveMode::NoClip,
        is_pure::<P, H, C>(collides),
        is_clear::<P, H, C>(collides, from),
        CharacterController::is_advanced(before, after, push, collides, place, climb, from, to),
    ensures
        is_clear::<P, H, C>(collides, to),
        call_ensures(collides, (to,), hit) ==> hit is None,
        after.on_ground ==> after.velocity.y == push.nothing,
{
}

/// What a character touches: nothing, the edge of the known world, or colliders up to a height.
/// Heights stand for themselves by their order.
#[derive(Copy, Clone, PartialEq, Eq, Structural, Debug)]
pub enum Collision {
    Nothing,
    Unknown,
    Height(i64),
}

/// The greatest number of a list.
pub open spec fn greatest(v: Seq<i64>) -> Option<int>
    decreases v.len(),
{
    if v.len() == 0 {
        None
    } else {
        match greatest(v.drop_last()) {
            Some(m) if m >= v.last() => Some(m),
            _ => Some(v.last() as int),
        }
    }
}

/// The heights that the blocks of a list are touched at, up to the first unknown block.
pub open spec fn heights(blocks: Seq<Option<Seq<i64>>>) -> Seq<i64>
    decreases blocks.len(),
{
    if blocks.len() == 0 {
        Seq::empty()
    } else {
        heights(blocks.drop_last()) + blocks.last().unwrap_or(Seq::empty())
    }
}

/// Whether a block is not known.
pub open spec fn any_unknown(blocks: Seq<Option<Seq<i64>>>) -> bool {
    exists|i: int| 0 <= i < blocks.len() && #[trigger] blocks[i] is None
}

/// What touching the blocks of a list comes to.
pub open spec fn collision_of(blocks: Seq<Option<Seq<i64>>>) -> Collision {
    if any_unknown(blocks) {
        Collision::Unknown
    } else {
        match greatest(heights(blocks)) {
            Some(height) => Collision::Height(height as i64),
            None => Collision::Nothing,
        }
    }
}

/// The views of the blocks of a list.
pub open spec fn block_views(blocks: Seq<Option<Vec<i64>>>) -> Seq<Option<Seq<i64>>> {
    blocks.map_values(
        |block: Option<Vec<i64>>|
            match block {
                Some(v) => Some(v@),
                None => None,
            },
    )
}

proof fn lemma_greatest_push(v: Seq<i64>, h: i64)
    ensures
        greatest(v.push(h)) == (match greatest(v) {
            Some(m) if m >= h => Some(m),
            _ => Some(h as int),
        }),
        greatest(v) matches Some(m) ==> i64::MIN <= m <= i64::MAX,
    decreases v.len(),
{
    assert(v.push(h).drop_last() =~= v);
    if v.len() > 0 {
        lemma_greatest_push(v.drop_last(), h);
    }
}

/// What a character touches of the blocks round it: for each block the heights of the colliders
/// that it touches, or nothing where the block is not known.
pub fn collides_at(blocks: &Vec<Option<Vec<i64>>>) -> (r: Collision)
    ensures
        r == collision_of(block_views(blocks@)),
{
    let ghost all = block_views(blocks@);
    let mut max_height: Option<i64> = None;
    let mut i: usize = 0;
    while i < blocks.len()
        invariant
            i <= blocks@.len(),
            all == block_views(blocks@),
            !any_unknown(all.take(i as int)),
            greatest(heights(all.take(i as int))) == (match max_height {
                Some(h) => Some(h as int),
                None => None,
            }),
        decreases blocks@.len() - i,
    {
        let ghost before = heights(all.take(i as int));
        assert(all.take(i + 1).drop_last() =~= all.take(i as int));
        match &blocks[i] {
            Some(colliders) => {
                assert(all[i as int] == Some(colliders@));
                let mut j: usize = 0;
                assert(before + colliders@.take(0) =~= before);
                while j < colliders.len()
                    invariant
                        j <= colliders@.len(),
                        greatest(before + colliders@.take(j as int)) == (match max_height {
                            Some(h) => Some(h as int),
                            None => None,
                        }),
                    decreases colliders@.len() - j,
                {
                    let height: i64 = colliders[j];
                    proof {
                        assert(before + colliders@.take(j + 1) =~= (before + colliders@.take(
                            j as int,
                        )).push(height));
                        lemma_greatest_push(before + colliders@.take(j as int), height);
                    }
                    match max_height {
                        Some(current) => {
                            if current < height {
                                max_height = Some(height);
                            }
                        },
                        None => {
                            max_height = Some(height);
                        },
                    }
                    j += 1;
                }
                proof {
                    assert(colliders@.take(colliders@.len() as int) =~= colliders@);
                    assert(heights(all.take(i + 1)) =~= before + colliders@);
                    assert forall|k: int| 0 <= k < all.take(i + 1).len() implies #[trigger]
                    all.take(i + 1)[k] is Some by {
                        if k < i {
                            assert(all.take(i as int)[k] is Some);
                        }
                    }
                }
            },
            None => {
                assert(all[i as int] is None);
                return Collision::Unknown;
            },
        }
        i += 1;
    }
    assert(all.take(all.len() as int) =~= all);
    match max_height {
        Some(height) => Collision::Height(height),
        None => Collision::Nothing,
    }
}

/// A character that nothing collides with goes to the end of its move and keeps its speed and its
/// footing.
pub proof fn law_ghosts_pass<
    F: Copy,
    P,
    H,
    C: Fn(P) -> Option<H>,
    L: Fn(P, MoveTarget) -> P,
    U: Fn(P, MoveAxis, H) -> Option<P>,
>(
    before: CharacterController<F>,
    after: CharacterController<F>,
    push: MovePush<F>,
    collides: C,
    place: L,
    climb: U,
    from: P,
    to: P,
)
    requires
        push.move_mode == MoveMode::NoClip,
        CharacterController::is_advanced(before, after, push, collides, place, climb, from, to),
    ensures
        call_ensures(place, (from, MoveTarget::Through), to),
        after.velocity == before.velocity,
        after.on_ground == before.on_ground,
{
}

/// Where there is nothing to touch, a character moves up or down, then along x and then along z, keeps
/// its speed and stands on no ground.
pub proof fn law_free_move<
    F: Copy,
    P,
    H,
    C: Fn(P) -> Option<H>,
    L: Fn(P, MoveTarget) -> P,
    U: Fn(P, MoveAxis, H) -> Option<P>,
>(
    before: CharacterController<F>,
    after: CharacterController<F>,
    push: MovePush<F>,
    collides: C,
    place: L,
    climb: U,
    from: P,
    to: P,
)
    requires
        push.move_mode != MoveMode::NoClip,
        forall|at: P, hit: Option<H>| #[trigger] call_ensures(collides, (at,), hit) ==> hit is None,
        CharacterController::is_advanced(before, after, push, collides, place, climb, from, to),
    ensures
        after.velocity == before.velocity,
        !after.on_ground,
        exists|first: P, second: P|
            #![trigger call_ensures(place, (first, MoveTarget::Along(MoveAxis::X)), second)]
            {
                &&& call_ensures(place, (from, MoveTarget::Vertical), first)
                &&& call_ensures(place, (first, MoveTarget::Along(MoveAxis::X)), second)
                &&& call_ensures(place, (second, MoveTarget::Along(MoveAxis::Z)), to)
            },
{
}

/// Where there is something to touch on every side and nothing to climb, a character stays and loses all
/// its speed; it stands on the ground if it was going down.
pub proof fn law_blocked_move<
    F: Copy,
    P,
    H,
    C: Fn(P) -> Option<H>,
    L: Fn(P, MoveTarget) -> P,
    U: Fn(P, MoveAxis, H) -> Option<P>,
>(
    before: CharacterController<F>,
    after: CharacterController<F>,
    push: MovePush<F>,
    collides: C,
    place: L,
    climb: U,
    from: P,
    to: P,
)
    requires
        push.move_mode != MoveMode::NoClip,
        forall|at: P, hit: Option<H>| #[trigger] call_ensures(collides, (at,), hit) ==> hit is Some,
        forall|at: P, axis: MoveAxis, height: H, top: Option<P>| #[trigger]
            call_ensures(climb, (at, axis, height), top) ==> top is None,
        CharacterController::is_advanced(before, after, push, collides, place, climb, from, to),
    ensures
        to == from,
        after.velocity.x == push.nothing,
        after.velocity.y == push.nothing,
        after.velocity.z == push.nothing,
        after.on_ground == push.goes_down,
{
}

/// Along the ground: where the way is free a character goes to its end, unless it holds on to ledges,
/// stands on the ground and would have none below it: then it stays. Neither stops it. An obstacle is
/// climbed from the ground where it has a top with room; any other obstacle stops the character where it
/// is.
pub proof fn law_slide<
    P,
    H,
    C: Fn(P) -> Option<H>,
    L: Fn(P, MoveTarget) -> P,
    U: Fn(P, MoveAxis, H) -> Option<P>,
>(
    collides: C,
    place: L,
    climb: U,
    axis: MoveAxis,
    on_ground: bool,
    holding_ledge: bool,
    from: P,
    to: P,
    stops: bool,
    target: P,
    hit: Option<H>,
    below: P,
    ground: Option<H>,
    top: Option<P>,
    above: Option<H>,
)
    requires
        is_slid::<P, H, C, L, U>(
            collides,
            place,
            climb,
            axis,
            on_ground,
            holding_ledge,
            from,
            to,
            stops,
        ),
        is_pure::<P, H, C>(collides),
        forall|at: P, asked: MoveTarget, a: P, b: P|
            #![trigger call_ensures(place, (at, asked), a), call_ensures(place, (at, asked), b)]
            call_ensures(place, (at, asked), a) && call_ensures(place, (at, asked), b) ==> a == b,
        forall|at: P, along: MoveAxis, height: H, a: Option<P>, b: Option<P>|
            #![trigger call_ensures(climb, (at, along, height), a), call_ensures(climb, (at, along, height), b)]
            call_ensures(climb, (at, along, height), a) && call_ensures(
                climb,
                (at, along, height),
                b,
            ) ==> a == b,
        call_ensures(place, (from, MoveTarget::Along(axis)), target),
        call_ensures(collides, (target,), hit),
        call_ensures(place, (from, MoveTarget::Below(axis)), below),
        call_ensures(collides, (below,), ground),
        hit is Some ==> call_ensures(climb, (from, axis, hit->0), top),
        top is Some ==> call_ensures(collides, (top->0,), above),
    ensures
        hit is None && !(on_ground && holding_ledge) ==> to == target && !stops,
        hit is None && on_ground && holding_ledge && ground is Some ==> to == target && !stops,
        hit is None && on_ground && holding_ledge && ground is None ==> to == from && !stops,
        hit is Some && on_ground && top is Some && above is None ==> to == top->0 && !stops,
        hit is Some && !(on_ground && top is Some && above is None) ==> to == from && stops,
{
    let (t, h) = choose|t: P, h: Option<H>| #[trigger]
        finds(collides, place, from, MoveTarget::Along(axis), t, h) && match h {
            None => !stops && is_walked::<P, H, C, L>(
                collides,
                place,
                axis,
                on_ground && holding_ledge,
                from,
                t,
                to,
            ),
            Some(height) => exists|top: Option<P>| #[trigger]
                call_ensures(climb, (from, axis, height), top) && is_climbed::<P, H, C>(
                    collides,
                    reachable(on_ground, top),
                    from,
                    to,
                    stops,
                ),
        };
    assert(t == target);
    assert(h == hit);
}

/// A character touches the edge of the known world where a block is unknown. Elsewhere it touches
/// something up to the greatest of the heights, or nothing where there are none.
pub proof fn law_collision(blocks: Seq<Option<Seq<i64>>>, block: int, i: int)
    ensures
        collision_of(blocks) is Unknown <==> exists|k: int|
            0 <= k < blocks.len() && #[trigger] blocks[k] is None,
        0 <= block < blocks.len() && blocks[block] is Some && 0 <= i < blocks[block]->0.len()
            && collision_of(blocks) !is Unknown ==> (collision_of(blocks) matches Collision::Height(
            height,
        ) && blocks[block]->0[i] <= height),
        collision_of(blocks) matches Collision::Height(height) ==> exists|k: int, j: int|
            0 <= k < blocks.len() && blocks[k] is Some && 0 <= j < blocks[k]->0.len()
                && #[trigger] blocks[k]->0[j] == height,
{
    if !any_unknown(blocks) {
        lemma_heights_held(blocks, block, i);
        lemma_greatest(heights(blocks));
        if let Some(m) = greatest(heights(blocks)) {
            lemma_height_from(blocks, m as i64);
        }
    }
}

proof fn lemma_greatest(v: Seq<i64>)
    ensures
        greatest(v) is None <==> v.len() == 0,
        forall|i: int| 0 <= i < v.len() ==> #[trigger] v[i] <= greatest(v)->0,
        greatest(v) matches Some(m) ==> i64::MIN <= m <= i64::MAX && v.contains(m as i64),
    decreases v.len(),
{
    if v.len() > 0 {
        let rest = v.drop_last();
        lemma_greatest(rest);
        assert(v =~= rest.push(v.last()));
        assert forall|i: int| 0 <= i < v.len() implies #[trigger] v[i] <= greatest(v)->0 by {
            if i < rest.len() {
                assert(rest[i] <= greatest(rest)->0);
            }
        }
        let m = (greatest(v)->0) as i64;
        if v.last() == m {
            assert(v[v.len() - 1] == m);
        } else {
            assert(rest.contains(m));
            let i = choose|i: int| 0 <= i < rest.len() && rest[i] == m;
            assert(v[i] == m);
        }
    }
}

proof fn lemma_heights_held(blocks: Seq<Option<Seq<i64>>>, block: int, i: int)
    ensures
        0 <= block < blocks.len() && blocks[block] is Some && 0 <= i < blocks[block]->0.len()
            ==> heights(blocks).contains(blocks[block]->0[i]),
    decreases blocks.len(),
{
    if 0 <= block < blocks.len() && blocks[block] is Some && 0 <= i < blocks[block]->0.len() {
        let rest = blocks.drop_last();
        let before = heights(rest);
        let all = heights(blocks);
        if block < rest.len() {
            lemma_heights_held(rest, block, i);
            let j = choose|j: int| 0 <= j < before.len() && before[j] == blocks[block]->0[i];
            assert(all[j] == before[j]);
        } else {
            assert(all[before.len() + i] == blocks[block]->0[i]);
        }
    }
}

proof fn lemma_height_from(blocks: Seq<Option<Seq<i64>>>, height: i64)
    requires
        heights(blocks).contains(height),
    ensures
        exists|k: int, j: int|
            0 <= k < blocks.len() && blocks[k] is Some && 0 <= j < blocks[k]->0.len()
                && #[trigger] blocks[k]->0[j] == height,
    decreases blocks.len(),
{
    if blocks.len() > 0 {
        let rest = blocks.drop_last();
        let before = heights(rest);
        let all = heights(blocks);
        let i = choose|i: int| 0 <= i < all.len() && all[i] == height;
        if i < before.len() {
            assert(before[i] == height);
            lemma_height_from(rest, height);
            let (k, j) = choose|k: int, j: int|
                0 <= k < rest.len() && rest[k] is Some && 0 <= j < rest[k]->0.len()
                    && #[trigger] rest[k]->0[j] == height;
            assert(blocks[k]->0[j] == height);
        } else {
            assert(blocks.last() is Some);
            assert(blocks[blocks.len() - 1]->0[i - before.len()] == height);
        }
    }
}

/// A character is low where it crouches, crouches and walks, or slides, and in no other pose.
pub proof fn law_low_poses(pose: EntityPose)
    ensures
        EntityPose::Crouch.is_low(),
        EntityPose::CrouchWalk.is_low(),
        EntityPose::Slide.is_low(),
        pose is Stand || pose is Walk || pose is Run || pose is Levitate || pose is Fly || pose is Fall
            || pose is Sleeping || pose is Mantle ==> !pose.is_low(),
{
}

} // verus!
