//! Cutting polygons off at the edges of a rectangle.

use vstd::prelude::*;

verus! {

/// A corner of a polygon that was cut off at a line.
#[derive(Copy, Clone)]
pub enum Corner<V: Copy> {
    /// A corner of the polygon.
    Kept(V),
    /// Where the side between two corners meets the line.
    Crossing(V, V),
}

/// What a corner of a polygon and the side that leads to it leave of the polygon. Each corner comes
/// with whether it lies inside.
pub open spec fn clipped_corner<V: Copy>(from: (V, bool), to: (V, bool)) -> Seq<Corner<V>> {
    (if from.1 != to.1 {
        seq![Corner::Crossing(from.0, to.0)]
    } else {
        Seq::empty()
    }) + (if to.1 {
        seq![Corner::Kept(to.0)]
    } else {
        Seq::empty()
    })
}

/// The corner before that at place `i`, round the polygon.
pub open spec fn corner_before<V: Copy>(polygon: Seq<(V, bool)>, i: int) -> (V, bool) {
    if i == 0 {
        polygon.last()
    } else {
        polygon[i - 1]
    }
}

/// What the first `n` corners leave of a polygon.
pub open spec fn clipped<V: Copy>(polygon: Seq<(V, bool)>, n: int) -> Seq<Corner<V>>
    decreases n,
{
    if n <= 0 {
        Seq::empty()
    } else {
        clipped(polygon, n - 1) + clipped_corner(corner_before(polygon, n - 1), polygon[n - 1])
    }
}

/// Cuts a polygon off at a line: the corners inside are kept, and where a side crosses the line there
/// is a new corner.
pub fn clip_against_edge<V: Copy>(polygon: &Vec<(V, bool)>) -> (r: Vec<Corner<V>>)
    ensures
        r@ == clipped(polygon@, polygon@.len() as int),
{
    let mut r: Vec<Corner<V>> = Vec::new();
    let mut i: usize = 0;
    while i < polygon.len()
        invariant
            i <= polygon@.len(),
            r@ == clipped(polygon@, i as int),
        decreases polygon@.len() - i,
    {
        let to = polygon[i];
        let from = if i == 0 {
            polygon[polygon.len() - 1]
        } else {
            polygon[i - 1]
        };
        assert(from == corner_before(polygon@, i as int));
        let ghost before = r@;
        if to.1 {
            if !from.1 {
                r.push(Corner::Crossing(from.0, to.0));
            }
            r.push(Corner::Kept(to.0));
        } else if from.1 {
            r.push(Corner::Crossing(from.0, to.0));
        }
        i += 1;
        assert(r@ =~= before + clipped_corner(from, to));
    }
    r
}

/// A polygon that lies inside is kept as it is, and of one that lies outside nothing is left.
pub proof fn law_clip_keeps_inside<V: Copy>(polygon: Seq<(V, bool)>, n: int)
    requires
        0 <= n <= polygon.len(),
    ensures
        (forall|i: int| 0 <= i < polygon.len() ==> (#[trigger] polygon[i]).1) ==> clipped(polygon, n)
            == Seq::new(n as nat, |i: int| Corner::Kept(polygon[i].0)),
        (forall|i: int| 0 <= i < polygon.len() ==> !(#[trigger] polygon[i]).1) ==> clipped(polygon, n)
            == Seq::<Corner<V>>::empty(),
    decreases n,
{
    if n > 0 {
        law_clip_keeps_inside(polygon, n - 1);
        if forall|i: int| 0 <= i < polygon.len() ==> (#[trigger] polygon[i]).1 {
            assert(corner_before(polygon, n - 1).1) by {
                assert(polygon[polygon.len() - 1].1);
            }
            assert(clipped(polygon, n) =~= Seq::new(
                n as nat,
                |i: int| Corner::Kept(polygon[i].0),
            ));
        }
        if forall|i: int| 0 <= i < polygon.len() ==> !(#[trigger] polygon[i]).1 {
            assert(!corner_before(polygon, n - 1).1) by {
                assert(!polygon[polygon.len() - 1].1);
            }
            assert(clipped(polygon, n) =~= Seq::<Corner<V>>::empty());
        }
    } else {
        assert(clipped(polygon, 0) =~= Seq::new(0, |i: int| Corner::Kept(polygon[i].0)));
    }
}

/// Cutting a polygon off at a line at most doubles its corners.
pub proof fn law_clip_length<V: Copy>(polygon: Seq<(V, bool)>, n: int)
    requires
        0 <= n <= polygon.len(),
    ensures
        clipped(polygon, n).len() <= 2 * n,
    decreases n,
{
    if n > 0 {
        law_clip_length(polygon, n - 1);
    }
}

/// A span, by numbers that are ordered as its ends are.
#[derive(Copy, Clone, PartialEq, Eq, Structural, Debug)]
pub struct Span {
    pub start: i64,
    pub end: i64,
}

/// Which ends of a span are cut off.
#[derive(Copy, Clone, PartialEq, Eq, Structural, Debug)]
pub struct Cut {
    pub start: bool,
    pub end: bool,
}

impl Span {
    /// Whether the span has a point in common with another.
    pub open spec fn meets(self, other: Span) -> bool {
        self.end >= other.start && self.start <= other.end
    }

    /// Whether a point lies in the span.
    pub open spec fn holds(self, point: int) -> bool {
        self.start <= point <= self.end
    }

    /// What a cut leaves of the span; `other` is the span at whose ends it is cut off.
    pub open spec fn after(self, other: Span, cut: Cut) -> Span {
        Span {
            start: if cut.start {
                other.start
            } else {
                self.start
            },
            end: if cut.end {
                other.end
            } else {
                self.end
            },
        }
    }

    /// Which ends of the span lie outside of another; none if the spans do not meet.
    pub fn clip(self, other: Span) -> (r: Option<Cut>)
        ensures
            r == if self.meets(other) {
                Some(Cut { start: self.start < other.start, end: self.end > other.end })
            } else {
                None
            },
    {
        if self.end < other.start || self.start > other.end {
            None
        } else {
            Some(Cut { start: self.start < other.start, end: self.end > other.end })
        }
    }
}

/// What is left of a span that was cut off are the points that both spans hold.
pub proof fn law_cut_is_common(span: Span, other: Span, point: int)
    requires
        span.meets(other),
    ensures
        span.after(
            other,
            Cut { start: span.start < other.start, end: span.end > other.end },
        ).holds(point) <==> span.holds(point) && other.holds(point),
{
}

/// How a rectangle is cut off at the edges of another: along both axes; none if nothing of it is left.
pub fn add_quad_clip(quad: (Span, Span), clip: (Span, Span)) -> (r: Option<(Cut, Cut)>)
    ensures
        r == if quad.0.meets(clip.0) && quad.1.meets(clip.1) {
            Some(
                (
                    Cut { start: quad.0.start < clip.0.start, end: quad.0.end > clip.0.end },
                    Cut { start: quad.1.start < clip.1.start, end: quad.1.end > clip.1.end },
                ),
            )
        } else {
            None
        },
{
    match (quad.0.clip(clip.0), quad.1.clip(clip.1)) {
        (Some(x), Some(y)) => Some((x, y)),
        _ => None,
    }
}

/// Going on to the next corner of a polygon: a side that comes in leaves its crossing and then its
/// end, a side inside leaves its end, a side that goes out leaves its crossing, and a side outside
/// leaves nothing. What was left before stays.
pub proof fn law_sides_are_cut<V: Copy>(polygon: Seq<(V, bool)>, i: int)
    requires
        0 <= i < polygon.len(),
    ensures
        ({
            let from = if i == 0 {
                polygon[polygon.len() - 1]
            } else {
                polygon[i - 1]
            };
            let to = polygon[i];
            let before = clipped(polygon, i);
            let r = clipped(polygon, i + 1);
            &&& before == r.take(before.len() as int)
            &&& !from.1 && to.1 ==> r.len() == before.len() + 2 && r[before.len() as int]
                == Corner::Crossing(from.0, to.0) && r[before.len() as int + 1] == Corner::Kept(to.0)
            &&& from.1 && to.1 ==> r.len() == before.len() + 1 && r[before.len() as int]
                == Corner::Kept(to.0)
            &&& from.1 && !to.1 ==> r.len() == before.len() + 1 && r[before.len() as int]
                == Corner::Crossing(from.0, to.0)
            &&& !from.1 && !to.1 ==> r.len() == before.len()
        }),
{
    assert(clipped(polygon, i) =~= clipped(polygon, i + 1).take(clipped(polygon, i).len() as int));
}

} // verus!
