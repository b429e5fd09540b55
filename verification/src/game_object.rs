use vstd::prelude::*;

use crate::point_set::DotSet;
use crate::position::{imax, imin, IndexType, Point};

pub mod game_object_area;
pub mod game_object_impls;

pub use game_object_area::GameObjectAreaImpl;
pub use game_object_impls::GameObjectAnimated;
pub use game_object_impls::GameObjectStatic;

verus! {

/// A positioned rectangle as a pair of corners in mathematical integers:
/// the anchor and the corner one width and height past it.
pub type SpecRect = ((int, int), (int, int));

/// The corners of an executable rectangle as mathematical integers.
pub open spec fn rect_view(r: (Point, Point)) -> SpecRect {
    ((r.0.x as int, r.0.y as int), (r.1.x as int, r.1.y as int))
}

/// A rectangle with no extent on some axis; such a rectangle never
/// overlaps anything.
pub open spec fn rect_degenerate(r: SpecRect) -> bool {
    r.0.0 == r.1.0 || r.0.1 == r.1.1
}

/// The separating-axis test: two rectangles overlap unless one is
/// degenerate or they are apart on some axis.
pub open spec fn rects_overlap(r1: SpecRect, r2: SpecRect) -> bool {
    &&& !rect_degenerate(r1)
    &&& !rect_degenerate(r2)
    &&& !(r1.0.0 > r2.1.0)
    &&& !(r2.0.0 > r1.1.0)
    &&& !(r1.0.1 > r2.1.1)
    &&& !(r2.0.1 > r1.1.1)
}

/// The paired local dots of two positioned objects: one pair for every
/// world dot of the intersection rectangle that both point-sets occupy,
/// each component expressed in its own object's local coordinates.
pub open spec fn overlap_pairs(
    r1: SpecRect,
    s1: Set<(int, int)>,
    r2: SpecRect,
    s2: Set<(int, int)>,
) -> Set<((int, int), (int, int))> {
    if !rects_overlap(r1, r2) {
        Set::empty()
    } else {
        Set::new(
            |pr: ((int, int), (int, int))|
                {
                    let wx = pr.0.0 + r1.0.0;
                    let wy = pr.0.1 + r1.0.1;
                    &&& pr.1.0 == wx - r2.0.0
                    &&& pr.1.1 == wy - r2.0.1
                    &&& imax(r1.0.0, r2.0.0) <= wx <= imin(r1.1.0, r2.1.0)
                    &&& imax(r1.0.1, r2.0.1) <= wy <= imin(r1.1.1, r2.1.1)
                    &&& s1.contains(pr.0)
                    &&& s2.contains(pr.1)
                },
        )
    }
}

/// Like `overlap_pairs`, but holding only the pairs whose world dot comes
/// before column `x`, or in column `x` before row `y`: the part a
/// column-major sweep has produced so far.
pub open spec fn overlap_pairs_upto(
    r1: SpecRect,
    s1: Set<(int, int)>,
    r2: SpecRect,
    s2: Set<(int, int)>,
    x: int,
    y: int,
) -> Set<((int, int), (int, int))> {
    overlap_pairs(r1, s1, r2, s2).intersect(
        Set::new(
            |pr: ((int, int), (int, int))|
                {
                    let wx = pr.0.0 + r1.0.0;
                    let wy = pr.0.1 + r1.0.1;
                    wx < x || (wx == x && wy < y)
                },
        ),
    )
}

/// The view of one executable pair of local dots.
pub open spec fn pair_view(pr: (Point, Point)) -> ((int, int), (int, int)) {
    ((pr.0.x as int, pr.0.y as int), (pr.1.x as int, pr.1.y as int))
}

/// The views of a list of executable pairs.
pub open spec fn pairs_view(s: Seq<(Point, Point)>) -> Seq<((int, int), (int, int))> {
    s.map_values(|pr: (Point, Point)| pair_view(pr))
}

/// Whether two positioned rectangles overlap at all.
pub fn game_object_overlap(rect1: &(Point, Point), rect2: &(Point, Point)) -> (r: bool)
    ensures
        r == rects_overlap(rect_view(*rect1), rect_view(*rect2)),
{
    if rect1.0.x == rect1.1.x || rect1.0.y == rect1.1.y || rect2.0.x == rect2.1.x || rect2.0.y
        == rect2.1.y {
        return false;
    }
    if rect1.0.x > rect2.1.x || rect2.0.x > rect1.1.x {
        return false;
    }
    if rect1.0.y > rect2.1.y || rect2.0.y > rect1.1.y {
        return false;
    }
    true
}

/// Walk every world dot of the intersection rectangle and collect the
/// pairs of local dots that both point-sets occupy.  The result holds each
/// pair once, in column-major order.
pub fn game_object_intersection(
    rect1: (Point, Point),
    set1: &DotSet,
    rect2: (Point, Point),
    set2: &DotSet,
) -> (res: Vec<(Point, Point)>)
    requires
        rect1.1.x as int - rect1.0.x as int <= i16::MAX as int,
        rect1.1.y as int - rect1.0.y as int <= i16::MAX as int,
        rect2.1.x as int - rect2.0.x as int <= i16::MAX as int,
        rect2.1.y as int - rect2.0.y as int <= i16::MAX as int,
    ensures
        pairs_view(res@).to_set() == overlap_pairs(
            rect_view(rect1),
            set1.dots(),
            rect_view(rect2),
            set2.dots(),
        ),
        pairs_view(res@).no_duplicates(),
{
    let ghost r1 = rect_view(rect1);
    let ghost r2 = rect_view(rect2);
    let ghost s1 = set1.dots();
    let ghost s2 = set2.dots();
    let mut res: Vec<(Point, Point)> = Vec::new();
    if !game_object_overlap(&rect1, &rect2) {
        proof {
            assert(pairs_view(res@) =~= Seq::<((int, int), (int, int))>::empty());
            assert(pairs_view(res@).to_set()
                =~= overlap_pairs(r1, s1, r2, s2));
        }
        return res;
    }
    let lo_x: i32 = if rect1.0.x > rect2.0.x {
        rect1.0.x as i32
    } else {
        rect2.0.x as i32
    };
    let hi_x: i32 = if rect1.1.x < rect2.1.x {
        rect1.1.x as i32
    } else {
        rect2.1.x as i32
    };
    let lo_y: i32 = if rect1.0.y > rect2.0.y {
        rect1.0.y as i32
    } else {
        rect2.0.y as i32
    };
    let hi_y: i32 = if rect1.1.y < rect2.1.y {
        rect1.1.y as i32
    } else {
        rect2.1.y as i32
    };
    proof {
        assert(pairs_view(res@) =~= Seq::<(
            (int, int),
            (int, int),
        )>::empty());
        assert(pairs_view(res@).to_set()
            =~= overlap_pairs_upto(r1, s1, r2, s2, lo_x as int, lo_y as int));
    }
    let mut x: i32 = lo_x;
    while x <= hi_x
        invariant
            rects_overlap(r1, r2),
            r1 == rect_view(rect1),
            r2 == rect_view(rect2),
            s1 == set1.dots(),
            s2 == set2.dots(),
            lo_x as int == imax(r1.0.0, r2.0.0),
            hi_x as int == imin(r1.1.0, r2.1.0),
            lo_y as int == imax(r1.0.1, r2.0.1),
            hi_y as int == imin(r1.1.1, r2.1.1),
            r1.1.0 - r1.0.0 <= i16::MAX as int,
            r1.1.1 - r1.0.1 <= i16::MAX as int,
            r2.1.0 - r2.0.0 <= i16::MAX as int,
            r2.1.1 - r2.0.1 <= i16::MAX as int,
            lo_x <= x,
            x as int <= imax(lo_x as int, hi_x as int + 1),
            pairs_view(res@).to_set() == overlap_pairs_upto(
                r1,
                s1,
                r2,
                s2,
                x as int,
                lo_y as int,
            ),
            pairs_view(res@).no_duplicates(),
        decreases hi_x + 1 - x,
    {
        let mut y: i32 = lo_y;
        while y <= hi_y
            invariant
                rects_overlap(r1, r2),
                r1 == rect_view(rect1),
                r2 == rect_view(rect2),
                s1 == set1.dots(),
                s2 == set2.dots(),
                lo_x as int == imax(r1.0.0, r2.0.0),
                hi_x as int == imin(r1.1.0, r2.1.0),
                lo_y as int == imax(r1.0.1, r2.0.1),
                hi_y as int == imin(r1.1.1, r2.1.1),
                r1.1.0 - r1.0.0 <= i16::MAX as int,
                r1.1.1 - r1.0.1 <= i16::MAX as int,
                r2.1.0 - r2.0.0 <= i16::MAX as int,
                r2.1.1 - r2.0.1 <= i16::MAX as int,
                lo_x <= x,
                x <= hi_x,
                lo_y <= y,
                y as int <= imax(lo_y as int, hi_y as int + 1),
                pairs_view(res@).to_set()
                    == overlap_pairs_upto(r1, s1, r2, s2, x as int, y as int),
                pairs_view(res@).no_duplicates(),
            decreases hi_y + 1 - y,
        {
            let p1 = Point { x: (x - rect1.0.x as i32) as IndexType, y: (y - rect1.0.y as i32) as IndexType };
            let p2 = Point { x: (x - rect2.0.x as i32) as IndexType, y: (y - rect2.0.y as i32) as IndexType };
            proof {
                assert(p1.x as int == x as int - r1.0.0);
                assert(p1.y as int == y as int - r1.0.1);
                assert(p2.x as int == x as int - r2.0.0);
                assert(p2.y as int == y as int - r2.0.1);
            }
            let ghost pre = res@;
            let hit1 = set1.contains(&p1);
            let hit2 = set2.contains(&p2);
            if hit1 && hit2 {
                res.push((p1, p2));
                proof {
                    let new_pair = pair_view((p1, p2));
                    assert(res@ =~= pre.push((p1, p2)));
                    assert(pairs_view(res@) =~= pairs_view(pre).push(new_pair));
                    assert(!overlap_pairs_upto(r1, s1, r2, s2, x as int, y as int).contains(
                        new_pair,
                    ));
                    assert(!pairs_view(pre).contains(new_pair));
                    assert(pairs_view(res@).no_duplicates());
                    pairs_view(pre).lemma_push_to_set_commute(new_pair);
                    assert(pairs_view(res@).to_set() =~= overlap_pairs_upto(
                        r1,
                        s1,
                        r2,
                        s2,
                        x as int,
                        y as int + 1,
                    ));
                }
            } else {
                proof {
                    assert(pairs_view(res@).to_set()
                        =~= overlap_pairs_upto(r1, s1, r2, s2, x as int, y as int + 1));
                }
            }
            y = y + 1;
        }
        proof {
            assert(pairs_view(res@).to_set()
                =~= overlap_pairs_upto(r1, s1, r2, s2, x as int + 1, lo_y as int));
        }
        x = x + 1;
    }
    proof {
        assert(pairs_view(res@).to_set() =~= overlap_pairs(
            r1,
            s1,
            r2,
            s2,
        ));
    }
    res
}

/// Overlap is symmetric: the pairs of `(A, B)` are exactly the pairs of
/// `(B, A)` with their local components swapped.
pub proof fn lemma_overlap_symmetric(
    r1: SpecRect,
    s1: Set<(int, int)>,
    r2: SpecRect,
    s2: Set<(int, int)>,
)
    ensures
        forall|a: (int, int), b: (int, int)|
            #[trigger] overlap_pairs(r1, s1, r2, s2).contains((a, b)) <==> #[trigger] overlap_pairs(
                r2,
                s2,
                r1,
                s1,
            ).contains((b, a)),
{
}

/// Overlap is empty whenever the rectangles do not pass the separating
/// axis test — in particular whenever they are disjoint on some axis.
pub proof fn lemma_overlap_disjoint_empty(
    r1: SpecRect,
    s1: Set<(int, int)>,
    r2: SpecRect,
    s2: Set<(int, int)>,
)
    requires
        !rects_overlap(r1, r2),
    ensures
        overlap_pairs(r1, s1, r2, s2).is_empty(),
{
    assert(overlap_pairs(r1, s1, r2, s2) =~= Set::empty());
}

/// Every overlap pair lies inside the true intersection rectangle, and on
/// dots that both point-sets occupy: never outside it.
pub proof fn lemma_overlap_within(
    r1: SpecRect,
    s1: Set<(int, int)>,
    r2: SpecRect,
    s2: Set<(int, int)>,
)
    ensures
        forall|pr: ((int, int), (int, int))|
            #[trigger] overlap_pairs(r1, s1, r2, s2).contains(pr) ==> {
                let wx = pr.0.0 + r1.0.0;
                let wy = pr.0.1 + r1.0.1;
                &&& imax(r1.0.0, r2.0.0) <= wx <= imin(r1.1.0, r2.1.0)
                &&& imax(r1.0.1, r2.0.1) <= wy <= imin(r1.1.1, r2.1.1)
                &&& s1.contains(pr.0)
                &&& s2.contains(pr.1)
                &&& pr.1.0 == wx - r2.0.0
                &&& pr.1.1 == wy - r2.0.1
            },
{
}

/// The positioned rectangle a game object spans: its anchor and the
/// corner one width and height past it.
pub open spec fn go_rect<G: GameObject>(g: G) -> SpecRect {
    (
        (g.go_pos().0, g.go_pos().1),
        (g.go_pos().0 + g.go_size().0, g.go_pos().1 + g.go_size().1),
    )
}

/// Whether a game object's rectangle fits the coordinate type, so that its
/// corners can be computed without wrapping.
pub open spec fn go_rect_fits<G: GameObject>(g: G) -> bool {
    &&& g.go_size().0 <= i16::MAX as int
    &&& g.go_size().1 <= i16::MAX as int
    &&& g.go_pos().0 + g.go_size().0 <= i16::MAX as int
    &&& g.go_pos().1 + g.go_size().1 <= i16::MAX as int
}

/// An entity that takes part in collision detection: it exposes a local
/// point-set, a world anchor and an extent.
pub trait GameObject: Sized {
    /// The local dots used for collision.
    spec fn go_dots(&self) -> Set<(int, int)>;

    /// Whether a point-set is available at all.
    spec fn go_has_set(&self) -> bool;

    /// The world anchor.
    spec fn go_pos(&self) -> (int, int);

    /// The width and height the entity reports.
    spec fn go_size(&self) -> (int, int);

    /// Well-formedness of the entity.
    spec fn go_inv(&self) -> bool;

    /// A well-formed entity has positive extent on both axes.
    proof fn go_props(&self)
        requires
            self.go_inv(),
        ensures
            1 <= self.go_size().0,
            1 <= self.go_size().1,
    ;

    fn get_point_set(&self) -> (r: Option<&DotSet>)
        requires
            self.go_inv(),
        ensures
            (match r {
                Some(ds) => self.go_has_set() && ds.inv() && ds.dots() == self.go_dots(),
                None => !self.go_has_set(),
            }),
    ;

    fn get_position(&self) -> (r: Point)
        requires
            self.go_inv(),
        ensures
            (r.x as int, r.y as int) == self.go_pos(),
    ;

    fn get_width(&self) -> (r: IndexType)
        requires
            self.go_inv(),
            self.go_size().0 <= i16::MAX as int,
        ensures
            r as int == self.go_size().0,
    ;

    fn get_height(&self) -> (r: IndexType)
        requires
            self.go_inv(),
            self.go_size().1 <= i16::MAX as int,
        ensures
            r as int == self.go_size().1,
    ;

    fn get_rect(&self) -> (r: (Point, Point))
        requires
            self.go_inv(),
            self.go_size().0 <= i16::MAX as int,
            self.go_size().1 <= i16::MAX as int,
            self.go_pos().0 + self.go_size().0 <= i16::MAX as int,
            self.go_pos().1 + self.go_size().1 <= i16::MAX as int,
        ensures
            (r.0.x as int, r.0.y as int) == self.go_pos(),
            r.1.x as int == self.go_pos().0 + self.go_size().0,
            r.1.y as int == self.go_pos().1 + self.go_size().1,
    ;

}

/// The rectangle of any entity, from its anchor and extent.
pub fn rect_of<G: GameObject>(g: &G) -> (r: (Point, Point))
    requires
        g.go_inv(),
        go_rect_fits(*g),
    ensures
        rect_view(r) == go_rect(*g),
{
    proof {
        g.go_props();
    }
    let pos = g.get_position();
    let w = g.get_width();
    let h = g.get_height();
    (pos, Point { x: pos.x + w, y: pos.y + h })
}

/// The overlap of any two entities: empty unless both expose a point-set.
pub fn overlap_of<G1: GameObject, G2: GameObject>(a: &G1, b: &G2) -> (res: Vec<(Point, Point)>)
    requires
        a.go_inv(),
        b.go_inv(),
        go_rect_fits(*a),
        go_rect_fits(*b),
    ensures
        a.go_has_set() && b.go_has_set() ==> pairs_view(res@).to_set() == overlap_pairs(
            go_rect(*a),
            a.go_dots(),
            go_rect(*b),
            b.go_dots(),
        ) && pairs_view(res@).no_duplicates(),
        !(a.go_has_set() && b.go_has_set()) ==> res@ == Seq::<(Point, Point)>::empty(),
{
    proof {
        a.go_props();
        b.go_props();
    }
    let sa = a.get_point_set();
    match sa {
        Some(set_a) => {
            let sb = b.get_point_set();
            match sb {
                Some(set_b) => {
                    let ra = rect_of(a);
                    let rb = rect_of(b);
                    game_object_intersection(ra, set_a, rb, set_b)
                },
                None => {
                    let res: Vec<(Point, Point)> = Vec::new();
                    res
                },
            }
        },
        None => {
            let res: Vec<(Point, Point)> = Vec::new();
            res
        },
    }
}

} // verus!
