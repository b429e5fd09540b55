use vstd::prelude::*;

use crate::canvas::{art_dots, corner_extended, draw_from_string, with_drawn, Canvas};
use crate::point_set::{DotSet, PointSet};
use crate::position::{imax, IndexType, Point};

verus! {

/// Whether `b` is the cached bounding corner that monotone insertion
/// maintains for the dots `s`: never negative, an upper bound for every
/// dot, and reached by some dot on each axis unless that axis is at zero.
pub open spec fn tight_bound(s: Set<(int, int)>, b: (int, int)) -> bool {
    &&& 0 <= b.0
    &&& 0 <= b.1
    &&& forall|d: (int, int)| #[trigger] s.contains(d) ==> d.0 <= b.0 && d.1 <= b.1
    &&& (b.0 == 0 || exists|d: (int, int)| #[trigger] s.contains(d) && d.0 == b.0)
    &&& (b.1 == 0 || exists|d: (int, int)| #[trigger] s.contains(d) && d.1 == b.1)
}

/// The set `s` turned a quarter turn: every dot `(x, y)` moves to
/// `(my - y, x)`, with `my` the bounding row of the original set.
pub open spec fn rot_set(s: Set<(int, int)>, my: int) -> Set<(int, int)> {
    Set::new(|q: (int, int)| s.contains((q.1, my - q.0)))
}

/// The dots of `s` translated by `(dx, dy)`.
pub open spec fn shift_dots(s: Set<(int, int)>, dx: int, dy: int) -> Set<(int, int)> {
    Set::new(|q: (int, int)| s.contains((q.0 - dx, q.1 - dy)))
}


/// The one corner that `tight_bound` allows for a dot set.
pub open spec fn tight_corner(s: Set<(int, int)>) -> (int, int) {
    choose|b: (int, int)| tight_bound(s, b)
}

/// A set has at most one tight corner, so `tight_corner` names it.
pub proof fn lemma_tight_corner_unique(s: Set<(int, int)>, b: (int, int))
    requires
        tight_bound(s, b),
    ensures
        tight_corner(s) == b,
{
    let c = tight_corner(s);
    assert(tight_bound(s, c));
    if c.0 < b.0 {
        let d = choose|d: (int, int)| #[trigger] s.contains(d) && d.0 == b.0;
        assert(d.0 <= c.0);
    }
    if b.0 < c.0 {
        let d = choose|d: (int, int)| #[trigger] s.contains(d) && d.0 == c.0;
        assert(d.0 <= b.0);
    }
    if c.1 < b.1 {
        let d = choose|d: (int, int)| #[trigger] s.contains(d) && d.1 == b.1;
        assert(d.1 <= c.1);
    }
    if b.1 < c.1 {
        let d = choose|d: (int, int)| #[trigger] s.contains(d) && d.1 == c.1;
        assert(d.1 <= b.1);
    }
}

/// Each frame turned a quarter turn around its own tight corner's row.
pub open spec fn rot_frames(fs: Seq<Set<(int, int)>>) -> Seq<Set<(int, int)>> {
    fs.map_values(|s: Set<(int, int)>| rot_set(s, tight_corner(s).1))
}

/// A corner extension that starts from a tight sprite ends tight.
pub proof fn lemma_extended_stays_tight(pre: Sprite, post: Sprite)
    requires
        tight_bound(pre.dots(), pre.bound()),
        corner_extended(pre, post),
    ensures
        tight_bound(post.dots(), post.bound()),
{
    assert forall|d: (int, int)| #[trigger] post.dots().contains(d) implies d.0
        <= post.bound().0 && d.1 <= post.bound().1 by {
        if pre.dots().contains(d) {
            assert(d.0 <= pre.bound().0 && d.1 <= pre.bound().1);
        }
    }
    if post.bound().0 != 0 {
        if post.bound().0 == pre.bound().0 {
            let d = choose|d: (int, int)| #[trigger] pre.dots().contains(d) && d.0
                == pre.bound().0;
            assert(post.dots().contains(d));
        }
    }
    if post.bound().1 != 0 {
        if post.bound().1 == pre.bound().1 {
            let d = choose|d: (int, int)| #[trigger] pre.dots().contains(d) && d.1
                == pre.bound().1;
            assert(post.dots().contains(d));
        }
    }
}

/// The set of dots one static shape occupies, together with the cached
/// bounding corner that grows monotonically on every insertion.
pub struct Sprite {
    values: DotSet,
    max: Point,
}

impl Sprite {
    pub fn new() -> (r: Sprite)
        ensures
            r.inv(),
            r.dots() == Set::<(int, int)>::empty(),
            r.bound() == (0int, 0int),
            tight_bound(r.dots(), r.bound()),
    {
        let r = Sprite { values: DotSet::new(), max: Point::new(0, 0) };
        r
    }

    pub fn new_from_string(value: &str) -> (r: Sprite)
        requires
            1 <= value@.len() <= 32767,
        ensures
            r.inv(),
            r.dots() == art_dots(value@, 0, 0),
            r.bound().0 <= value@.len(),
            r.bound().1 <= value@.len(),
            tight_bound(r.dots(), r.bound()),
    {
        let mut instance = Sprite::new();
        let ghost fresh = instance;
        draw_from_string(&mut instance, value);
        proof {
            assert(instance.dots() =~= art_dots(value@, 0, 0));
            lemma_extended_stays_tight(fresh, instance);
        }
        instance
    }

    /// Replace every dot `(x, y)` by `(max.y - y, x)`: a quarter turn
    /// anchored to the old bounding box, so width and height swap.
    pub fn rotate_90(&mut self)
        requires
            old(self).inv(),
            forall|d: (int, int)| #[trigger] old(self).dots().contains(d) ==> old(self).bound().1
                - d.1 <= 32767,
        ensures
            final(self).inv(),
            final(self).dots() == rot_set(old(self).dots(), old(self).bound().1),
            tight_bound(final(self).dots(), final(self).bound()),
    {
        let ghost my = self.max.y as int;
        let n = self.values.len();
        let mut tmp_set = DotSet::new();
        let mut tmp_max = Point::new(0, 0);
        let mut i: usize = 0;
        proof {
            assert(self.values.seq().take(0) =~= Seq::<(int, int)>::empty());
            assert(tmp_set.dots() =~= rot_set(self.values.seq().take(0).to_set(), my));
        }
        while i < n
            invariant
                self == old(self),
                self.inv(),
                my == self.bound().1,
                n == self.values.seq().len(),
                i <= n,
                forall|d: (int, int)| #[trigger] self.dots().contains(d) ==> my - d.1 <= 32767,
                tmp_set.inv(),
                tmp_set.dots() == rot_set(self.values.seq().take(i as int).to_set(), my),
                tight_bound(tmp_set.dots(), (tmp_max.x as int, tmp_max.y as int)),
            decreases n - i,
        {
            let p = self.values.get(i);
            proof {
                assert(self.dots().contains((p.x as int, p.y as int)));
            }
            let nx: IndexType = self.max.y - p.y;
            let ny: IndexType = p.x;
            let ghost before = tmp_set.dots();
            let ghost bmax = (tmp_max.x as int, tmp_max.y as int);
            tmp_set.insert(Point { x: nx, y: ny });
            if nx > tmp_max.x {
                tmp_max.x = nx;
            }
            if ny > tmp_max.y {
                tmp_max.y = ny;
            }
            proof {
                assert(tmp_set.dots().contains((nx as int, ny as int)));
                assert forall|d: (int, int)| #[trigger] tmp_set.dots().contains(d) implies d.0
                    <= tmp_max.x as int && d.1 <= tmp_max.y as int by {
                    if d != (nx as int, ny as int) {
                        assert(before.contains(d));
                    }
                }
                if tmp_max.x as int != 0 && tmp_max.x as int != nx as int {
                    let w = choose|d: (int, int)| #[trigger] before.contains(d) && d.0 == bmax.0;
                    assert(tmp_set.dots().contains(w));
                }
                if tmp_max.y as int != 0 && tmp_max.y as int != ny as int {
                    let w = choose|d: (int, int)| #[trigger] before.contains(d) && d.1 == bmax.1;
                    assert(tmp_set.dots().contains(w));
                }
                let pre = self.values.seq().take(i as int);
                let post = self.values.seq().take(i as int + 1);
                let elt = self.values.seq()[i as int];
                assert(post =~= pre.push(elt));
                pre.lemma_push_to_set_commute(elt);
                assert(post.to_set() == pre.to_set().insert((p.x as int, p.y as int)));
                assert(tmp_set.dots() =~= rot_set(post.to_set(), my));
            }
            i = i + 1;
        }
        proof {
            assert(self.values.seq().take(n as int) =~= self.values.seq());
            assert(rot_set(self.values.seq().to_set(), my) =~= rot_set(self.dots(), my));
        }
        self.values = tmp_set;
        self.max = tmp_max;
    }

    /// Project every dot onto another surface, offset by `(x, y)`.
    pub fn draw_to_canvas<C: Canvas>(&self, canvas: &mut C, x: IndexType, y: IndexType)
        requires
            self.inv(),
            old(canvas).inv(),
            forall|d: (int, int)| #[trigger] self.dots().contains(d) ==> i16::MIN <= x as int
                + d.0 <= i16::MAX && i16::MIN <= y as int + d.1 <= i16::MAX,
        ensures
            final(canvas).inv(),
            final(canvas).dots() == with_drawn(*old(canvas), shift_dots(self.dots(), x as int, y as int)),
            forall|a: int, b: int| final(canvas).covers(a, b) == old(canvas).covers(a, b),
            old(canvas).bound().0 <= final(canvas).bound().0 <= imax(
                old(canvas).bound().0,
                x as int + self.bound().0,
            ),
            old(canvas).bound().1 <= final(canvas).bound().1 <= imax(
                old(canvas).bound().1,
                y as int + self.bound().1,
            ),
    {
        let ghost start = *canvas;
        let n = self.values.len();
        let mut i: usize = 0;
        proof {
            assert(self.values.seq().take(0) =~= Seq::<(int, int)>::empty());
            assert(canvas.dots() =~= with_drawn(
                start,
                shift_dots(self.values.seq().take(0).to_set(), x as int, y as int),
            ));
        }
        while i < n
            invariant
                self.inv(),
                canvas.inv(),
                start == *old(canvas),
                n == self.values.seq().len(),
                i <= n,
                forall|d: (int, int)| #[trigger] self.dots().contains(d) ==> i16::MIN <= x as int
                    + d.0 <= i16::MAX && i16::MIN <= y as int + d.1 <= i16::MAX,
                forall|a: int, b: int| canvas.covers(a, b) == start.covers(a, b),
                canvas.dots() == with_drawn(
                    start,
                    shift_dots(self.values.seq().take(i as int).to_set(), x as int, y as int),
                ),
                start.bound().0 <= canvas.bound().0 <= imax(
                    start.bound().0,
                    x as int + self.bound().0,
                ),
                start.bound().1 <= canvas.bound().1 <= imax(
                    start.bound().1,
                    y as int + self.bound().1,
                ),
            decreases n - i,
        {
            let p = self.values.get(i);
            proof {
                assert(self.dots().contains((p.x as int, p.y as int)));
            }
            canvas.draw_dot(x + p.x, y + p.y);
            proof {
                let pre = self.values.seq().take(i as int);
                let post = self.values.seq().take(i as int + 1);
                let elt = self.values.seq()[i as int];
                assert(post =~= pre.push(elt));
                pre.lemma_push_to_set_commute(elt);
                assert(post.to_set() == pre.to_set().insert((p.x as int, p.y as int)));
                assert(canvas.dots() =~= with_drawn(
                    start,
                    shift_dots(post.to_set(), x as int, y as int),
                ));
            }
            i = i + 1;
        }
        proof {
            assert(self.values.seq().take(n as int) =~= self.values.seq());
            assert(shift_dots(self.values.seq().to_set(), x as int, y as int) =~= shift_dots(
                self.dots(),
                x as int,
                y as int,
            ));
        }
    }

    /// Take one dot out, for erasing destroyed terrain; the cached bounding
    /// corner stays where it was, a safe upper bound.
    pub fn clean(&mut self, dot: &Point)
        requires
            old(self).inv(),
        ensures
            final(self).inv(),
            final(self).dots() == old(self).dots().remove((dot.x as int, dot.y as int)),
            final(self).bound() == old(self).bound(),
    {
        self.values.remove(dot);
    }

    pub fn is_empty(&self) -> (r: bool)
        ensures
            r == self.dots().is_empty(),
    {
        self.values.is_empty()
    }

    /// What well-formedness guarantees: the cached corner is non-negative
    /// and bounds every dot.
    pub proof fn lemma_inv_bounds(&self)
        requires
            self.inv(),
        ensures
            0 <= self.bound().0,
            0 <= self.bound().1,
            self.bound().0 <= i16::MAX as int,
            self.bound().1 <= i16::MAX as int,
            forall|d: (int, int)| #[trigger] self.dots().contains(d) ==> d.0 <= self.bound().0
                && d.1 <= self.bound().1,
    {
    }
}

impl Canvas for Sprite {
    closed spec fn dots(&self) -> Set<(int, int)> {
        self.values.dots()
    }

    open spec fn covers(&self, x: int, y: int) -> bool {
        true
    }

    closed spec fn bound(&self) -> (int, int) {
        (self.max.x as int, self.max.y as int)
    }

    closed spec fn inv(&self) -> bool {
        &&& self.values.inv()
        &&& 0 <= self.max.x
        &&& 0 <= self.max.y
        &&& forall|d: (int, int)| #[trigger] self.values.dots().contains(d) ==> d.0
            <= self.max.x as int && d.1 <= self.max.y as int
    }

    /// A sprite accepts every dot, and its cached corner grows to cover it.
    fn draw_dot(&mut self, x: IndexType, y: IndexType) -> (r: bool)
        ensures
            r == true,
            final(self).bound().0 == imax(old(self).bound().0, x as int),
            final(self).bound().1 == imax(old(self).bound().1, y as int),
            tight_bound(old(self).dots(), old(self).bound()) ==> tight_bound(
                final(self).dots(),
                final(self).bound(),
            ),
    {
        let ghost pre = *self;
        self.values.insert(Point { x, y });
        if x > self.max.x {
            self.max.x = x;
        }
        if y > self.max.y {
            self.max.y = y;
        }
        proof {
            if tight_bound(pre.dots(), pre.bound()) {
                assert forall|d: (int, int)| #[trigger] self.dots().contains(d) implies d.0
                    <= self.bound().0 && d.1 <= self.bound().1 by {
                    if d != (x as int, y as int) {
                        assert(pre.dots().contains(d));
                    }
                }
                assert(self.dots().contains((x as int, y as int)));
                if self.bound().0 != 0 {
                    if x as int == self.bound().0 {
                    } else {
                        let w = choose|d: (int, int)|
                            #[trigger] pre.dots().contains(d) && d.0 == pre.bound().0;
                        assert(self.dots().contains(w));
                    }
                }
                if self.bound().1 != 0 {
                    if y as int == self.bound().1 {
                    } else {
                        let w = choose|d: (int, int)|
                            #[trigger] pre.dots().contains(d) && d.1 == pre.bound().1;
                        assert(self.dots().contains(w));
                    }
                }
            }
        }
        true
    }

    fn clean_dot(&mut self, x: IndexType, y: IndexType) -> (r: bool)
        ensures
            r == true,
    {
        self.values.remove(&Point { x, y });
        true
    }
}

impl PointSet for Sprite {
    open spec fn ps_dots(&self) -> Set<(int, int)> {
        self.dots()
    }

    open spec fn ps_some(&self) -> bool {
        true
    }

    open spec fn ps_max(&self) -> (int, int) {
        self.bound()
    }

    open spec fn ps_is_empty(&self) -> bool {
        self.dots().is_empty()
    }

    open spec fn ps_inv(&self) -> bool {
        self.inv()
    }

    proof fn ps_props(&self) {
    }

    fn get_point_set(&self) -> (r: Option<&DotSet>) {
        Some(&self.values)
    }

    fn get_max(&self) -> (r: Point) {
        self.max
    }

    fn is_empty(&self) -> (r: bool) {
        self.values.is_empty()
    }
}

/// One quarter turn swaps the bounding corner's components: if `b` is the
/// cached corner of `s`, the corner of the turned set is `(b.1, b.0)` —
/// provided every dot is non-negative and the set touches both axes (or is
/// empty).  The turned set again satisfies those side conditions.
pub proof fn lemma_rot_bound(s: Set<(int, int)>, b: (int, int), br: (int, int))
    requires
        tight_bound(s, b),
        forall|d: (int, int)| #[trigger] s.contains(d) ==> 0 <= d.0 && 0 <= d.1,
        s.is_empty() || ((exists|d: (int, int)| #[trigger] s.contains(d) && d.0 == 0) && (
        exists|d: (int, int)| #[trigger] s.contains(d) && d.1 == 0)),
        tight_bound(rot_set(s, b.1), br),
    ensures
        br == (b.1, b.0),
        forall|d: (int, int)| #[trigger] rot_set(s, b.1).contains(d) ==> 0 <= d.0 && 0 <= d.1,
        rot_set(s, b.1).is_empty() || ((exists|d: (int, int)| #[trigger] rot_set(
            s,
            b.1,
        ).contains(d) && d.0 == 0) && (exists|d: (int, int)| #[trigger] rot_set(
            s,
            b.1,
        ).contains(d) && d.1 == 0)),
{
    let r = rot_set(s, b.1);
    assert forall|d: (int, int)| #[trigger] r.contains(d) implies 0 <= d.0 && 0 <= d.1 by {
        assert(s.contains((d.1, b.1 - d.0)));
    }
    if s.is_empty() {
        assert(forall|d: (int, int)| !(#[trigger] s.contains(d)));
        assert(b.0 == 0 && b.1 == 0);
        assert forall|d: (int, int)| !(#[trigger] r.contains(d)) by {
            if r.contains(d) {
                assert(s.contains((d.1, b.1 - d.0)));
            }
        }
        assert(r.is_empty());
        assert(br.0 == 0 && br.1 == 0);
    } else {
        let w = s.choose();
        assert(s.contains(w));
        let wx = choose|d: (int, int)| #[trigger] s.contains(d) && d.0 == 0;
        let wy = choose|d: (int, int)| #[trigger] s.contains(d) && d.1 == 0;
        assert(s.contains(wx) && wx.0 == 0);
        assert(s.contains(wy) && wy.1 == 0);
        // the row that reaches b.1 turns into a dot on the left edge of r
        let wtop: (int, int) = if b.1 == 0 {
            w
        } else {
            choose|d: (int, int)| #[trigger] s.contains(d) && d.1 == b.1
        };
        assert(s.contains(wtop) && wtop.1 == b.1);
        assert(r.contains((b.1 - wtop.1, wtop.0)));
        assert(r.contains((0, wtop.0)));
        // the dot with column 0 turns into a dot reaching row 0 of r
        assert(r.contains((b.1 - wy.1, wy.0)));
        assert(r.contains((b.1, wy.0)));
        assert(r.contains((b.1 - wx.1, wx.0)));
        assert(r.contains((b.1 - wx.1, 0)));
        assert(!r.is_empty());
        // br.0 == b.1
        assert(br.0 >= b.1);
        if br.0 != 0 {
            let u = choose|d: (int, int)| #[trigger] r.contains(d) && d.0 == br.0;
            assert(s.contains((u.1, b.1 - u.0)));
            assert(0 <= b.1 - u.0);
            assert(br.0 <= b.1);
        }
        assert(br.0 == b.1);
        // br.1 == b.0
        if b.0 == 0 {
            if br.1 != 0 {
                let u = choose|d: (int, int)| #[trigger] r.contains(d) && d.1 == br.1;
                assert(s.contains((u.1, b.1 - u.0)));
                assert(u.1 <= b.0);
            }
            assert(br.1 == 0);
        } else {
            let wr = choose|d: (int, int)| #[trigger] s.contains(d) && d.0 == b.0;
            assert(s.contains(wr));
            assert(r.contains((b.1 - wr.1, wr.0)));
            assert(br.1 >= b.0);
            if br.1 != 0 {
                let u = choose|d: (int, int)| #[trigger] r.contains(d) && d.1 == br.1;
                assert(s.contains((u.1, b.1 - u.0)));
                assert(u.1 <= b.0);
            }
            assert(br.1 == b.0);
        }
    }
}

/// Rotating a point-set twice in succession restores its bounding corner:
/// width and height swap on the first turn and swap back on the second.
/// The set must hold no negative coordinates and touch both axes (or be
/// empty); `b0`, `b1` and `b2` are the cached corners before, between and
/// after the two turns.
pub proof fn lemma_rotate_twice_bbox(
    s0: Set<(int, int)>,
    b0: (int, int),
    b1: (int, int),
    b2: (int, int),
)
    requires
        tight_bound(s0, b0),
        forall|d: (int, int)| #[trigger] s0.contains(d) ==> 0 <= d.0 && 0 <= d.1,
        s0.is_empty() || ((exists|d: (int, int)| #[trigger] s0.contains(d) && d.0 == 0) && (
        exists|d: (int, int)| #[trigger] s0.contains(d) && d.1 == 0)),
        tight_bound(rot_set(s0, b0.1), b1),
        tight_bound(rot_set(rot_set(s0, b0.1), b1.1), b2),
    ensures
        b2 == b0,
{
    lemma_rot_bound(s0, b0, b1);
    lemma_rot_bound(rot_set(s0, b0.1), b1, b2);
}

} // verus!
