use vstd::prelude::*;

use crate::canvas::{circle_dots, draw_circle, draw_rectangle, iabs, rect_dots, Canvas};
use crate::game_object::{GameObject, GameObjectStatic};
use crate::point_set::{DotSet, PointSet};
use crate::position::{imax, IndexType, Point};
use crate::sprite::Sprite;

verus! {

/// The union of the outline rings of every radius from 1 up to `rmax`:
/// a filled disc built from concentric circles.
pub open spec fn rings_dots(center: Point, rmax: int) -> Set<(int, int)>
    decreases rmax,
{
    if rmax < 1 {
        Set::empty()
    } else {
        rings_dots(center, rmax - 1).union(circle_dots(center, rmax))
    }
}

/// The dots of a filled block of the given width and height.
pub open spec fn block_dots(w: int, h: int) -> Set<(int, int)> {
    Set::new(|q: (int, int)| 0 <= q.0 < w && 0 <= q.1 < h)
}

/// The dots of a dithered block: only the dots whose coordinate sum is a
/// multiple of the factor.
pub open spec fn dither_dots(w: int, h: int, factor: int) -> Set<(int, int)> {
    Set::new(|q: (int, int)| 0 <= q.0 < w && 0 <= q.1 < h && (q.0 + q.1) % factor == 0)
}

/// A static piece of terrain or scenery, with flags that say how other
/// entities interact with it, and a set of dots hidden for one frame.
pub struct Obstacle {
    area: GameObjectStatic,
    transparent: bool,
    solid: bool,
    visible: bool,
    ground: bool,
    invisible: DotSet,
}

impl Obstacle {
    /// The local dots of the obstacle's shape.
    pub open spec fn obs_dots(&self) -> Set<(int, int)> {
        self.spec_area().sprite.dots()
    }

    /// The positioned area.
    pub closed spec fn spec_area(&self) -> GameObjectStatic {
        self.area
    }

    /// The world anchor.
    pub open spec fn obs_pos(&self) -> (int, int) {
        self.spec_area().area_pos()
    }

    pub closed spec fn spec_transparent(&self) -> bool {
        self.transparent
    }

    pub closed spec fn spec_solid(&self) -> bool {
        self.solid
    }

    pub closed spec fn spec_visible(&self) -> bool {
        self.visible
    }

    pub closed spec fn spec_ground(&self) -> bool {
        self.ground
    }

    /// The dots hidden during the current frame.
    pub closed spec fn spec_invisible(&self) -> Set<(int, int)> {
        self.invisible.dots()
    }

    /// Well-formedness: the shape and the hidden set are well formed, and
    /// the spanned rectangle fits the coordinate type.
    pub open spec fn inv(&self) -> bool {
        &&& self.spec_area().sprite.inv()
        &&& self.spec_invisible_inv()
        &&& self.spec_area().area_width() <= i16::MAX as int
        &&& self.spec_area().area_height() <= i16::MAX as int
        &&& self.obs_pos().0 + self.spec_area().area_width() <= i16::MAX as int
        &&& self.obs_pos().1 + self.spec_area().area_height() <= i16::MAX as int
    }

    pub closed spec fn spec_invisible_inv(&self) -> bool {
        self.invisible.inv()
    }

    /// A frame: the rectangle outline between the two corners, anchored at
    /// the first corner.
    pub fn new_frame(x1: IndexType, y1: IndexType, x2: IndexType, y2: IndexType) -> (r: Obstacle)
        requires
            imax(x1 as int, x2 as int) <= i16::MAX as int - 1,
            imax(y1 as int, y2 as int) <= i16::MAX as int - 1,
            x1 as int + imax(0, imax(x1 as int, x2 as int)) + 1 <= i16::MAX as int,
            y1 as int + imax(0, imax(y1 as int, y2 as int)) + 1 <= i16::MAX as int,
        ensures
            r.inv(),
            r.obs_dots() == rect_dots((Point { x: x1, y: y1 }), (Point { x: x2, y: y2 })),
            r.obs_pos() == (x1 as int, y1 as int),
            !r.spec_transparent(),
            r.spec_solid(),
            r.spec_visible(),
            !r.spec_ground(),
            r.spec_invisible() == Set::<(int, int)>::empty(),
    {
        let mut s = Sprite::new();
        draw_rectangle(&mut s, Point { x: x1, y: y1 }, Point { x: x2, y: y2 });
        proof {
            assert(s.dots() =~= rect_dots((Point { x: x1, y: y1 }), (Point { x: x2, y: y2 })));
        }
        Obstacle {
            area: GameObjectStatic::new(s, x1, y1),
            transparent: false,
            solid: true,
            visible: true,
            ground: false,
            invisible: DotSet::new(),
        }
    }

    /// A solid filled block from `(x1, y1)` to `(x2, y2)`, exclusive.
    pub fn new_rect(x1: IndexType, y1: IndexType, x2: IndexType, y2: IndexType) -> (r: Obstacle)
        requires
            x2 as int - x1 as int <= i16::MAX as int,
            y2 as int - y1 as int <= i16::MAX as int,
            x1 as int + imax(1, x2 as int - x1 as int) <= i16::MAX as int,
            y1 as int + imax(1, y2 as int - y1 as int) <= i16::MAX as int,
        ensures
            r.inv(),
            r.obs_dots() == block_dots(x2 as int - x1 as int, y2 as int - y1 as int),
            r.obs_pos() == (x1 as int, y1 as int),
            !r.spec_transparent(),
            r.spec_solid(),
            r.spec_visible(),
            !r.spec_ground(),
            r.spec_invisible() == Set::<(int, int)>::empty(),
    {
        let ghost w = x2 as int - x1 as int;
        let ghost h = y2 as int - y1 as int;
        let mut s = Sprite::new();
        let wspan: i32 = x2 as i32 - x1 as i32;
        let hspan: i32 = y2 as i32 - y1 as i32;
        let mut x: i32 = 0;
        proof {
            assert(s.dots() =~= Set::new(
                |q: (int, int)| 0 <= q.0 < 0 && 0 <= q.1 < h,
            ));
        }
        while x < wspan
            invariant
                s.inv(),
                w == wspan as int,
                h == hspan as int,
                w <= i16::MAX as int,
                h <= i16::MAX as int,
                0 <= x,
                x <= imax(0, wspan as int),
                s.dots() == Set::new(|q: (int, int)| 0 <= q.0 < x && 0 <= q.1 < h),
                s.bound().0 <= imax(0, w - 1),
                s.bound().1 <= imax(0, h - 1),
            decreases wspan - x,
        {
            let mut y: i32 = 0;
            while y < hspan
                invariant
                    s.inv(),
                    w == wspan as int,
                    h == hspan as int,
                    w <= i16::MAX as int,
                    h <= i16::MAX as int,
                    0 <= x < w,
                    0 <= y,
                    y <= imax(0, hspan as int),
                    s.dots() == Set::new(
                        |q: (int, int)|
                            (0 <= q.0 < x && 0 <= q.1 < h) || (q.0 == x && 0 <= q.1 < y),
                    ),
                    s.bound().0 <= imax(0, w - 1),
                    s.bound().1 <= imax(0, h - 1),
                decreases hspan - y,
            {
                s.draw_dot(x as IndexType, y as IndexType);
                proof {
                    assert(s.dots() =~= Set::new(
                        |q: (int, int)|
                            (0 <= q.0 < x && 0 <= q.1 < h) || (q.0 == x && 0 <= q.1 < y + 1),
                    ));
                }
                y = y + 1;
            }
            proof {
                assert(s.dots() =~= Set::new(
                    |q: (int, int)| 0 <= q.0 < x + 1 && 0 <= q.1 < h,
                ));
            }
            x = x + 1;
        }
        proof {
            assert(s.dots() =~= block_dots(w, h));
        }
        Obstacle {
            area: GameObjectStatic::new(s, x1, y1),
            transparent: false,
            solid: true,
            visible: true,
            ground: false,
            invisible: DotSet::new(),
        }
    }

    /// A see-through dithered block: only every dot whose coordinate sum is
    /// a multiple of the factor is set.
    pub fn new_transparent_rect(
        x1: IndexType,
        y1: IndexType,
        x2: IndexType,
        y2: IndexType,
        factor: IndexType,
    ) -> (r: Obstacle)
        requires
            factor != 0,
            x2 as int - x1 as int <= i16::MAX as int,
            y2 as int - y1 as int <= i16::MAX as int,
            x1 as int + imax(1, x2 as int - x1 as int) <= i16::MAX as int,
            y1 as int + imax(1, y2 as int - y1 as int) <= i16::MAX as int,
        ensures
            r.inv(),
            r.obs_dots() == dither_dots(
                x2 as int - x1 as int,
                y2 as int - y1 as int,
                factor as int,
            ),
            r.obs_pos() == (x1 as int, y1 as int),
            r.spec_transparent(),
            !r.spec_solid(),
            r.spec_visible(),
            !r.spec_ground(),
            r.spec_invisible() == Set::<(int, int)>::empty(),
    {
        let ghost w = x2 as int - x1 as int;
        let ghost h = y2 as int - y1 as int;
        let ghost f = factor as int;
        let mut s = Sprite::new();
        let wspan: i32 = x2 as i32 - x1 as i32;
        let hspan: i32 = y2 as i32 - y1 as i32;
        let fa: i32 = if factor < 0 {
            -(factor as i32)
        } else {
            factor as i32
        };
        let mut x: i32 = 0;
        proof {
            assert(s.dots() =~= Set::new(
                |q: (int, int)| 0 <= q.0 < 0 && 0 <= q.1 < h && (q.0 + q.1) % f == 0,
            ));
        }
        while x < wspan
            invariant
                s.inv(),
                w == wspan as int,
                h == hspan as int,
                f == factor as int,
                f != 0,
                fa as int == iabs(f),
                w <= i16::MAX as int,
                h <= i16::MAX as int,
                0 <= x,
                x <= imax(0, wspan as int),
                s.dots() == Set::new(
                    |q: (int, int)| 0 <= q.0 < x && 0 <= q.1 < h && (q.0 + q.1) % f == 0,
                ),
                s.bound().0 <= imax(0, w - 1),
                s.bound().1 <= imax(0, h - 1),
            decreases wspan - x,
        {
            let mut y: i32 = 0;
            while y < hspan
                invariant
                    s.inv(),
                    w == wspan as int,
                    h == hspan as int,
                    f == factor as int,
                    f != 0,
                    fa as int == iabs(f),
                    w <= i16::MAX as int,
                    h <= i16::MAX as int,
                    0 <= x < w,
                    0 <= y,
                    y <= imax(0, hspan as int),
                    s.dots() == Set::new(
                        |q: (int, int)|
                            (0 <= q.0 < x && 0 <= q.1 < h && (q.0 + q.1) % f == 0) || (q.0 == x && 0
                                <= q.1 < y && (q.0 + q.1) % f == 0),
                    ),
                    s.bound().0 <= imax(0, w - 1),
                    s.bound().1 <= imax(0, h - 1),
                decreases hspan - y,
            {
                proof {
                    if f < 0 {
                        assert((x + y) % f == (x + y) % (fa as int)) by (nonlinear_arith)
                            requires x + y >= 0 && f < 0 && fa as int == -f;
                    }
                }
                if (x + y) % fa == 0 {
                    s.draw_dot(x as IndexType, y as IndexType);
                }
                proof {
                    assert(s.dots() =~= Set::new(
                        |q: (int, int)|
                            (0 <= q.0 < x && 0 <= q.1 < h && (q.0 + q.1) % f == 0) || (q.0 == x && 0
                                <= q.1 < y + 1 && (q.0 + q.1) % f == 0),
                    ));
                }
                y = y + 1;
            }
            proof {
                assert(s.dots() =~= Set::new(
                    |q: (int, int)| 0 <= q.0 < x + 1 && 0 <= q.1 < h && (q.0 + q.1) % f == 0,
                ));
            }
            x = x + 1;
        }
        proof {
            assert(s.dots() =~= dither_dots(w, h, f));
        }
        Obstacle {
            area: GameObjectStatic::new(s, x1, y1),
            transparent: true,
            solid: false,
            visible: true,
            ground: false,
            invisible: DotSet::new(),
        }
    }

    /// A filled disc around `(x1, y1)` built from concentric rings,
    /// anchored one radius up and to the left of its center.
    pub fn new_circle(x1: IndexType, y1: IndexType, radius: IndexType) -> (r: Obstacle)
        requires
            0 <= radius,
            x1 as int - radius as int >= i16::MIN as int,
            y1 as int - radius as int >= i16::MIN as int,
            x1 as int + radius as int <= i16::MAX as int - 1,
            y1 as int + radius as int <= i16::MAX as int - 1,
            (x1 as int - radius as int) + imax(0, x1 as int + radius as int) + 1
                <= i16::MAX as int,
            (y1 as int - radius as int) + imax(0, y1 as int + radius as int) + 1
                <= i16::MAX as int,
        ensures
            r.inv(),
            r.obs_dots() == rings_dots((Point { x: x1, y: y1 }), radius as int),
            r.obs_pos() == (x1 as int - radius as int, y1 as int - radius as int),
            !r.spec_transparent(),
            r.spec_solid(),
            r.spec_visible(),
            !r.spec_ground(),
            r.spec_invisible() == Set::<(int, int)>::empty(),
    {
        let center = Point { x: x1, y: y1 };
        let mut s = Sprite::new();
        let mut rr: i32 = 1;
        proof {
            assert(s.dots() =~= rings_dots(center, 0));
        }
        while rr <= radius as i32
            invariant
                s.inv(),
                center.x == x1 && center.y == y1,
                0 <= radius,
                x1 as int - radius as int >= i16::MIN as int,
                y1 as int - radius as int >= i16::MIN as int,
                x1 as int + radius as int <= i16::MAX as int,
                y1 as int + radius as int <= i16::MAX as int,
                1 <= rr,
                rr <= radius as i32 + 1,
                s.dots() == rings_dots(center, rr as int - 1),
                s.bound().0 <= imax(0, x1 as int + radius as int),
                s.bound().1 <= imax(0, y1 as int + radius as int),
            decreases radius as int + 1 - rr,
        {
            draw_circle(&mut s, center, rr as IndexType);
            proof {
                assert(s.dots() =~= rings_dots(center, rr as int));
            }
            rr = rr + 1;
        }
        Obstacle {
            area: GameObjectStatic::new(s, x1 - radius, y1 - radius),
            transparent: false,
            solid: true,
            visible: true,
            ground: false,
            invisible: DotSet::new(),
        }
    }

    pub fn set_transparent(&mut self, value: bool)
        ensures
            final(self).spec_transparent() == value,
            final(self).spec_area() == old(self).spec_area(),
            final(self).spec_invisible() == old(self).spec_invisible(),
            final(self).spec_invisible_inv() == old(self).spec_invisible_inv(),
            final(self).spec_solid() == old(self).spec_solid(),
            final(self).spec_visible() == old(self).spec_visible(),
            final(self).spec_ground() == old(self).spec_ground(),
            old(self).inv() ==> final(self).inv(),
    {
        self.transparent = value;
    }

    pub fn set_ground(&mut self, value: bool)
        ensures
            final(self).spec_ground() == value,
            final(self).spec_area() == old(self).spec_area(),
            final(self).spec_invisible() == old(self).spec_invisible(),
            final(self).spec_invisible_inv() == old(self).spec_invisible_inv(),
            final(self).spec_transparent() == old(self).spec_transparent(),
            final(self).spec_solid() == old(self).spec_solid(),
            final(self).spec_visible() == old(self).spec_visible(),
            old(self).inv() ==> final(self).inv(),
    {
        self.ground = value;
    }

    pub fn set_solid(&mut self, value: bool)
        ensures
            final(self).spec_solid() == value,
            final(self).spec_area() == old(self).spec_area(),
            final(self).spec_invisible() == old(self).spec_invisible(),
            final(self).spec_invisible_inv() == old(self).spec_invisible_inv(),
            final(self).spec_transparent() == old(self).spec_transparent(),
            final(self).spec_visible() == old(self).spec_visible(),
            final(self).spec_ground() == old(self).spec_ground(),
            old(self).inv() ==> final(self).inv(),
    {
        self.solid = value;
    }

    pub fn set_visible(&mut self, value: bool)
        ensures
            final(self).spec_visible() == value,
            final(self).spec_area() == old(self).spec_area(),
            final(self).spec_invisible() == old(self).spec_invisible(),
            final(self).spec_invisible_inv() == old(self).spec_invisible_inv(),
            final(self).spec_transparent() == old(self).spec_transparent(),
            final(self).spec_solid() == old(self).spec_solid(),
            final(self).spec_ground() == old(self).spec_ground(),
            old(self).inv() ==> final(self).inv(),
    {
        self.visible = value;
    }

    /// Each frame forgets the dots hidden during the last one.
    pub fn update(&mut self, delta: u64)
        ensures
            final(self).spec_area() == old(self).spec_area(),
            final(self).spec_transparent() == old(self).spec_transparent(),
            final(self).spec_solid() == old(self).spec_solid(),
            final(self).spec_visible() == old(self).spec_visible(),
            final(self).spec_ground() == old(self).spec_ground(),
            final(self).spec_invisible() == Set::<(int, int)>::empty(),
            final(self).spec_invisible_inv(),
            old(self).inv() ==> final(self).inv(),
    {
        let ds = DotSet::new();
        self.invisible = ds;
    }

    /// A fully eroded obstacle is done and leaves the world.
    pub fn is_done(&self) -> (r: bool)
        ensures
            r == self.obs_dots().is_empty(),
    {
        self.area.sprite.is_empty()
    }

    /// Erase one local dot, for destroyed terrain.
    pub fn clean(&mut self, dot: &Point)
        requires
            old(self).inv(),
        ensures
            final(self).inv(),
            final(self).obs_dots() == old(self).obs_dots().remove((dot.x as int, dot.y as int)),
            final(self).obs_pos() == old(self).obs_pos(),
            final(self).spec_area().area_width() == old(self).spec_area().area_width(),
            final(self).spec_area().area_height() == old(self).spec_area().area_height(),
            final(self).spec_transparent() == old(self).spec_transparent(),
            final(self).spec_solid() == old(self).spec_solid(),
            final(self).spec_visible() == old(self).spec_visible(),
            final(self).spec_ground() == old(self).spec_ground(),
            final(self).spec_invisible() == old(self).spec_invisible(),
    {
        let area = &mut self.area;
        let sprite = &mut area.sprite;
        sprite.clean(dot);
    }

    pub fn is_solid(&self) -> (r: bool)
        ensures
            r == self.spec_solid(),
    {
        self.solid
    }

    pub fn is_transparent(&self) -> (r: bool)
        ensures
            r == self.spec_transparent(),
    {
        self.transparent
    }

    pub fn is_visible(&self) -> (r: bool)
        ensures
            r == self.spec_visible(),
    {
        self.visible
    }

    pub fn is_ground(&self) -> (r: bool)
        ensures
            r == self.spec_ground(),
    {
        self.ground
    }

    /// Hand over the dots to hide during the current frame.
    pub fn set_invisivle_dots(&mut self, val: DotSet)
        requires
            val.inv(),
        ensures
            final(self).spec_area() == old(self).spec_area(),
            final(self).spec_transparent() == old(self).spec_transparent(),
            final(self).spec_solid() == old(self).spec_solid(),
            final(self).spec_visible() == old(self).spec_visible(),
            final(self).spec_ground() == old(self).spec_ground(),
            final(self).spec_invisible() == val.dots(),
            final(self).spec_invisible_inv(),
            old(self).inv() ==> final(self).inv(),
    {
        self.invisible = val;
    }
}

impl GameObject for Obstacle {
    open spec fn go_dots(&self) -> Set<(int, int)> {
        self.obs_dots()
    }

    open spec fn go_has_set(&self) -> bool {
        true
    }

    open spec fn go_pos(&self) -> (int, int) {
        self.obs_pos()
    }

    open spec fn go_size(&self) -> (int, int) {
        (self.spec_area().area_width(), self.spec_area().area_height())
    }

    open spec fn go_inv(&self) -> bool {
        self.inv()
    }

    proof fn go_props(&self) {
        self.spec_area().sprite.lemma_inv_bounds();
    }

    fn get_point_set(&self) -> (r: Option<&DotSet>) {
        self.area.get_point_set()
    }

    fn get_position(&self) -> (r: Point) {
        self.area.get_pos()
    }

    fn get_width(&self) -> (r: IndexType) {
        self.area.get_width()
    }

    fn get_height(&self) -> (r: IndexType) {
        self.area.get_height()
    }

    fn get_rect(&self) -> (r: (Point, Point)) {
        let pos = self.area.get_pos();
        let w = self.area.get_width();
        let h = self.area.get_height();
        (pos, Point { x: pos.x + w, y: pos.y + h })
    }
}


/// Everything of one obstacle that a frame update keeps: its shape, its
/// place, and its flags.
pub type ObsView = (Set<(int, int)>, ((int, int), (bool, bool, bool, bool)));

/// The view of one obstacle.
pub open spec fn obs_view(o: Obstacle) -> ObsView {
    (
        o.obs_dots(),
        (o.obs_pos(), (o.spec_solid(), o.spec_transparent(), o.spec_visible(), o.spec_ground())),
    )
}

/// The views of a list of obstacles, in order.
pub open spec fn views_of(s: Seq<Obstacle>) -> Seq<ObsView> {
    s.map_values(|o: Obstacle| obs_view(o))
}

/// Whether a view still has dots.
pub open spec fn view_live(v: ObsView) -> bool {
    !v.0.is_empty()
}

/// The views of the obstacles that survive a frame update: those that
/// still have dots, in their old order.
pub open spec fn live_views(s: Seq<ObsView>) -> Seq<ObsView> {
    s.filter(|v: ObsView| view_live(v))
}

/// Every obstacle of `s` still has dots and hides nothing.
pub open spec fn all_live(s: Seq<Obstacle>) -> bool {
    forall|k: int|
        0 <= k < s.len() ==> !(#[trigger] s[k]).obs_dots().is_empty() && s[k].spec_invisible()
            == Set::<(int, int)>::empty()
}


/// What colliding keeps of one obstacle: its place and its flags; its
/// dots may only erode.
pub open spec fn kept_in_place(o_old: Obstacle, o_new: Obstacle) -> bool {
    &&& o_new.obs_pos() == o_old.obs_pos()
    &&& o_new.spec_solid() == o_old.spec_solid()
    &&& o_new.spec_transparent() == o_old.spec_transparent()
    &&& o_new.spec_visible() == o_old.spec_visible()
    &&& o_new.spec_ground() == o_old.spec_ground()
    &&& o_new.obs_dots().subset_of(o_old.obs_dots())
}

/// Colliding keeps every obstacle of a list in place.
pub open spec fn all_kept_in_place(olds: Seq<Obstacle>, news: Seq<Obstacle>) -> bool {
    &&& news.len() == olds.len()
    &&& forall|k: int|
        #![trigger news[k]]
        0 <= k < news.len() ==> kept_in_place(olds[k], news[k])
}

/// The obstacles of one world, updated and drawn together.
pub struct Obstacles {
    values: Vec<Obstacle>,
}

impl Obstacles {
    /// The obstacles, in order.
    pub closed spec fn seq(&self) -> Seq<Obstacle> {
        self.values@
    }

    pub open spec fn inv(&self) -> bool {
        forall|k: int| 0 <= k < self.seq().len() ==> (#[trigger] self.seq()[k]).inv()
    }

    pub fn new() -> (r: Obstacles)
        ensures
            r.inv(),
            r.seq() == Seq::<Obstacle>::empty(),
    {
        let r = Obstacles { values: Vec::new() };
        proof {
            assert(r.seq() =~= Seq::<Obstacle>::empty());
        }
        r
    }

    pub fn add_obstacle(&mut self, o: Obstacle)
        ensures
            final(self).seq() == old(self).seq().push(o),
    {
        self.values.push(o);
    }

    /// Update every obstacle, then drop the ones that are fully eroded.
    pub fn update(&mut self, delta: u64)
        requires
            old(self).inv(),
        ensures
            final(self).inv(),
            final(self).seq().len() <= old(self).seq().len(),
            all_live(final(self).seq()),
            views_of(final(self).seq()) == live_views(views_of(old(self).seq())),
    {
        let mut vals: Vec<Obstacle> = Vec::new();
        core::mem::swap(&mut vals, &mut self.values);
        let n = vals.len();
        let mut i: usize = 0;
        proof {
            assert(views_of(old(self).seq()).take(0) =~= Seq::<ObsView>::empty());
            assert(live_views(views_of(old(self).seq()).take(0)) =~= Seq::<ObsView>::empty())
                by {
                reveal(Seq::filter);
            }
            assert(views_of(self.seq()) =~= Seq::<ObsView>::empty());
        }
        while i < n
            invariant
                old(self).inv(),
                n == old(self).seq().len(),
                n == vals@.len(),
                i <= n,
                forall|k: int| i <= k < n ==> #[trigger] vals@[k] == old(self).seq()[k],
                self.seq().len() <= i,
                self.inv(),
                all_live(self.seq()),
                views_of(self.seq()) == live_views(views_of(old(self).seq()).take(i as int)),
            decreases n - i,
        {
            proof {
                assert(vals@[i as int] == old(self).seq()[i as int]);
                assert(old(self).seq()[i as int].inv());
            }
            let ghost orig = old(self).seq()[i as int];
            let ghost pre_seq = self.seq();
            let o = vstd::std_specs::vec::vec_index_mut(&mut vals, i);
            o.update(delta);
            let done = o.is_done();
            let ghost vs = views_of(old(self).seq()).take(i as int);
            let ghost vv = obs_view(orig);
            proof {
                assert(views_of(old(self).seq()).take(i as int + 1) =~= vs.push(vv));
                assert(vs.push(vv).drop_last() =~= vs);
                assert(vs.push(vv).last() == vv);
                assert(live_views(vs.push(vv)) == if view_live(vv) {
                    live_views(vs).push(vv)
                } else {
                    live_views(vs)
                }) by {
                    reveal(Seq::filter);
                }
            }
            if !done {
                let mut taken = Obstacle::new_frame(0, 0, 0, 0);
                core::mem::swap(&mut taken, o);
                self.values.push(taken);
                proof {
                    assert(obs_view(taken) == vv);
                    assert(view_live(vv));
                    assert(self.seq() =~= pre_seq.push(taken));
                    assert(views_of(self.seq()) =~= views_of(pre_seq).push(obs_view(taken)));
                    assert(views_of(self.seq()) =~= live_views(
                        views_of(old(self).seq()).take(i as int + 1),
                    ));
                }
            } else {
                proof {
                    assert(!view_live(vv));
                    assert(views_of(self.seq()) =~= live_views(
                        views_of(old(self).seq()).take(i as int + 1),
                    ));
                }
            }
            i = i + 1;
        }
        proof {
            assert(views_of(old(self).seq()).take(n as int) =~= views_of(old(self).seq()));
            assert(views_of(self.seq()) == live_views(views_of(old(self).seq())));
        }
    }

    pub fn get_all(&self) -> (r: &Vec<Obstacle>)
        ensures
            r@ == self.seq(),
    {
        &self.values
    }

    pub fn get_all_mut(&mut self) -> (r: &mut Vec<Obstacle>)
        ensures
            r@ == old(self).seq(),
            final(self).seq() == final(r)@,
    {
        &mut self.values
    }
}

/// What one obstacle leaves on a surface: nothing when invisible, else its
/// dots shifted to its place, minus the dots hidden this frame — all
/// clipped to what the surface covers.
pub open spec fn obstacle_drawn(dots: Set<(int, int)>, cov: Set<(int, int)>, o: Obstacle) -> Set<
    (int, int),
> {
    if o.spec_visible() {
        dots.union(
            crate::sprite::shift_dots(o.obs_dots(), o.obs_pos().0, o.obs_pos().1).intersect(cov),
        ).difference(
            crate::sprite::shift_dots(o.spec_invisible(), o.obs_pos().0, o.obs_pos().1).intersect(
                cov,
            ),
        )
    } else {
        dots
    }
}

/// The surface contents after drawing a list of obstacles in order.
pub open spec fn obstacles_drawn(
    dots: Set<(int, int)>,
    cov: Set<(int, int)>,
    s: Seq<Obstacle>,
) -> Set<(int, int)>
    decreases s.len(),
{
    if s.len() == 0 {
        dots
    } else {
        obstacle_drawn(obstacles_drawn(dots, cov, s.drop_last()), cov, s.last())
    }
}

impl Obstacle {
    /// Whether every dot and hidden dot of the obstacle lands inside the
    /// coordinate type once shifted to its place.
    pub open spec fn draw_fits(&self) -> bool {
        &&& forall|d: (int, int)| #[trigger] self.obs_dots().contains(d) ==> i16::MIN as int
            <= self.obs_pos().0 + d.0 <= i16::MAX as int && i16::MIN as int <= self.obs_pos().1
            + d.1 <= i16::MAX as int
        &&& forall|d: (int, int)| #[trigger] self.spec_invisible().contains(d)
            ==> i16::MIN as int <= self.obs_pos().0 + d.0 <= i16::MAX as int
            && i16::MIN as int <= self.obs_pos().1 + d.1 <= i16::MAX as int
    }

    /// Project the obstacle onto a surface: its dots, minus the dots
    /// hidden for this frame; an invisible obstacle leaves no trace.
    pub fn draw<C: Canvas>(&self, canvas: &mut C)
        requires
            self.inv(),
            old(canvas).inv(),
            self.draw_fits(),
        ensures
            final(canvas).inv(),
            final(canvas).dots() == obstacle_drawn(
                old(canvas).dots(),
                crate::canvas::covered_set(*old(canvas)),
                *self,
            ),
            forall|a: int, b: int| final(canvas).covers(a, b) == old(canvas).covers(a, b),
    {
        let ghost start = *canvas;
        let ghost cov = crate::canvas::covered_set(start);
        if self.is_visible() {
            proof {
                assert forall|d: (int, int)|
                    #[trigger] self.area.sprite.ps_dots().contains(d) implies i16::MIN as int
                    <= self.area.area_pos().0 + d.0 <= i16::MAX as int && i16::MIN as int
                    <= self.area.area_pos().1 + d.1 <= i16::MAX as int by {
                    assert(self.obs_dots().contains(d));
                }
            }
            self.area.draw_to_canvas(canvas);
            let area_pos = self.area.get_pos();
            let ghost mid = canvas.dots();
            let n = self.invisible.len();
            let mut i: usize = 0;
            proof {
                assert(self.invisible.seq().take(0) =~= Seq::<(int, int)>::empty());
                assert(canvas.dots() =~= mid.difference(
                    crate::sprite::shift_dots(
                        self.invisible.seq().take(0).to_set(),
                        self.obs_pos().0,
                        self.obs_pos().1,
                    ).intersect(cov),
                ));
            }
            while i < n
                invariant
                    self.inv(),
                    self.draw_fits(),
                    canvas.inv(),
                    cov == crate::canvas::covered_set(start),
                    (area_pos.x as int, area_pos.y as int) == self.obs_pos(),
                    n == self.invisible.seq().len(),
                    i <= n,
                    forall|a: int, b: int| canvas.covers(a, b) == start.covers(a, b),
                    canvas.dots() == mid.difference(
                        crate::sprite::shift_dots(
                            self.invisible.seq().take(i as int).to_set(),
                            self.obs_pos().0,
                            self.obs_pos().1,
                        ).intersect(cov),
                    ),
                decreases n - i,
            {
                let p = self.invisible.get(i);
                proof {
                    assert(self.spec_invisible().contains((p.x as int, p.y as int)));
                }
                canvas.clean_dot(p.x + area_pos.x, p.y + area_pos.y);
                proof {
                    let pre = self.invisible.seq().take(i as int);
                    let post = self.invisible.seq().take(i as int + 1);
                    let elt = self.invisible.seq()[i as int];
                    assert(post =~= pre.push(elt));
                    pre.lemma_push_to_set_commute(elt);
                    assert(canvas.dots() =~= mid.difference(
                        crate::sprite::shift_dots(
                            post.to_set(),
                            self.obs_pos().0,
                            self.obs_pos().1,
                        ).intersect(cov),
                    ));
                }
                i = i + 1;
            }
            proof {
                assert(self.invisible.seq().take(n as int) =~= self.invisible.seq());
                assert(canvas.dots() =~= obstacle_drawn(start.dots(), cov, *self));
            }
        } else {
            proof {
                assert(canvas.dots() =~= obstacle_drawn(start.dots(), cov, *self));
            }
        }
    }
}

impl Obstacles {
    /// Whether every obstacle of the list can be projected.
    pub open spec fn draw_fits(&self) -> bool {
        forall|k: int| 0 <= k < self.seq().len() ==> (#[trigger] self.seq()[k]).draw_fits()
    }

    /// Project every obstacle onto a surface, in order.
    pub fn draw<C: Canvas>(&self, canvas: &mut C)
        requires
            self.inv(),
            old(canvas).inv(),
            self.draw_fits(),
        ensures
            final(canvas).inv(),
            final(canvas).dots() == obstacles_drawn(
                old(canvas).dots(),
                crate::canvas::covered_set(*old(canvas)),
                self.seq(),
            ),
            forall|a: int, b: int| final(canvas).covers(a, b) == old(canvas).covers(a, b),
    {
        let ghost start = *canvas;
        let ghost cov = crate::canvas::covered_set(start);
        let n = self.values.len();
        let mut i: usize = 0;
        proof {
            assert(self.seq().take(0) =~= Seq::<Obstacle>::empty());
            assert(canvas.dots() == obstacles_drawn(start.dots(), cov, self.seq().take(0)));
        }
        while i < n
            invariant
                self.inv(),
                self.draw_fits(),
                canvas.inv(),
                cov == crate::canvas::covered_set(start),
                n == self.seq().len(),
                i <= n,
                forall|a: int, b: int| canvas.covers(a, b) == start.covers(a, b),
                canvas.dots() == obstacles_drawn(start.dots(), cov, self.seq().take(i as int)),
            decreases n - i,
        {
            proof {
                assert(self.seq()[i as int].inv());
                assert(self.seq()[i as int].draw_fits());
                assert(crate::canvas::covered_set(*canvas) =~= cov);
            }
            let o = &self.values[i];
            o.draw(canvas);
            proof {
                let pre = self.seq().take(i as int);
                let post = self.seq().take(i as int + 1);
                assert(post.drop_last() =~= pre);
                assert(post.last() == self.seq()[i as int]);
                assert(canvas.dots() == obstacles_drawn(start.dots(), cov, post));
            }
            i = i + 1;
        }
        proof {
            assert(self.seq().take(n as int) =~= self.seq());
        }
    }
}

} // verus!
