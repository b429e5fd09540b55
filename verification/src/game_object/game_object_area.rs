use vstd::prelude::*;

use crate::canvas::{with_drawn, Canvas};
use crate::point_set::{DotSet, PointSet};
use crate::position::{imax, IndexType, Point};
use crate::sprite::shift_dots;

verus! {

/// A positioned object: anything exposing a current point-set plus its
/// bounding corner, anchored at a world position.
pub struct GameObjectAreaImpl<T> {
    pub sprite: T,
    pub pos: Point,
}

impl<T> GameObjectAreaImpl<T> {
    /// The world anchor, as mathematical integers.
    pub open spec fn area_pos(&self) -> (int, int) {
        (self.pos.x as int, self.pos.y as int)
    }

    pub fn new(point_set: T, x: IndexType, y: IndexType) -> (r: GameObjectAreaImpl<T>)
        ensures
            r.sprite == point_set,
            r.area_pos() == (x as int, y as int),
    {
        GameObjectAreaImpl { sprite: point_set, pos: Point { x, y } }
    }

    /// Swap the shape out, keeping the position.
    pub fn set_point_set(&mut self, ps: T)
        ensures
            final(self).sprite == ps,
            final(self).area_pos() == old(self).area_pos(),
    {
        self.sprite = ps;
    }
}

impl<T: PointSet> GameObjectAreaImpl<T> {
    /// The width the object reports: one past its bounding column.
    pub open spec fn area_width(&self) -> int {
        self.sprite.ps_max().0 + 1
    }

    /// The height the object reports: one past its bounding row.
    pub open spec fn area_height(&self) -> int {
        self.sprite.ps_max().1 + 1
    }

    pub fn get_point_set(&self) -> (r: Option<&DotSet>)
        requires
            self.sprite.ps_inv(),
        ensures
            (match r {
                Some(ds) => self.sprite.ps_some() && ds.inv() && ds.dots()
                    == self.sprite.ps_dots(),
                None => !self.sprite.ps_some() && self.sprite.ps_dots() == Set::<(
                    int,
                    int,
                )>::empty(),
            }),
    {
        self.sprite.get_point_set()
    }

    pub fn get_pos(&self) -> (r: Point)
        ensures
            (r.x as int, r.y as int) == self.area_pos(),
    {
        self.pos
    }

    pub fn get_width(&self) -> (r: IndexType)
        requires
            self.sprite.ps_inv(),
            self.area_width() <= i16::MAX as int,
        ensures
            r as int == self.area_width(),
            r >= 1,
    {
        self.sprite.get_max().x + 1
    }

    pub fn get_height(&self) -> (r: IndexType)
        requires
            self.sprite.ps_inv(),
            self.area_height() <= i16::MAX as int,
        ensures
            r as int == self.area_height(),
            r >= 1,
    {
        self.sprite.get_max().y + 1
    }

    /// The world dot halfway into the object's extent.
    pub fn get_center_pos(&self) -> (r: Point)
        requires
            self.sprite.ps_inv(),
            self.area_width() <= i16::MAX as int,
            self.area_height() <= i16::MAX as int,
            self.area_pos().0 + self.area_width() / 2 <= i16::MAX as int,
            self.area_pos().1 + self.area_height() / 2 <= i16::MAX as int,
        ensures
            r.x as int == self.area_pos().0 + self.area_width() / 2,
            r.y as int == self.area_pos().1 + self.area_height() / 2,
    {
        let p = self.get_pos();
        let w = self.get_width();
        let h = self.get_height();
        Point { x: p.x + w / 2, y: p.y + h / 2 }
    }

    pub fn move_to(&mut self, x: IndexType, y: IndexType)
        ensures
            final(self).sprite == old(self).sprite,
            final(self).area_pos() == (x as int, y as int),
    {
        self.pos.move_to(x, y);
    }

    /// Move so that the object's center lands on `(x, y)`.
    pub fn move_center_to(&mut self, x: IndexType, y: IndexType)
        requires
            old(self).sprite.ps_inv(),
            old(self).area_width() <= i16::MAX as int,
            old(self).area_height() <= i16::MAX as int,
            i16::MIN as int <= x as int - old(self).area_width() / 2,
            i16::MIN as int <= y as int - old(self).area_height() / 2,
        ensures
            final(self).sprite == old(self).sprite,
            final(self).area_pos() == (
                x as int - old(self).area_width() / 2,
                y as int - old(self).area_height() / 2,
            ),
    {
        let w = self.get_width();
        let h = self.get_height();
        self.move_to(x - w / 2, y - h / 2)
    }

    /// Project the current point-set onto a surface at the object's
    /// position.
    pub fn draw_to_canvas<C: Canvas>(&self, canvas: &mut C)
        requires
            self.sprite.ps_inv(),
            old(canvas).inv(),
            forall|d: (int, int)| #[trigger] self.sprite.ps_dots().contains(d) ==> i16::MIN as int
                <= self.area_pos().0 + d.0 <= i16::MAX as int && i16::MIN as int
                <= self.area_pos().1 + d.1 <= i16::MAX as int,
        ensures
            final(canvas).inv(),
            final(canvas).dots() == with_drawn(
                *old(canvas),
                shift_dots(self.sprite.ps_dots(), self.area_pos().0, self.area_pos().1),
            ),
            forall|a: int, b: int| final(canvas).covers(a, b) == old(canvas).covers(a, b),
    {
        let ghost start = *canvas;
        let maybe = self.sprite.get_point_set();
        match maybe {
            Some(points) => {
                let n = points.len();
                let mut i: usize = 0;
                proof {
                    assert(points.seq().take(0) =~= Seq::<(int, int)>::empty());
                    assert(canvas.dots() =~= with_drawn(
                        start,
                        shift_dots(
                            points.seq().take(0).to_set(),
                            self.area_pos().0,
                            self.area_pos().1,
                        ),
                    ));
                }
                while i < n
                    invariant
                        self.sprite.ps_inv(),
                        canvas.inv(),
                        start == *old(canvas),
                        points.inv(),
                        points.dots() == self.sprite.ps_dots(),
                        n == points.seq().len(),
                        i <= n,
                        forall|d: (int, int)| #[trigger] self.sprite.ps_dots().contains(d)
                            ==> i16::MIN as int <= self.area_pos().0 + d.0 <= i16::MAX as int
                            && i16::MIN as int <= self.area_pos().1 + d.1 <= i16::MAX as int,
                        forall|a: int, b: int| canvas.covers(a, b) == start.covers(a, b),
                        canvas.dots() == with_drawn(
                            start,
                            shift_dots(
                                points.seq().take(i as int).to_set(),
                                self.area_pos().0,
                                self.area_pos().1,
                            ),
                        ),
                    decreases n - i,
                {
                    let p = points.get(i);
                    proof {
                        assert(self.sprite.ps_dots().contains((p.x as int, p.y as int)));
                    }
                    canvas.draw_dot(self.pos.x + p.x, self.pos.y + p.y);
                    proof {
                        let pre = points.seq().take(i as int);
                        let post = points.seq().take(i as int + 1);
                        let elt = points.seq()[i as int];
                        assert(post =~= pre.push(elt));
                        pre.lemma_push_to_set_commute(elt);
                        assert(post.to_set() == pre.to_set().insert((p.x as int, p.y as int)));
                        assert(canvas.dots() =~= with_drawn(
                            start,
                            shift_dots(post.to_set(), self.area_pos().0, self.area_pos().1),
                        ));
                    }
                    i = i + 1;
                }
                proof {
                    assert(points.seq().take(n as int) =~= points.seq());
                    assert(shift_dots(
                        points.seq().to_set(),
                        self.area_pos().0,
                        self.area_pos().1,
                    ) =~= shift_dots(
                        self.sprite.ps_dots(),
                        self.area_pos().0,
                        self.area_pos().1,
                    ));
                }
            },
            None => {
                proof {
                    assert(shift_dots(
                        self.sprite.ps_dots(),
                        self.area_pos().0,
                        self.area_pos().1,
                    ) =~= Set::<(int, int)>::empty());
                    assert(canvas.dots() =~= with_drawn(
                        start,
                        shift_dots(self.sprite.ps_dots(), self.area_pos().0, self.area_pos().1),
                    ));
                }
            },
        }
    }
}

} // verus!
