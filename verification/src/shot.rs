use vstd::prelude::*;

use crate::animated::Animated;
use crate::canvas::{art_dots, art_frames, lemma_art_frames_nonneg, with_drawn, Canvas};
use crate::direction::Direction;
use crate::game_object::{overlap_of, GameObject, GameObjectAnimated};
use crate::point_set::{DotSet, PointSet};
use crate::position::{IndexType, Point};
use crate::sprite::{lemma_tight_corner_unique, rot_frames, shift_dots};
use crate::timer::Timer;

verus! {

pub const BULLET_SPRITE: &'static str = "\n  +x\n  |X\n  |x\n";

pub const BULLET_EXPLODE_01: &'static str = "\n  +XX\n  |XX\n";

pub const BULLET_EXPLODE_02: &'static str = "\n  + X \n  |X X\n  | X\n";

pub const BULLET_EXPLODE_03: &'static str = "\n  + XX \n  |X  X\n  |X  X\n  | XX\n";

pub const BULLET_EXPLODE_04: &'static str = "\n  +  X \n  |X   X\n  |X X X\n  |X   X\n  |  X\n";

pub const BULLET_EXPLODE_05: &'static str =
    "\n  +   X \n  | X   X\n  |X  X  X\n  | X   X\n  |   X\n";

pub const BULLET_EXPLODE_06: &'static str =
    "\n  +    X \n  |  X   X\n  | X  X  X\n  |X X X X X\n  | X  X  X\n  |  X   X\n  |    X\n";

pub const BULLET_EXPLODE_07: &'static str = "\n   + X X\n   |X X X\n   | X X\n";

/// A fired projectile: it flies ahead on a short timer until it explodes,
/// then plays its explosion animation in place and is done.
pub struct Shot {
    area: GameObjectAnimated,
    explode_pos: Point,
    direction: Direction,
    delay: Timer,
    exploding: bool,
}

impl Shot {
    pub closed spec fn spec_area(&self) -> GameObjectAnimated {
        self.area
    }

    pub closed spec fn spec_direction(&self) -> Direction {
        self.direction
    }

    pub closed spec fn spec_delay(&self) -> Timer {
        self.delay
    }

    pub closed spec fn spec_exploding(&self) -> bool {
        self.exploding
    }

    pub closed spec fn spec_explode_pos(&self) -> (int, int) {
        (self.explode_pos.x as int, self.explode_pos.y as int)
    }

    /// The shot's world anchor.
    pub open spec fn shot_pos(&self) -> (int, int) {
        self.spec_area().area_pos()
    }

    /// Well-formedness: the animation is well formed and every frame's
    /// cached corner leaves room for the one-past-the-corner width.
    pub open spec fn inv(&self) -> bool {
        &&& self.spec_area().sprite.inv()
        &&& forall|k: int|
            0 <= k < self.spec_area().sprite.frames().len() ==> (#[trigger] self.spec_area().sprite.frames()[k]).bound().0
                <= i16::MAX as int - 1 && self.spec_area().sprite.frames()[k].bound().1
                <= i16::MAX as int - 1
        &&& (self.spec_exploding() ==> forall|k: int|
            0 <= k < self.spec_area().sprite.frames().len() ==> (#[trigger] self.spec_area().sprite.frames()[k]).bound().0
                <= 100 && self.spec_area().sprite.frames()[k].bound().1 <= 100)
        &&& (self.spec_exploding() ==> {
            &&& self.explode_pos_fit()
            &&& self.spec_explode_pos().0 - 51 <= self.shot_pos().0 <= self.spec_explode_pos().0
            &&& self.spec_explode_pos().1 - 51 <= self.shot_pos().1 <= self.spec_explode_pos().1
        })
    }

    /// Whether the rectangle the shot spans fits the coordinate type.
    pub open spec fn fits(&self) -> bool {
        &&& self.spec_area().area_width() <= i16::MAX as int
        &&& self.spec_area().area_height() <= i16::MAX as int
        &&& self.shot_pos().0 + self.spec_area().area_width() <= i16::MAX as int
        &&& self.shot_pos().1 + self.spec_area().area_height() <= i16::MAX as int
    }

    pub fn new(x: IndexType, y: IndexType, dir: Direction) -> (r: Shot)
        ensures
            r.inv(),
            !r.spec_exploding(),
            r.spec_direction() == dir,
            r.shot_pos() == (x as int, y as int),
            r.spec_delay().spec_duration() == 25,
            r.spec_explode_pos() == (x as int, y as int),
            r.spec_area().sprite.spec_static(),
            r.spec_area().sprite.frames().len() > 0,
            (dir == Direction::Up || dir == Direction::Down)
                ==> r.spec_area().sprite.frames_dots() == art_frames(BULLET_SPRITE@),
            (dir == Direction::Left || dir == Direction::Right)
                ==> r.spec_area().sprite.frames_dots() == rot_frames(art_frames(BULLET_SPRITE@)),
    {
        proof {
            reveal_strlit("\n  +x\n  |X\n  |x\n");
        }
        let mut s = Animated::new_static();
        s.add_from_string(BULLET_SPRITE);
        proof {
            lemma_art_frames_nonneg(BULLET_SPRITE@);
            assert(s.frames_dots() =~= art_frames(BULLET_SPRITE@));
            assert(art_frames(BULLET_SPRITE@).len() >= 1);
            assert(BULLET_SPRITE@.len() <= 100);
            assert forall|k: int|
                0 <= k < s.frames().len() implies (#[trigger] s.frames()[k]).bound().0 <= 100
                && s.frames()[k].bound().1 <= 100 by {}
            assert forall|k: int, d: (int, int)|
                0 <= k < s.frames().len() && #[trigger] s.frames()[k].dots().contains(d)
                implies 0 <= d.0 && 0 <= d.1 by {
                assert(s.frames_dots()[k] == s.frames()[k].dots());
                assert(art_frames(BULLET_SPRITE@)[k].contains(d));
            }
        }
        if dir == Direction::Left || dir == Direction::Right {
            proof {
                s.lemma_frames_inv();
                assert forall|k: int, d: (int, int)|
                    0 <= k < s.frames().len() && #[trigger] s.frames()[k].dots().contains(d)
                    implies s.frames()[k].bound().1 - d.1 <= 32767 by {
                    assert(s.frames()[k].inv());
                    s.frames()[k].lemma_inv_bounds();
                }
            }
            let ghost pre = s;
            s.rotate_90();
            proof {
                assert forall|k: int|
                    0 <= k < s.frames().len() implies #[trigger] s.frames_dots()[k] == rot_frames(
                    art_frames(BULLET_SPRITE@),
                )[k] by {
                    assert(pre.frames_dots()[k] == pre.frames()[k].dots());
                    assert(pre.frames()[k].dots() == art_frames(BULLET_SPRITE@)[k]);
                    assert(crate::sprite::tight_bound(
                        pre.frames()[k].dots(),
                        pre.frames()[k].bound(),
                    ));
                    lemma_tight_corner_unique(pre.frames()[k].dots(), pre.frames()[k].bound());
                    assert(s.frames()[k].dots() == crate::sprite::rot_set(
                        pre.frames()[k].dots(),
                        pre.frames()[k].bound().1,
                    ));
                    assert(s.frames_dots()[k] == s.frames()[k].dots());
                }
                assert(s.frames_dots() =~= rot_frames(art_frames(BULLET_SPRITE@)));
                pre.lemma_frames_inv();
                s.lemma_frames_inv();
                assert forall|k: int|
                    0 <= k < s.frames().len() implies (#[trigger] s.frames()[k]).bound().0 <= 100
                    && s.frames()[k].bound().1 <= 100 by {
                    let my = pre.frames()[k].bound().1;
                    let bnew = s.frames()[k].bound();
                    assert(s.frames()[k].dots() == crate::sprite::rot_set(
                        pre.frames()[k].dots(),
                        my,
                    ));
                    pre.frames()[k].lemma_inv_bounds();
                    assert(crate::sprite::tight_bound(s.frames()[k].dots(), bnew));
                    if bnew.0 != 0 {
                        let w = choose|d: (int, int)|
                            #[trigger] s.frames()[k].dots().contains(d) && d.0 == bnew.0;
                        assert(pre.frames()[k].dots().contains((w.1, my - w.0)));
                        assert(pre.frames()[k].dots().contains((w.1, my - w.0)) && art_frames(
                            BULLET_SPRITE@,
                        )[k].contains((w.1, my - w.0))) by {
                            assert(pre.frames_dots()[k] == pre.frames()[k].dots());
                        }
                        assert(my - w.0 >= 0);
                        assert(bnew.0 <= my);
                    }
                    if bnew.1 != 0 {
                        let w = choose|d: (int, int)|
                            #[trigger] s.frames()[k].dots().contains(d) && d.1 == bnew.1;
                        assert(pre.frames()[k].dots().contains((w.1, my - w.0)));
                        assert(bnew.1 <= pre.frames()[k].bound().0);
                    }
                }
            }
        }
        let area = GameObjectAnimated::new(s, x, y);
        Shot {
            area,
            explode_pos: Point { x, y },
            direction: dir,
            delay: Timer::new(25),
            exploding: false,
        }
    }

    /// Whether a step ahead stays inside the coordinate type.
    pub open spec fn can_step(&self) -> bool {
        match self.spec_direction() {
            Direction::Up => self.shot_pos().1 > i16::MIN as int,
            Direction::Right => self.shot_pos().0 < i16::MAX as int,
            Direction::Down => self.shot_pos().1 < i16::MAX as int,
            Direction::Left => self.shot_pos().0 > i16::MIN as int,
        }
    }

    /// Fly one dot ahead, unless already exploding.
    pub fn forward(&mut self)
        requires
            old(self).inv(),
            !old(self).spec_exploding() ==> old(self).can_step(),
        ensures
            final(self).inv(),
            final(self).spec_exploding() == old(self).spec_exploding(),
            final(self).spec_direction() == old(self).spec_direction(),
            final(self).spec_delay() == old(self).spec_delay(),
            final(self).spec_area().sprite == old(self).spec_area().sprite,
            final(self).spec_explode_pos() == old(self).spec_explode_pos(),
            old(self).spec_exploding() ==> *final(self) == *old(self),
            !old(self).spec_exploding() ==> final(self).shot_pos() == (match old(
                self,
            ).spec_direction() {
                Direction::Up => (old(self).shot_pos().0, old(self).shot_pos().1 - 1),
                Direction::Right => (old(self).shot_pos().0 + 1, old(self).shot_pos().1),
                Direction::Down => (old(self).shot_pos().0, old(self).shot_pos().1 + 1),
                Direction::Left => (old(self).shot_pos().0 - 1, old(self).shot_pos().1),
            }),
    {
        if !self.exploding {
            let pos = self.area.get_pos();
            let fixed_pos = self.direction.go_forward(pos);
            self.area.move_to(fixed_pos.x, fixed_pos.y);
        }
    }


    /// The current frame's extent, as the invariant bounds it.
    pub proof fn cur_frame_bounds(&self)
        requires
            self.inv(),
        ensures
            self.spec_area().area_width() <= i16::MAX as int,
            self.spec_area().area_height() <= i16::MAX as int,
            self.spec_exploding() ==> self.spec_area().area_width() <= 101
                && self.spec_area().area_height() <= 101,
            1 <= self.spec_area().area_width(),
            1 <= self.spec_area().area_height(),
    {
        self.spec_area().sprite.ps_props();
        self.spec_area().sprite.lemma_frames_inv();
        let fr = self.spec_area().sprite.frames();
        if fr.len() > 0 {
            let cur = self.spec_area().sprite.cur_id();
            assert(fr[cur].bound().0 <= i16::MAX as int - 1 && fr[cur].bound().1
                <= i16::MAX as int - 1);
            if self.spec_exploding() {
                assert(fr[cur].bound().0 <= 100 && fr[cur].bound().1 <= 100);
            }
        }
    }

    /// The invariant only watches the frames and the exploding flag, so it
    /// survives any change that keeps those.
    proof fn lemma_inv_preserved(pre: Shot, post: Shot)
        requires
            pre.inv(),
            post.spec_area().sprite.inv(),
            post.spec_area().sprite.frames() == pre.spec_area().sprite.frames(),
            post.spec_exploding() == pre.spec_exploding() || !post.spec_exploding(),
            post.spec_explode_pos() == pre.spec_explode_pos(),
            post.spec_exploding() ==> post.shot_pos() == pre.shot_pos(),
        ensures
            post.inv(),
    {
        let fr = post.spec_area().sprite.frames();
        assert forall|k: int|
            0 <= k < fr.len() implies (#[trigger] fr[k]).bound().0 <= i16::MAX as int - 1
            && fr[k].bound().1 <= i16::MAX as int - 1 by {
            assert(fr[k] == pre.spec_area().sprite.frames()[k]);
        }
        if post.spec_exploding() {
            assert forall|k: int|
                0 <= k < fr.len() implies (#[trigger] fr[k]).bound().0 <= 100 && fr[k].bound().1
                <= 100 by {
                assert(fr[k] == pre.spec_area().sprite.frames()[k]);
            }
        }
    }

    /// Whether the hold point of an exploding shot leaves room to center
    /// its frames around it and to span them in the coordinate type.
    pub open spec fn explode_pos_fit(&self) -> bool {
        &&& i16::MIN as int + 102 <= self.spec_explode_pos().0 <= i16::MAX as int - 102
        &&& i16::MIN as int + 102 <= self.spec_explode_pos().1 <= i16::MAX as int - 102
    }

    /// An exploding shot spans a rectangle that fits the coordinate type.
    pub proof fn exploded_rect_fit(&self)
        requires
            self.inv(),
            self.spec_exploding(),
        ensures
            self.shot_pos().0 + self.spec_area().area_width() <= i16::MAX as int,
            self.shot_pos().1 + self.spec_area().area_height() <= i16::MAX as int,
    {
        self.cur_frame_bounds();
    }

    /// Advance the animation and the flight timer; fly ahead once the
    /// timer runs out, and keep an exploding shot centered on its hold
    /// point.
    pub fn update(&mut self, delta: u64)
        requires
            old(self).inv(),
            !old(self).spec_exploding() ==> old(self).can_step(),
        ensures
            final(self).inv(),
            final(self).spec_exploding() == old(self).spec_exploding(),
            final(self).spec_direction() == old(self).spec_direction(),
            final(self).spec_explode_pos() == old(self).spec_explode_pos(),
            final(self).spec_delay().spec_duration() == old(self).spec_delay().spec_duration(),
            final(self).spec_area().sprite.frames().len() == old(
                self,
            ).spec_area().sprite.frames().len(),
    {
        let ghost pre = *self;
        let area = &mut self.area;
        let sprite = &mut area.sprite;
        sprite.update(delta);
        proof {
            Self::lemma_inv_preserved(pre, *self);
        }
        let ready = self.delay.update(delta);
        proof {
            Self::lemma_inv_preserved(pre, *self);
        }
        if ready {
            self.forward();
        }
        if self.exploding {
            proof {
                Self::lemma_inv_preserved(pre, *self);
            }
            self.fix_explode_pos();
        }
    }

    /// Switch to the explosion: remember the center, restart the fuse, and
    /// install the looped explosion frames there.  Reports whether the
    /// shot was still flying.
    pub fn explode(&mut self) -> (r: bool)
        requires
            old(self).inv(),
            !old(self).spec_exploding() ==> {
                &&& old(self).shot_pos().0 + old(self).spec_area().area_width() / 2
                    <= i16::MAX as int - 102
                &&& old(self).shot_pos().1 + old(self).spec_area().area_height() / 2
                    <= i16::MAX as int - 102
                &&& old(self).shot_pos().0 >= i16::MIN as int + 102
                &&& old(self).shot_pos().1 >= i16::MIN as int + 102
            },
        ensures
            final(self).inv(),
            final(self).spec_exploding(),
            r == !old(self).spec_exploding(),
            final(self).spec_direction() == old(self).spec_direction(),
            old(self).spec_exploding() ==> *final(self) == *old(self),
            !old(self).spec_exploding() ==> {
                &&& final(self).spec_delay().spec_duration() == 500
                &&& final(self).spec_area().sprite.spec_looped()
                &&& final(self).spec_area().sprite.delay().spec_duration() == 100
                &&& final(self).explode_pos_fit()
                &&& final(self).spec_explode_pos() == (
                    old(self).shot_pos().0 + old(self).spec_area().area_width() / 2,
                    old(self).shot_pos().1 + old(self).spec_area().area_height() / 2,
                )
                &&& final(self).spec_area().sprite.frames_dots() == seq![
                    art_dots(BULLET_EXPLODE_01@, 0, 0),
                    art_dots(BULLET_EXPLODE_02@, 0, 0),
                    art_dots(BULLET_EXPLODE_03@, 0, 0),
                    art_dots(BULLET_EXPLODE_04@, 0, 0),
                    art_dots(BULLET_EXPLODE_05@, 0, 0),
                    art_dots(BULLET_EXPLODE_06@, 0, 0),
                    art_dots(BULLET_EXPLODE_07@, 0, 0),
                ]
            },
    {
        if !self.exploding {
            proof {
                self.cur_frame_bounds();
            }
            let center = self.area.get_center_pos();
            self.explode_pos = center;
            self.exploding = true;
            self.delay = Timer::from_millis(500);
            proof {
                reveal_strlit("\n  +XX\n  |XX\n");
                reveal_strlit("\n  + X \n  |X X\n  | X\n");
                reveal_strlit("\n  + XX \n  |X  X\n  |X  X\n  | XX\n");
                reveal_strlit("\n  +  X \n  |X   X\n  |X X X\n  |X   X\n  |  X\n");
                reveal_strlit("\n  +   X \n  | X   X\n  |X  X  X\n  | X   X\n  |   X\n");
                reveal_strlit(
                    "\n  +    X \n  |  X   X\n  | X  X  X\n  |X X X X X\n  | X  X  X\n  |  X   X\n  |    X\n",
                );
                reveal_strlit("\n   + X X\n   |X X X\n   | X X\n");
            }
            let mut explode = Animated::new_looped(100);
            explode.add_sprite(crate::sprite::Sprite::new_from_string(BULLET_EXPLODE_01));
            explode.add_sprite(crate::sprite::Sprite::new_from_string(BULLET_EXPLODE_02));
            explode.add_sprite(crate::sprite::Sprite::new_from_string(BULLET_EXPLODE_03));
            explode.add_sprite(crate::sprite::Sprite::new_from_string(BULLET_EXPLODE_04));
            explode.add_sprite(crate::sprite::Sprite::new_from_string(BULLET_EXPLODE_05));
            explode.add_sprite(crate::sprite::Sprite::new_from_string(BULLET_EXPLODE_06));
            explode.add_sprite(crate::sprite::Sprite::new_from_string(BULLET_EXPLODE_07));
            self.area.set_point_set(explode);
            proof {
                let fr = self.area.sprite.frames();
                assert(fr.len() == 7);
                assert forall|k: int|
                    0 <= k < fr.len() implies (#[trigger] fr[k]).bound().0 <= 100
                    && fr[k].bound().1 <= 100 by {}
                assert(self.area.sprite.frames_dots() =~= seq![
                    art_dots(BULLET_EXPLODE_01@, 0, 0),
                    art_dots(BULLET_EXPLODE_02@, 0, 0),
                    art_dots(BULLET_EXPLODE_03@, 0, 0),
                    art_dots(BULLET_EXPLODE_04@, 0, 0),
                    art_dots(BULLET_EXPLODE_05@, 0, 0),
                    art_dots(BULLET_EXPLODE_06@, 0, 0),
                    art_dots(BULLET_EXPLODE_07@, 0, 0),
                ]);
            }
            self.fix_explode_pos();
            return true;
        }
        false
    }

    /// Pin the animation's center onto the remembered explosion point.
    fn fix_explode_pos(&mut self)
        requires
            old(self).spec_area().sprite.inv(),
            old(self).spec_exploding(),
            old(self).explode_pos_fit(),
            forall|k: int|
                0 <= k < old(self).spec_area().sprite.frames().len() ==> (#[trigger] old(
                    self,
                ).spec_area().sprite.frames()[k]).bound().0 <= 100 && old(
                    self,
                ).spec_area().sprite.frames()[k].bound().1 <= 100,
        ensures
            final(self).inv(),
            final(self).spec_exploding(),
            final(self).spec_direction() == old(self).spec_direction(),
            final(self).spec_delay() == old(self).spec_delay(),
            final(self).spec_explode_pos() == old(self).spec_explode_pos(),
            final(self).spec_area().sprite == old(self).spec_area().sprite,
    {
        proof {
            self.area.sprite.ps_props();
            self.area.sprite.lemma_frames_inv();
            let fr = self.area.sprite.frames();
            if fr.len() > 0 {
                let cur = self.area.sprite.cur_id();
                assert(fr[cur].bound().0 <= 100 && fr[cur].bound().1 <= 100);
            }
        }
        let x = self.explode_pos.x;
        let y = self.explode_pos.y;
        self.area.move_center_to(x, y);
    }

    /// An exploding shot whose fuse has run out is done.
    pub fn is_done(&self) -> (r: bool)
        ensures
            r == (self.spec_exploding() && self.spec_delay().spec_ready()),
    {
        self.exploding && self.delay.ready()
    }

    /// Project the shot's current frame onto a surface.
    pub fn draw<C: Canvas>(&self, canvas: &mut C)
        requires
            self.inv(),
            old(canvas).inv(),
            forall|d: (int, int)| #[trigger] self.spec_area().sprite.ps_dots().contains(d)
                ==> i16::MIN as int <= self.shot_pos().0 + d.0 <= i16::MAX as int
                && i16::MIN as int <= self.shot_pos().1 + d.1 <= i16::MAX as int,
        ensures
            final(canvas).inv(),
            final(canvas).dots() == with_drawn(
                *old(canvas),
                shift_dots(
                    self.spec_area().sprite.ps_dots(),
                    self.shot_pos().0,
                    self.shot_pos().1,
                ),
            ),
            forall|a: int, b: int| final(canvas).covers(a, b) == old(canvas).covers(a, b),
    {
        self.area.draw_to_canvas(canvas)
    }

    /// The overlap of this shot with another entity.
    pub fn get_overlap<O: GameObject>(&self, other: &O) -> (res: Vec<(Point, Point)>)
        requires
            self.inv(),
            other.go_inv(),
            self.shot_pos().0 + self.spec_area().area_width() <= i16::MAX as int,
            self.shot_pos().1 + self.spec_area().area_height() <= i16::MAX as int,
            other.go_size().0 <= i16::MAX as int,
            other.go_size().1 <= i16::MAX as int,
            other.go_pos().0 + other.go_size().0 <= i16::MAX as int,
            other.go_pos().1 + other.go_size().1 <= i16::MAX as int,
        ensures
            self.go_has_set() && other.go_has_set() ==> crate::game_object::pairs_view(
                res@,
            ).to_set() == crate::game_object::overlap_pairs(
                crate::game_object::go_rect(*self),
                self.go_dots(),
                crate::game_object::go_rect(*other),
                other.go_dots(),
            ) && crate::game_object::pairs_view(res@).no_duplicates(),
            !(self.go_has_set() && other.go_has_set()) ==> res@ == Seq::<(Point, Point)>::empty(),
    {
        proof {
            self.cur_frame_bounds();
        }
        overlap_of(self, other)
    }
}

impl GameObject for Shot {
    open spec fn go_dots(&self) -> Set<(int, int)> {
        self.spec_area().sprite.ps_dots()
    }

    open spec fn go_has_set(&self) -> bool {
        self.spec_area().sprite.ps_some()
    }

    open spec fn go_pos(&self) -> (int, int) {
        self.shot_pos()
    }

    open spec fn go_size(&self) -> (int, int) {
        (self.spec_area().area_width(), self.spec_area().area_height())
    }

    open spec fn go_inv(&self) -> bool {
        self.inv()
    }

    proof fn go_props(&self) {
        self.spec_area().sprite.ps_props();
    }

    fn get_point_set(&self) -> (r: Option<&DotSet>) {
        self.area.get_point_set()
    }

    fn get_position(&self) -> (r: Point) {
        self.area.get_pos()
    }

    fn get_width(&self) -> (r: IndexType) {
        proof {
            self.area.sprite.ps_props();
        }
        self.area.get_width()
    }

    fn get_height(&self) -> (r: IndexType) {
        proof {
            self.area.sprite.ps_props();
        }
        self.area.get_height()
    }

    fn get_rect(&self) -> (r: (Point, Point)) {
        proof {
            self.area.sprite.ps_props();
        }
        let pos = self.area.get_pos();
        let w = self.area.get_width();
        let h = self.area.get_height();
        (pos, Point { x: pos.x + w, y: pos.y + h })
    }
}



} // verus!
