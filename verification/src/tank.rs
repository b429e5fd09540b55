use vstd::prelude::*;

use crate::animated::Animated;
use crate::animation_builder::AnimationBuilder;
use crate::canvas::{art_frames, lemma_art_frames_nonneg, Canvas};
use crate::direction::Direction;
use crate::game_object::{overlap_of, GameObject, GameObjectAnimated};
use crate::obstacle::{all_kept_in_place, block_dots, kept_in_place, Obstacle, Obstacles};
use crate::point_set::{DotSet, PointSet};
use crate::position::{IndexType, Point};
use crate::shot::Shot;
use crate::sprite::{rot_set, tight_bound, Sprite};
use crate::timer::Timer;

verus! {

pub const TANK_SPRITE: &'static str = "\n+    *\n|    *\n|  *****\n|**  *   *\n|   *** **\n|** * * **\n|** ***  \n|*      **\n|   *** \n-\n+    *\n|    *\n|  *****\n|*   *  ** \n|** *** **\n|** * *  \n|   *** **\n|**     **\n|   *** \n-\n+    *\n|    *\n|  *****\n|**  *  ** \n|** ***  \n|   * * **\n|** *** **\n|**      *\n|   *** \n";

/// The player's tank: a three-frame gait animation, a solid border used
/// for collision, a heading, the shots in flight, and a recharge timer.
pub struct Tank {
    area: GameObjectAnimated,
    border: Sprite,
    direction: Direction,
    shots: Vec<Shot>,
    recharge_delay: Timer,
}

impl Tank {
    pub closed spec fn spec_area(&self) -> GameObjectAnimated {
        self.area
    }

    pub closed spec fn spec_border(&self) -> Sprite {
        self.border
    }

    pub closed spec fn spec_direction(&self) -> Direction {
        self.direction
    }

    pub closed spec fn spec_shots(&self) -> Seq<Shot> {
        self.shots@
    }

    pub closed spec fn spec_recharge(&self) -> Timer {
        self.recharge_delay
    }

    /// The tank's world anchor.
    pub open spec fn tank_pos(&self) -> (int, int) {
        self.spec_area().area_pos()
    }

    /// Frames fit for turning: well bounded and without negative dots.
    pub open spec fn frames_ok(a: Animated) -> bool {
        &&& forall|k: int|
            0 <= k < a.frames().len() ==> (#[trigger] a.frames()[k]).bound().0 <= i16::MAX as int
                - 1 && a.frames()[k].bound().1 <= i16::MAX as int - 1
        &&& forall|k: int, d: (int, int)|
            0 <= k < a.frames().len() && #[trigger] a.frames()[k].dots().contains(d) ==> 0 <= d.0
                && 0 <= d.1
    }

    /// A border sprite fit for turning: well bounded, tight, and without
    /// negative dots.
    pub open spec fn border_ok(s: Sprite) -> bool {
        &&& s.inv()
        &&& s.bound().0 <= i16::MAX as int - 1
        &&& s.bound().1 <= i16::MAX as int - 1
        &&& forall|d: (int, int)| #[trigger] s.dots().contains(d) ==> 0 <= d.0 && 0 <= d.1
    }

    pub open spec fn inv(&self) -> bool {
        &&& self.spec_area().sprite.inv()
        &&& Self::frames_ok(self.spec_area().sprite)
        &&& Self::border_ok(self.spec_border())
        &&& forall|k: int| 0 <= k < self.spec_shots().len() ==> (#[trigger] self.spec_shots()[k]).inv()
    }

    pub fn new(x: IndexType, y: IndexType) -> (r: Tank)
        ensures
            r.inv(),
            r.spec_direction() == Direction::Up,
            r.tank_pos() == (x as int, y as int),
            r.spec_shots().len() == 0,
            r.spec_recharge().spec_duration() == 250,
            r.spec_area().sprite.frames_dots() == art_frames(TANK_SPRITE@),
            r.spec_area().sprite.spec_static(),
            r.spec_border().dots() == block_dots(
                r.spec_area().sprite.ps_max().0 + 1,
                r.spec_area().sprite.ps_max().1 + 1,
            ),
    {
        proof {
            reveal_strlit(
                "\n+    *\n|    *\n|  *****\n|**  *   *\n|   *** **\n|** * * **\n|** ***  \n|*      **\n|   *** \n-\n+    *\n|    *\n|  *****\n|*   *  ** \n|** *** **\n|** * *  \n|   *** **\n|**     **\n|   *** \n-\n+    *\n|    *\n|  *****\n|**  *  ** \n|** ***  \n|   * * **\n|** *** **\n|**      *\n|   *** \n",
            );
        }
        let tank_animated = AnimationBuilder::new_static().add_from_string(TANK_SPRITE).build();
        proof {
            lemma_art_frames_nonneg(TANK_SPRITE@);
            assert(tank_animated.frames_dots() =~= art_frames(TANK_SPRITE@));
            assert forall|k: int, d: (int, int)|
                0 <= k < tank_animated.frames().len()
                    && #[trigger] tank_animated.frames()[k].dots().contains(d) implies 0 <= d.0
                && 0 <= d.1 by {
                assert(tank_animated.frames_dots()[k] == tank_animated.frames()[k].dots());
                assert(art_frames(TANK_SPRITE@)[k].contains(d));
            }
            assert forall|k: int|
                0 <= k < tank_animated.frames().len() implies (
                #[trigger] tank_animated.frames()[k]).bound().0 <= i16::MAX as int - 1
                && tank_animated.frames()[k].bound().1 <= i16::MAX as int - 1 by {}
            tank_animated.lemma_frames_inv();
            tank_animated.ps_props();
            if tank_animated.frames().len() > 0 {
                let cur = tank_animated.cur_id();
                assert(tank_animated.frames()[cur].bound().0 <= i16::MAX as int - 1);
            }
            assert(tank_animated.ps_max().0 <= i16::MAX as int - 1);
            assert(tank_animated.ps_max().1 <= i16::MAX as int - 1);
        }
        let tmax = tank_animated.get_max();
        let mut a = Sprite::new();
        let ghost w = tmax.x as int + 1;
        let ghost h = tmax.y as int + 1;
        let mut i: i32 = 0;
        proof {
            assert(a.dots() =~= Set::new(|q: (int, int)| 0 <= q.0 < 0 && 0 <= q.1 < h));
        }
        while i <= tmax.x as i32
            invariant
                a.inv(),
                tight_bound(a.dots(), a.bound()),
                w == tmax.x as int + 1,
                h == tmax.y as int + 1,
                1 <= w <= i16::MAX as int,
                1 <= h <= i16::MAX as int,
                0 <= i <= w,
                a.dots() == Set::new(|q: (int, int)| 0 <= q.0 < i && 0 <= q.1 < h),
                a.bound().0 <= w - 1,
                a.bound().1 <= h - 1,
            decreases w - i,
        {
            let mut j: i32 = 0;
            while j <= tmax.y as i32
                invariant
                    a.inv(),
                    tight_bound(a.dots(), a.bound()),
                    w == tmax.x as int + 1,
                    h == tmax.y as int + 1,
                    1 <= w <= i16::MAX as int,
                    1 <= h <= i16::MAX as int,
                    0 <= i < w,
                    0 <= j <= h,
                    a.dots() == Set::new(
                        |q: (int, int)|
                            (0 <= q.0 < i && 0 <= q.1 < h) || (q.0 == i && 0 <= q.1 < j),
                    ),
                    a.bound().0 <= w - 1,
                    a.bound().1 <= h - 1,
                decreases h - j,
            {
                a.draw_dot(i as IndexType, j as IndexType);
                proof {
                    assert(a.dots() =~= Set::new(
                        |q: (int, int)|
                            (0 <= q.0 < i && 0 <= q.1 < h) || (q.0 == i && 0 <= q.1 < j + 1),
                    ));
                }
                j = j + 1;
            }
            proof {
                assert(a.dots() =~= Set::new(
                    |q: (int, int)| 0 <= q.0 < i + 1 && 0 <= q.1 < h,
                ));
            }
            i = i + 1;
        }
        proof {
            assert(a.dots() =~= block_dots(w, h));
        }
        Tank {
            area: GameObjectAnimated::new(tank_animated, x, y),
            border: a,
            direction: Direction::Up,
            shots: Vec::new(),
            recharge_delay: Timer::new(250),
        }
    }

    /// Turn the tank a quarter turn clockwise: every animation frame and
    /// the border turn in place, and the heading advances.
    pub fn rotate_90(&mut self)
        requires
            old(self).inv(),
        ensures
            final(self).inv(),
            final(self).spec_direction() == old(self).spec_direction().spec_next_clockwise(),
            final(self).tank_pos() == old(self).tank_pos(),
            final(self).spec_shots() == old(self).spec_shots(),
            final(self).spec_recharge() == old(self).spec_recharge(),
            final(self).spec_area().sprite.frames().len() == old(self).spec_area().sprite.frames().len(),
    {
        let ghost pre = *self;
        proof {
            self.area.sprite.lemma_frames_inv();
            assert forall|k: int, d: (int, int)|
                0 <= k < self.area.sprite.frames().len()
                    && #[trigger] self.area.sprite.frames()[k].dots().contains(d) implies
                self.area.sprite.frames()[k].bound().1 - d.1 <= 32767 by {
                self.area.sprite.frames()[k].lemma_inv_bounds();
            }
        }
        let area = &mut self.area;
        let sprite = &mut area.sprite;
        sprite.rotate_90();
        proof {
            pre.spec_area().sprite.lemma_frames_inv();
            assert(Self::frames_ok(self.area.sprite)) by {
                let fr = self.area.sprite.frames();
                let prefr = pre.spec_area().sprite.frames();
                assert forall|k: int|
                    0 <= k < fr.len() implies (#[trigger] fr[k]).bound().0 <= i16::MAX as int - 1
                    && fr[k].bound().1 <= i16::MAX as int - 1 by {
                    let my = prefr[k].bound().1;
                    prefr[k].lemma_inv_bounds();
                    let bnew = fr[k].bound();
                    assert(fr[k].dots() == rot_set(prefr[k].dots(), my));
                    assert(tight_bound(fr[k].dots(), bnew));
                    if bnew.0 != 0 {
                        let wd = choose|d: (int, int)|
                            #[trigger] fr[k].dots().contains(d) && d.0 == bnew.0;
                        assert(prefr[k].dots().contains((wd.1, my - wd.0)));
                        assert(bnew.0 <= my);
                    }
                    if bnew.1 != 0 {
                        let wd = choose|d: (int, int)|
                            #[trigger] fr[k].dots().contains(d) && d.1 == bnew.1;
                        assert(prefr[k].dots().contains((wd.1, my - wd.0)));
                        assert(bnew.1 <= prefr[k].bound().0);
                    }
                }
                assert forall|k: int, d: (int, int)|
                    0 <= k < fr.len() && #[trigger] fr[k].dots().contains(d) implies 0 <= d.0 && 0
                    <= d.1 by {
                    let my = prefr[k].bound().1;
                    prefr[k].lemma_inv_bounds();
                    assert(fr[k].dots() == rot_set(prefr[k].dots(), my));
                    assert(prefr[k].dots().contains((d.1, my - d.0)));
                }
            }
        }
        let ghost preb = self.border;
        proof {
            assert forall|d: (int, int)| #[trigger] self.border.dots().contains(d) implies
                self.border.bound().1 - d.1 <= 32767 by {
                self.border.lemma_inv_bounds();
            }
        }
        self.border.rotate_90();
        proof {
            preb.lemma_inv_bounds();
            assert(Self::border_ok(self.border)) by {
                let my = preb.bound().1;
                let bnew = self.border.bound();
                assert(self.border.dots() == rot_set(preb.dots(), my));
                assert(tight_bound(self.border.dots(), bnew));
                if bnew.0 != 0 {
                    let wd = choose|d: (int, int)|
                        #[trigger] self.border.dots().contains(d) && d.0 == bnew.0;
                    assert(preb.dots().contains((wd.1, my - wd.0)));
                    assert(bnew.0 <= my);
                }
                if bnew.1 != 0 {
                    let wd = choose|d: (int, int)|
                        #[trigger] self.border.dots().contains(d) && d.1 == bnew.1;
                    assert(preb.dots().contains((wd.1, my - wd.0)));
                    assert(bnew.1 <= preb.bound().0);
                }
                assert forall|d: (int, int)| #[trigger] self.border.dots().contains(d) implies 0
                    <= d.0 && 0 <= d.1 by {
                    assert(preb.dots().contains((d.1, my - d.0)));
                }
            }
        }
        self.direction = self.direction.next_clockwise();
        proof {
            assert forall|k: int|
                0 <= k < self.spec_shots().len() implies (#[trigger] self.spec_shots()[k]).inv()
                by {
                assert(self.spec_shots()[k] == old(self).spec_shots()[k]);
            }
            assert(self.spec_shots() =~= old(self).spec_shots());
        }
    }

    /// The current frame's extent, as the invariant bounds it.
    proof fn cur_frame_bounds(&self)
        requires
            self.inv(),
        ensures
            self.spec_area().area_width() <= i16::MAX as int,
            self.spec_area().area_height() <= i16::MAX as int,
            1 <= self.spec_area().area_width(),
            1 <= self.spec_area().area_height(),
    {
        self.spec_area().sprite.ps_props();
        self.spec_area().sprite.lemma_frames_inv();
        let fr = self.spec_area().sprite.frames();
        if fr.len() > 0 {
            let cur = self.spec_area().sprite.cur_id();
            assert(fr[cur].bound().0 <= i16::MAX as int - 1 && fr[cur].bound().1
                <= i16::MAX as int - 1);
        }
    }

    /// The invariant survives any change that keeps the frames, the
    /// border and the shots.
    proof fn lemma_inv_kept(pre: Tank, post: Tank)
        requires
            pre.inv(),
            post.spec_area().sprite.inv(),
            post.spec_area().sprite.frames() == pre.spec_area().sprite.frames(),
            post.spec_border() == pre.spec_border(),
            post.spec_shots() == pre.spec_shots(),
        ensures
            post.inv(),
    {
        let fr = post.spec_area().sprite.frames();
        assert forall|k: int|
            0 <= k < fr.len() implies (#[trigger] fr[k]).bound().0 <= i16::MAX as int - 1
            && fr[k].bound().1 <= i16::MAX as int - 1 by {
            assert(fr[k] == pre.spec_area().sprite.frames()[k]);
        }
        assert forall|k: int, d: (int, int)|
            0 <= k < fr.len() && #[trigger] fr[k].dots().contains(d) implies 0 <= d.0 && 0
            <= d.1 by {
            assert(fr[k] == pre.spec_area().sprite.frames()[k]);
        }
        assert forall|k: int|
            0 <= k < post.spec_shots().len() implies (#[trigger] post.spec_shots()[k]).inv() by {
            assert(post.spec_shots()[k] == pre.spec_shots()[k]);
        }
    }

    /// Whether one step along `dir` stays inside the coordinate type.
    pub open spec fn can_step(&self, dir: Direction) -> bool {
        match dir {
            Direction::Up => self.tank_pos().1 > i16::MIN as int,
            Direction::Right => self.tank_pos().0 < i16::MAX as int,
            Direction::Down => self.tank_pos().1 < i16::MAX as int,
            Direction::Left => self.tank_pos().0 > i16::MIN as int,
        }
    }

    /// Whether one step backward stays inside the coordinate type.
    pub open spec fn can_step_back(&self) -> bool {
        match self.spec_direction() {
            Direction::Up => self.tank_pos().1 < i16::MAX as int,
            Direction::Right => self.tank_pos().0 > i16::MIN as int,
            Direction::Down => self.tank_pos().1 > i16::MIN as int,
            Direction::Left => self.tank_pos().0 < i16::MAX as int,
        }
    }

    /// Face `dir`, turning clockwise as often as needed; only when already
    /// facing it, roll one step ahead and advance the gait.
    fn goto(&mut self, dir: Direction)
        requires
            old(self).inv(),
            old(self).spec_direction() == dir ==> old(self).can_step(dir),
        ensures
            final(self).inv(),
            final(self).spec_direction() == dir,
            final(self).spec_shots() == old(self).spec_shots(),
            final(self).spec_recharge() == old(self).spec_recharge(),
            old(self).spec_direction() != dir ==> final(self).tank_pos() == old(self).tank_pos(),
            old(self).spec_direction() == dir ==> final(self).tank_pos() == (match dir {
                Direction::Up => (old(self).tank_pos().0, old(self).tank_pos().1 - 1),
                Direction::Right => (old(self).tank_pos().0 + 1, old(self).tank_pos().1),
                Direction::Down => (old(self).tank_pos().0, old(self).tank_pos().1 + 1),
                Direction::Left => (old(self).tank_pos().0 - 1, old(self).tank_pos().1),
            }),
    {
        let mut turned = false;
        while self.direction != dir
            invariant
                self.inv(),
                self.spec_shots() == old(self).spec_shots(),
                self.spec_recharge() == old(self).spec_recharge(),
                self.tank_pos() == old(self).tank_pos(),
                old(self).spec_direction() == dir ==> old(self).can_step(dir),
                !turned ==> self.spec_direction() == old(self).spec_direction(),
                turned ==> old(self).spec_direction() != dir,
            decreases self.spec_direction().spec_turns_to(dir),
        {
            turned = true;
            self.rotate_90();
        }
        if !turned {
            let ghost pre = *self;
            let pos = self.area.get_pos();
            let fixed_pos = dir.go_forward(pos);
            self.area.move_to(fixed_pos.x, fixed_pos.y);
            proof {
                Self::lemma_inv_kept(pre, *self);
            }
            let ghost pre2 = *self;
            let area = &mut self.area;
            let sprite = &mut area.sprite;
            sprite.update_force();
            proof {
                Self::lemma_inv_kept(pre2, *self);
            }
        }
    }

    pub fn go_left(&mut self)
        requires
            old(self).inv(),
            old(self).spec_direction() == Direction::Left ==> old(self).can_step(
                Direction::Left,
            ),
        ensures
            final(self).inv(),
            final(self).spec_direction() == Direction::Left,
            final(self).spec_shots() == old(self).spec_shots(),
            old(self).spec_direction() != Direction::Left ==> final(self).tank_pos() == old(self).tank_pos(),
            old(self).spec_direction() == Direction::Left ==> final(self).tank_pos()
                == (old(self).tank_pos().0 - 1, old(self).tank_pos().1),
    {
        self.goto(Direction::Left);
    }

    pub fn go_right(&mut self)
        requires
            old(self).inv(),
            old(self).spec_direction() == Direction::Right ==> old(self).can_step(
                Direction::Right,
            ),
        ensures
            final(self).inv(),
            final(self).spec_direction() == Direction::Right,
            final(self).spec_shots() == old(self).spec_shots(),
            old(self).spec_direction() != Direction::Right ==> final(self).tank_pos() == old(self).tank_pos(),
            old(self).spec_direction() == Direction::Right ==> final(self).tank_pos()
                == (old(self).tank_pos().0 + 1, old(self).tank_pos().1),
    {
        self.goto(Direction::Right);
    }

    pub fn go_up(&mut self)
        requires
            old(self).inv(),
            old(self).spec_direction() == Direction::Up ==> old(self).can_step(Direction::Up),
        ensures
            final(self).inv(),
            final(self).spec_direction() == Direction::Up,
            final(self).spec_shots() == old(self).spec_shots(),
            old(self).spec_direction() != Direction::Up ==> final(self).tank_pos() == old(self).tank_pos(),
            old(self).spec_direction() == Direction::Up ==> final(self).tank_pos()
                == (old(self).tank_pos().0, old(self).tank_pos().1 - 1),
    {
        self.goto(Direction::Up);
    }

    pub fn go_down(&mut self)
        requires
            old(self).inv(),
            old(self).spec_direction() == Direction::Down ==> old(self).can_step(
                Direction::Down,
            ),
        ensures
            final(self).inv(),
            final(self).spec_direction() == Direction::Down,
            final(self).spec_shots() == old(self).spec_shots(),
            old(self).spec_direction() != Direction::Down ==> final(self).tank_pos() == old(self).tank_pos(),
            old(self).spec_direction() == Direction::Down ==> final(self).tank_pos()
                == (old(self).tank_pos().0, old(self).tank_pos().1 + 1),
    {
        self.goto(Direction::Down);
    }

    /// One step against the heading, used to undo a blocked move.
    fn go_back(&mut self)
        requires
            old(self).inv(),
            old(self).can_step_back(),
        ensures
            final(self).inv(),
            final(self).spec_direction() == old(self).spec_direction(),
            final(self).spec_shots() == old(self).spec_shots(),
            final(self).spec_recharge() == old(self).spec_recharge(),
            final(self).spec_area().sprite == old(self).spec_area().sprite,
            final(self).spec_border() == old(self).spec_border(),
            (match old(self).spec_direction() {
                Direction::Up => final(self).tank_pos() == (
                    old(self).tank_pos().0,
                    old(self).tank_pos().1 + 1,
                ),
                Direction::Right => final(self).tank_pos() == (
                    old(self).tank_pos().0 - 1,
                    old(self).tank_pos().1,
                ),
                Direction::Down => final(self).tank_pos() == (
                    old(self).tank_pos().0,
                    old(self).tank_pos().1 - 1,
                ),
                Direction::Left => final(self).tank_pos() == (
                    old(self).tank_pos().0 + 1,
                    old(self).tank_pos().1,
                ),
            }),
    {
        let ghost pre = *self;
        let pos = self.area.get_pos();
        let fixed_pos = self.direction.go_back(pos);
        self.area.move_to(fixed_pos.x, fixed_pos.y);
        proof {
            Self::lemma_inv_kept(pre, *self);
        }
    }

    /// The dot just ahead of the tank's muzzle.
    pub fn get_front_center(&self) -> (r: Point)
        requires
            self.inv(),
            self.tank_pos().0 + self.spec_area().area_width() / 2 <= i16::MAX as int,
            self.tank_pos().1 + self.spec_area().area_height() / 2 <= i16::MAX as int,
        ensures
            (match self.spec_direction() {
                Direction::Up => r.x as int == self.tank_pos().0 + self.spec_area().area_width()
                    / 2 && r.y as int == self.tank_pos().1,
                Direction::Right => r.x as int == self.tank_pos().0
                    + self.spec_area().area_width() / 2 && r.y as int == self.tank_pos().1
                    + self.spec_area().area_height() / 2,
                Direction::Down => r.x as int == self.tank_pos().0
                    + self.spec_area().area_width() / 2 && r.y as int == self.tank_pos().1
                    + self.spec_area().area_height() / 2,
                Direction::Left => r.x as int == self.tank_pos().0 && r.y as int
                    == self.tank_pos().1 + self.spec_area().area_height() / 2,
            }),
    {
        proof {
            self.cur_frame_bounds();
        }
        let pos = self.area.get_pos();
        let sx = self.area.get_width() / 2;
        let sy = self.area.get_height() / 2;
        match self.direction {
            Direction::Up => Point { x: sx + pos.x, y: pos.y },
            Direction::Right => Point { x: sx + pos.x, y: sy + pos.y },
            Direction::Down => Point { x: sx + pos.x, y: sy + pos.y },
            Direction::Left => Point { x: pos.x, y: sy + pos.y },
        }
    }

    /// Fire a shot from the muzzle, if the recharge timer allows it.
    pub fn shoot(&mut self)
        requires
            old(self).inv(),
            old(self).tank_pos().0 + old(self).spec_area().area_width() / 2 <= i16::MAX as int,
            old(self).tank_pos().1 + old(self).spec_area().area_height() / 2 <= i16::MAX as int,
        ensures
            final(self).inv(),
            final(self).spec_direction() == old(self).spec_direction(),
            final(self).tank_pos() == old(self).tank_pos(),
            old(self).spec_recharge().spec_ready() ==> final(self).spec_shots().len() == old(self).spec_shots().len() + 1,
            !old(self).spec_recharge().spec_ready() ==> *final(self) == *old(self),
    {
        if self.recharge_delay.ready() {
            let ghost pre = *self;
            let center = self.get_front_center();
            let shot = Shot::new(center.x, center.y, self.direction);
            self.shots.push(shot);
            self.recharge_delay.reset();
            proof {
                assert forall|k: int|
                    0 <= k < self.spec_shots().len() implies (
                #[trigger] self.spec_shots()[k]).inv() by {
                    if k < pre.spec_shots().len() {
                        assert(self.spec_shots()[k] == pre.spec_shots()[k]);
                    } else {
                        assert(self.spec_shots()[k] == shot);
                    }
                }
            }
        }
    }

    /// Whether the oldest shot may be told to explode where it is.
    pub open spec fn first_shot_explode_fit(&self) -> bool {
        self.spec_shots().len() > 0 ==> {
            let sh = self.spec_shots()[0];
            !sh.spec_exploding() ==> {
                &&& sh.shot_pos().0 + sh.spec_area().area_width() / 2 <= i16::MAX as int - 102
                &&& sh.shot_pos().1 + sh.spec_area().area_height() / 2 <= i16::MAX as int - 102
                &&& sh.shot_pos().0 >= i16::MIN as int + 102
                &&& sh.shot_pos().1 >= i16::MIN as int + 102
            }
        }
    }

    /// Blow up the oldest shot in flight, if any.
    pub fn explode(&mut self)
        requires
            old(self).inv(),
            old(self).first_shot_explode_fit(),
        ensures
            final(self).inv(),
            final(self).spec_direction() == old(self).spec_direction(),
            final(self).tank_pos() == old(self).tank_pos(),
            final(self).spec_shots().len() == old(self).spec_shots().len(),
    {
        if !self.shots.is_empty() {
            let ghost pre = *self;
            let sh = vstd::std_specs::vec::vec_index_mut(&mut self.shots, 0);
            proof {
                assert(pre.spec_shots()[0].inv());
            }
            sh.explode();
            proof {
                assert forall|k: int|
                    0 <= k < self.spec_shots().len() implies (
                #[trigger] self.spec_shots()[k]).inv() by {
                    if k != 0 {
                        assert(self.spec_shots()[k] == pre.spec_shots()[k]);
                    }
                }
            }
        }
    }

    /// Whether every shot in flight may take its next update step.
    pub open spec fn shots_upd_ok(&self) -> bool {
        forall|k: int|
            0 <= k < self.spec_shots().len() ==> {
                let sh = #[trigger] self.spec_shots()[k];
                !sh.spec_exploding() ==> sh.can_step()
            }
    }

    /// Advance the gait, every shot and the recharge timer, and drop the
    /// shots whose explosions have finished.
    pub fn update(&mut self, delta: u64)
        requires
            old(self).inv(),
            old(self).shots_upd_ok(),
        ensures
            final(self).inv(),
            final(self).spec_direction() == old(self).spec_direction(),
            final(self).tank_pos() == old(self).tank_pos(),
            final(self).spec_border() == old(self).spec_border(),
            final(self).spec_area().sprite.frames() == old(self).spec_area().sprite.frames(),
            final(self).spec_shots().len() <= old(self).spec_shots().len(),
            forall|k: int|
                0 <= k < final(self).spec_shots().len() ==> !((#[trigger] final(self).spec_shots()[k]).spec_exploding()
                    && final(self).spec_shots()[k].spec_delay().spec_ready()),
            final(self).spec_recharge().spec_duration() == old(self).spec_recharge().spec_duration(),
            old(self).spec_recharge().spec_ready() ==> final(self).spec_recharge() == old(self).spec_recharge(),
            !old(self).spec_recharge().spec_ready() && delta > old(self).spec_recharge().spec_time_left() ==> final(self).spec_recharge().spec_ready(),
            !old(self).spec_recharge().spec_ready() && delta <= old(self).spec_recharge().spec_time_left() ==> final(self).spec_recharge().spec_time_left()
                == old(self).spec_recharge().spec_time_left() - delta && !final(self).spec_recharge().spec_ready(),
    {
        let ghost pre = *self;
        let area = &mut self.area;
        let sprite = &mut area.sprite;
        sprite.update(delta);
        proof {
            Self::lemma_inv_kept(pre, *self);
        }
        let mut flying: Vec<Shot> = Vec::new();
        core::mem::swap(&mut flying, &mut self.shots);
        let n = flying.len();
        let mut i: usize = 0;
        proof {
            assert(self.spec_shots() =~= Seq::<Shot>::empty());
        }
        while i < n
            invariant
                self.spec_area().sprite.inv(),
                Self::frames_ok(self.spec_area().sprite),
                Self::border_ok(self.spec_border()),
                n == flying@.len(),
                n == pre.spec_shots().len(),
                i <= n,
                pre.inv(),
                pre.shots_upd_ok(),
                forall|k: int| i <= k < n ==> #[trigger] flying@[k] == pre.spec_shots()[k],
                self.spec_shots().len() <= i,
                forall|k: int|
                    0 <= k < self.spec_shots().len() ==> (#[trigger] self.spec_shots()[k]).inv(),
                forall|k: int|
                    0 <= k < self.spec_shots().len() ==> !((#[trigger] self.spec_shots()[k]).spec_exploding()
                        && self.spec_shots()[k].spec_delay().spec_ready()),
                self.spec_direction() == pre.spec_direction(),
                self.tank_pos() == pre.tank_pos(),
                self.spec_border() == pre.spec_border(),
                self.spec_area().sprite.frames() == pre.spec_area().sprite.frames(),
                self.spec_recharge() == pre.spec_recharge(),
            decreases n - i,
        {
            proof {
                assert(flying@[i as int] == pre.spec_shots()[i as int]);
                assert(pre.spec_shots()[i as int].inv());
            }
            let sh = vstd::std_specs::vec::vec_index_mut(&mut flying, i);
            sh.update(delta);
            let done = sh.is_done();
            if !done {
                let mut taken = Shot::new(0, 0, Direction::Up);
                core::mem::swap(&mut taken, sh);
                let ghost pre_shots = self.spec_shots();
                self.shots.push(taken);
                proof {
                    assert(self.spec_shots() =~= pre_shots.push(taken));
                }
            }
            i = i + 1;
        }
        self.recharge_delay.update(delta);
    }

    /// Whether every shot still in flight leaves room for overlap tests
    /// and for an explosion where it currently flies; exploding shots are
    /// kept in range by their own invariant.
    pub open spec fn shots_collide_ok(&self) -> bool {
        forall|k: int|
            0 <= k < self.spec_shots().len() ==> {
                let sh = #[trigger] self.spec_shots()[k];
                !sh.spec_exploding() ==> {
                    &&& sh.shot_pos().0 + sh.spec_area().area_width() <= i16::MAX as int
                    &&& sh.shot_pos().1 + sh.spec_area().area_height() <= i16::MAX as int
                    &&& sh.shot_pos().0 + sh.spec_area().area_width() / 2 <= i16::MAX as int - 102
                    &&& sh.shot_pos().1 + sh.spec_area().area_height() / 2 <= i16::MAX as int
                        - 102
                    &&& sh.shot_pos().0 >= i16::MIN as int + 102
                    &&& sh.shot_pos().1 >= i16::MIN as int + 102
                }
            }
    }

    /// Let every shot hit one obstacle: a shot overlapping anything not
    /// see-through explodes, and a non-solid obstacle loses the dots a
    /// shot touched.
    fn check_shots_obstacle(&mut self, o: &mut Obstacle)
        requires
            old(self).inv(),
            old(self).shots_collide_ok(),
            old(o).inv(),
        ensures
            final(self).inv(),
            final(o).inv(),
            final(self).spec_direction() == old(self).spec_direction(),
            final(self).tank_pos() == old(self).tank_pos(),
            final(self).spec_border() == old(self).spec_border(),
            final(self).spec_area() == old(self).spec_area(),
            final(self).spec_recharge() == old(self).spec_recharge(),
            final(self).spec_shots().len() == old(self).spec_shots().len(),
            final(self).shots_collide_ok(),
            final(o).obs_pos() == old(o).obs_pos(),
            final(o).spec_transparent() == old(o).spec_transparent(),
            final(o).spec_solid() == old(o).spec_solid(),
            final(o).spec_visible() == old(o).spec_visible(),
            final(o).spec_ground() == old(o).spec_ground(),
            final(o).spec_invisible() == old(o).spec_invisible(),
            final(o).obs_dots().subset_of(old(o).obs_dots()),
        {
        let ghost pre = *self;
        let n = self.shots.len();
        let mut i: usize = 0;
        while i < n
            invariant
                n == self.spec_shots().len(),
                n == pre.spec_shots().len(),
                i <= n,
                pre.inv(),
                pre.shots_collide_ok(),
                o.inv(),
                self.spec_area().sprite.inv(),
                Self::frames_ok(self.spec_area().sprite),
                Self::border_ok(self.spec_border()),
                forall|k: int|
                    0 <= k < self.spec_shots().len() ==> (#[trigger] self.spec_shots()[k]).inv(),
                self.shots_collide_ok(),
                forall|k: int| i <= k < n ==> #[trigger] self.spec_shots()[k] == pre.spec_shots()[k],
                self.spec_direction() == pre.spec_direction(),
                self.tank_pos() == pre.tank_pos(),
                self.spec_border() == pre.spec_border(),
                self.spec_area() == pre.spec_area(),
                self.spec_recharge() == pre.spec_recharge(),
                o.obs_pos() == old(o).obs_pos(),
                o.spec_transparent() == old(o).spec_transparent(),
                o.spec_solid() == old(o).spec_solid(),
                o.spec_visible() == old(o).spec_visible(),
                o.spec_ground() == old(o).spec_ground(),
                o.spec_invisible() == old(o).spec_invisible(),
                o.obs_dots().subset_of(old(o).obs_dots()),
            decreases n - i,
        {
            proof {
                assert(self.spec_shots()[i as int].inv());
                self.spec_shots()[i as int].go_props();
                o.go_props();
                self.spec_shots()[i as int].cur_frame_bounds();
                if self.spec_shots()[i as int].spec_exploding() {
                    self.spec_shots()[i as int].exploded_rect_fit();
                }
            }
            let bullet_overlap = overlap_of(&self.shots[i], &*o);
            let transparent = o.is_transparent();
            if !transparent {
                if bullet_overlap.len() > 0 {
                    let ghost iter_pre = self.spec_shots();
                    let sh = vstd::std_specs::vec::vec_index_mut(&mut self.shots, i);
                    sh.explode();
                    proof {
                        assert forall|k: int|
                            0 <= k < self.spec_shots().len() implies (
                        #[trigger] self.spec_shots()[k]).inv() by {
                            if k != i as int {
                                assert(self.spec_shots()[k] == iter_pre[k]);
                            }
                        }
                        assert forall|k: int|
                            0 <= k < self.spec_shots().len() implies {
                            let shk = #[trigger] self.spec_shots()[k];
                            !shk.spec_exploding() ==> {
                                &&& shk.shot_pos().0 + shk.spec_area().area_width()
                                    <= i16::MAX as int
                                &&& shk.shot_pos().1 + shk.spec_area().area_height()
                                    <= i16::MAX as int
                                &&& shk.shot_pos().0 + shk.spec_area().area_width() / 2
                                    <= i16::MAX as int - 102
                                &&& shk.shot_pos().1 + shk.spec_area().area_height() / 2
                                    <= i16::MAX as int - 102
                                &&& shk.shot_pos().0 >= i16::MIN as int + 102
                                &&& shk.shot_pos().1 >= i16::MIN as int + 102
                            }
                        } by {
                            if k != i as int {
                                assert(self.spec_shots()[k] == iter_pre[k]);
                            }
                        }
                    }
                }
                let solid = o.is_solid();
                if !solid {
                    let m = bullet_overlap.len();
                    let mut j: usize = 0;
                    while j < m
                        invariant
                            m == bullet_overlap@.len(),
                            j <= m,
                            o.inv(),
                            o.obs_pos() == old(o).obs_pos(),
                            o.spec_transparent() == old(o).spec_transparent(),
                            o.spec_solid() == old(o).spec_solid(),
                            o.spec_visible() == old(o).spec_visible(),
                            o.spec_ground() == old(o).spec_ground(),
                            o.spec_invisible() == old(o).spec_invisible(),
                            o.obs_dots().subset_of(old(o).obs_dots()),
                        decreases m - j,
                    {
                        let ghost before_clean = o.obs_dots();
                        let v = bullet_overlap[j];
                        o.clean(&v.1);
                        proof {
                            assert forall|d: (int, int)| #[trigger] o.obs_dots().contains(d)
                                implies old(o).obs_dots().contains(d) by {
                                assert(before_clean.contains(d));
                            }
                        }
                        j = j + 1;
                    }
                }
            }
            i = i + 1;
        }
    }

    /// Resolve the tank and its shots against every obstacle: a blocked
    /// move is undone, ground cover hides the touched dots for one frame,
    /// and shots erode or explode.
    pub fn check_obstacles(&mut self, obstacles: &mut Obstacles)
        requires
            old(self).inv(),
            old(self).shots_collide_ok(),
            old(obstacles).inv(),
            old(self).tank_pos().0 + old(self).spec_area().area_width() + old(
                obstacles,
            ).seq().len() <= i16::MAX as int,
            old(self).tank_pos().1 + old(self).spec_area().area_height() + old(
                obstacles,
            ).seq().len() <= i16::MAX as int,
            old(self).tank_pos().0 - old(obstacles).seq().len() >= i16::MIN as int,
            old(self).tank_pos().1 - old(obstacles).seq().len() >= i16::MIN as int,
        ensures
            final(self).inv(),
            final(obstacles).inv(),
            final(self).spec_direction() == old(self).spec_direction(),
            final(self).spec_border() == old(self).spec_border(),
            final(self).spec_shots().len() == old(self).spec_shots().len(),
            final(obstacles).seq().len() == old(obstacles).seq().len(),
            all_kept_in_place(old(obstacles).seq(), final(obstacles).seq()),
    {
        let ghost pre = *self;
        let ghost preo = *obstacles;
        let obs_vec = obstacles.get_all_mut();
        let n = obs_vec.len();
        let mut idx: usize = 0;
        while idx < n
            invariant
                n == obs_vec@.len(),
                n == preo.seq().len(),
                idx <= n,
                pre.inv(),
                self.inv(),
                self.shots_collide_ok(),
                forall|k: int| 0 <= k < n ==> (#[trigger] obs_vec@[k]).inv(),
                all_kept_in_place(preo.seq(), obs_vec@),
                self.spec_direction() == pre.spec_direction(),
                self.spec_border() == pre.spec_border(),
                self.spec_area().sprite == pre.spec_area().sprite,
                self.spec_shots().len() == pre.spec_shots().len(),
                pre.tank_pos().0 - idx <= self.tank_pos().0 <= pre.tank_pos().0 + idx,
                pre.tank_pos().1 - idx <= self.tank_pos().1 <= pre.tank_pos().1 + idx,
                pre.tank_pos().0 + pre.spec_area().area_width() + n <= i16::MAX as int,
                pre.tank_pos().1 + pre.spec_area().area_height() + n <= i16::MAX as int,
                pre.tank_pos().0 - n >= i16::MIN as int,
                pre.tank_pos().1 - n >= i16::MIN as int,
            decreases n - idx,
        {
            proof {
                self.go_props();
                self.cur_frame_bounds();
                assert(self.spec_area().area_width() == pre.spec_area().area_width());
                assert(self.spec_area().area_height() == pre.spec_area().area_height());
            }
            let ghost entry_vec = obs_vec@;
            let o = vstd::std_specs::vec::vec_index_mut(obs_vec, idx);
            let ghost o_entry = *o;
            proof {
                o.go_props();
            }
            let tank_overlap = overlap_of(&*self, &*o);
            if tank_overlap.len() > 0 {
                let transparent = o.is_transparent();
                if !transparent {
                    self.go_back();
                } else {
                    let ground = o.is_ground();
                    if ground {
                        let m = tank_overlap.len();
                        let mut ds = DotSet::new();
                        let mut j: usize = 0;
                        while j < m
                            invariant
                                m == tank_overlap@.len(),
                                j <= m,
                                ds.inv(),
                            decreases m - j,
                        {
                            let v = tank_overlap[j];
                            ds.insert(v.1);
                            j = j + 1;
                        }
                        o.set_invisivle_dots(ds);
                    }
                }
            }
            let ghost o_mid = *o;
            self.check_shots_obstacle(o);
            let ghost o_done = *o;
            proof {
                assert(kept_in_place(o_entry, o_mid));
                assert(kept_in_place(o_mid, o_done));
                assert forall|d: (int, int)| #[trigger] o_done.obs_dots().contains(d) implies
                    o_entry.obs_dots().contains(d) by {
                    assert(o_mid.obs_dots().contains(d));
                }
                assert(kept_in_place(o_entry, o_done));
            }
            proof {
                assert(obs_vec@ =~= entry_vec.update(idx as int, o_done));
                assert forall|k: int|
                    #![trigger obs_vec@[k]]
                    0 <= k < obs_vec@.len() implies kept_in_place(preo.seq()[k], obs_vec@[k]) by {
                    if k != idx as int {
                        assert(obs_vec@[k] == entry_vec[k]);
                        assert(kept_in_place(preo.seq()[k], entry_vec[k]));
                    } else {
                        assert(o_entry == entry_vec[k]);
                        assert(kept_in_place(preo.seq()[k], entry_vec[k]));
                        assert forall|d: (int, int)| #[trigger] obs_vec@[k].obs_dots().contains(
                            d,
                        ) implies preo.seq()[k].obs_dots().contains(d) by {
                            assert(o_entry.obs_dots().contains(d));
                        }
                    }
                }
            }
            idx = idx + 1;
        }
    }

    /// The overlap of the tank's border with another entity.
    pub fn get_overlap<O: GameObject>(&self, other: &O) -> (res: Vec<(Point, Point)>)
        requires
            self.inv(),
            other.go_inv(),
            self.tank_pos().0 + self.spec_area().area_width() <= i16::MAX as int,
            self.tank_pos().1 + self.spec_area().area_height() <= i16::MAX as int,
            other.go_size().0 <= i16::MAX as int,
            other.go_size().1 <= i16::MAX as int,
            other.go_pos().0 + other.go_size().0 <= i16::MAX as int,
            other.go_pos().1 + other.go_size().1 <= i16::MAX as int,
        ensures
            other.go_has_set() ==> crate::game_object::pairs_view(res@).to_set()
                == crate::game_object::overlap_pairs(
                crate::game_object::go_rect(*self),
                self.go_dots(),
                crate::game_object::go_rect(*other),
                other.go_dots(),
            ) && crate::game_object::pairs_view(res@).no_duplicates(),
            !other.go_has_set() ==> res@ == Seq::<(Point, Point)>::empty(),
    {
        proof {
            self.cur_frame_bounds();
        }
        overlap_of(self, other)
    }
}

impl GameObject for Tank {
    /// Collision uses the tank's solid border, not the gait frame.
    open spec fn go_dots(&self) -> Set<(int, int)> {
        self.spec_border().dots()
    }

    open spec fn go_has_set(&self) -> bool {
        true
    }

    open spec fn go_pos(&self) -> (int, int) {
        self.tank_pos()
    }

    open spec fn go_size(&self) -> (int, int) {
        (self.spec_area().area_width(), self.spec_area().area_height())
    }

    open spec fn go_inv(&self) -> bool {
        self.inv()
    }

    proof fn go_props(&self) {
        self.spec_area().sprite.ps_props();
    }

    fn get_point_set(&self) -> (r: Option<&DotSet>) {
        self.border.get_point_set()
    }

    fn get_position(&self) -> (r: Point) {
        self.area.get_pos()
    }

    fn get_width(&self) -> (r: IndexType) {
        proof {
            self.cur_frame_bounds();
        }
        self.area.get_width()
    }

    fn get_height(&self) -> (r: IndexType) {
        proof {
            self.cur_frame_bounds();
        }
        self.area.get_height()
    }

    fn get_rect(&self) -> (r: (Point, Point)) {
        proof {
            self.cur_frame_bounds();
        }
        let pos = self.area.get_pos();
        let w = self.area.get_width();
        let h = self.area.get_height();
        (pos, Point { x: pos.x + w, y: pos.y + h })
    }
}

/// The surface contents after drawing a list of shots in order: each
/// shot's current frame lands at its position, clipped to the covered
/// extent.
pub open spec fn shots_drawn(
    dots: Set<(int, int)>,
    cov: Set<(int, int)>,
    s: Seq<Shot>,
) -> Set<(int, int)>
    decreases s.len(),
{
    if s.len() == 0 {
        dots
    } else {
        shots_drawn(dots, cov, s.drop_last()).union(
            crate::sprite::shift_dots(
                s.last().spec_area().sprite.ps_dots(),
                s.last().shot_pos().0,
                s.last().shot_pos().1,
            ).intersect(cov),
        )
    }
}

impl Tank {
    /// Whether the tank's frame and every shot can be projected.
    pub open spec fn draw_fits(&self) -> bool {
        &&& forall|d: (int, int)|
            #[trigger] self.spec_area().sprite.ps_dots().contains(d) ==> i16::MIN as int
                <= self.tank_pos().0 + d.0 <= i16::MAX as int && i16::MIN as int
                <= self.tank_pos().1 + d.1 <= i16::MAX as int
        &&& forall|k: int, d: (int, int)|
            0 <= k < self.spec_shots().len()
                && #[trigger] self.spec_shots()[k].spec_area().sprite.ps_dots().contains(d)
                ==> i16::MIN as int <= self.spec_shots()[k].shot_pos().0 + d.0 <= i16::MAX as int
                && i16::MIN as int <= self.spec_shots()[k].shot_pos().1 + d.1 <= i16::MAX as int
    }

    /// Project the tank's current gait frame and every shot onto a
    /// surface.
    pub fn draw<C: Canvas>(&self, canvas: &mut C)
        requires
            self.inv(),
            old(canvas).inv(),
            self.draw_fits(),
        ensures
            final(canvas).inv(),
            final(canvas).dots() == shots_drawn(
                old(canvas).dots().union(
                    crate::sprite::shift_dots(
                        self.spec_area().sprite.ps_dots(),
                        self.tank_pos().0,
                        self.tank_pos().1,
                    ).intersect(crate::canvas::covered_set(*old(canvas))),
                ),
                crate::canvas::covered_set(*old(canvas)),
                self.spec_shots(),
            ),
            forall|a: int, b: int| final(canvas).covers(a, b) == old(canvas).covers(a, b),
    {
        let ghost start = *canvas;
        let ghost cov = crate::canvas::covered_set(start);
        self.area.draw_to_canvas(canvas);
        let ghost base = canvas.dots();
        proof {
            assert(base =~= start.dots().union(
                crate::sprite::shift_dots(
                    self.spec_area().sprite.ps_dots(),
                    self.tank_pos().0,
                    self.tank_pos().1,
                ).intersect(cov),
            ));
        }
        let n = self.shots.len();
        let mut i: usize = 0;
        proof {
            assert(self.spec_shots().take(0) =~= Seq::<Shot>::empty());
            assert(canvas.dots() == shots_drawn(base, cov, self.spec_shots().take(0)));
        }
        while i < n
            invariant
                self.inv(),
                self.draw_fits(),
                canvas.inv(),
                cov == crate::canvas::covered_set(start),
                n == self.spec_shots().len(),
                i <= n,
                forall|a: int, b: int| canvas.covers(a, b) == start.covers(a, b),
                canvas.dots() == shots_drawn(base, cov, self.spec_shots().take(i as int)),
            decreases n - i,
        {
            proof {
                assert(self.spec_shots()[i as int].inv());
                assert(crate::canvas::covered_set(*canvas) =~= cov);
                assert forall|d: (int, int)|
                    #[trigger] self.spec_shots()[i as int].spec_area().sprite.ps_dots().contains(
                        d,
                    ) implies i16::MIN as int <= self.spec_shots()[i as int].shot_pos().0 + d.0
                    <= i16::MAX as int && i16::MIN as int <= self.spec_shots()[i as int].shot_pos().1
                    + d.1 <= i16::MAX as int by {}
            }
            let sh = &self.shots[i];
            sh.draw(canvas);
            proof {
                let pre = self.spec_shots().take(i as int);
                let post = self.spec_shots().take(i as int + 1);
                assert(post.drop_last() =~= pre);
                assert(post.last() == self.spec_shots()[i as int]);
                assert(canvas.dots() =~= shots_drawn(base, cov, post));
            }
            i = i + 1;
        }
        proof {
            assert(self.spec_shots().take(n as int) =~= self.spec_shots());
        }
    }
}

} // verus!
