use vstd::prelude::*;

use crate::canvas::{art_dots, art_frames, art_rest, draw_from_string, with_drawn, Canvas};
use crate::point_set::{DotSet, PointSet};
use crate::position::{imax, IndexType, Point};
use crate::sprite::{lemma_extended_stays_tight, rot_set, shift_dots, tight_bound, Sprite};
use crate::timer::{Timer, DURATION_MAX_MILLIS};

verus! {

/// Whether a countdown that is fed `delta` more milliseconds runs out.
pub open spec fn timer_runs_out(t: Timer, delta: u64) -> bool {
    t.spec_ready() || delta > t.spec_time_left()
}

/// An ordered, timer-gated cycle of point-set frames.  A static sequence
/// never advances, a one-shot sequence advances to its last frame and then
/// holds, and a looped sequence wraps around forever.
pub struct Animated {
    sprites: Vec<Sprite>,
    max_pos: Point,
    id: usize,
    delay: Timer,
    looped: bool,
}

impl Animated {
    /// The frames, in order.
    pub closed spec fn frames(&self) -> Seq<Sprite> {
        self.sprites@
    }

    /// The dots of each frame, in order.
    pub open spec fn frames_dots(&self) -> Seq<Set<(int, int)>> {
        self.frames().map_values(|sp: Sprite| sp.dots())
    }

    /// The index of the current frame.
    pub closed spec fn cur_id(&self) -> int {
        self.id as int
    }

    /// The switch-interval countdown.
    pub closed spec fn delay(&self) -> Timer {
        self.delay
    }

    /// Whether the sequence wraps around instead of holding its last frame.
    pub closed spec fn spec_looped(&self) -> bool {
        self.looped
    }

    /// The running maximum over the bounding corners of all added frames.
    pub closed spec fn spec_max_pos(&self) -> (int, int) {
        (self.max_pos.x as int, self.max_pos.y as int)
    }

    /// A static sequence is one whose switch interval is infinite.
    pub open spec fn spec_static(&self) -> bool {
        self.delay().spec_duration() == DURATION_MAX_MILLIS
    }

    /// Whether the current frame is the last one (or there is none).
    pub open spec fn spec_end(&self) -> bool {
        self.frames().len() == 0 || self.cur_id() == self.frames().len() - 1
    }

    /// Done means: not looped, on the last frame, and the timer has run out.
    pub open spec fn spec_is_done(&self) -> bool {
        !self.spec_looped() && self.spec_end() && self.delay().spec_ready()
    }

    /// Well-formedness: the current index stays inside the frame list and
    /// every frame is well formed.
    pub closed spec fn inv(&self) -> bool {
        &&& (self.sprites@.len() == 0 ==> self.id == 0)
        &&& (self.sprites@.len() > 0 ==> (self.id as int) < self.sprites@.len())
        &&& forall|k: int| 0 <= k < self.sprites@.len() ==> (#[trigger] self.sprites@[k]).inv()
        &&& 0 <= self.max_pos.x
        &&& 0 <= self.max_pos.y
    }

    /// Well-formedness makes every frame well formed.
    pub proof fn lemma_frames_inv(&self)
        requires
            self.inv(),
        ensures
            forall|k: int| 0 <= k < self.frames().len() ==> (#[trigger] self.frames()[k]).inv(),
            self.frames().len() > 0 ==> 0 <= self.cur_id() < self.frames().len(),
    {
    }

    pub fn new(switch_delay: u64) -> (r: Animated)
        ensures
            r.inv(),
            r.frames() == Seq::<Sprite>::empty(),
            r.cur_id() == 0,
            r.delay().spec_duration() == switch_delay,
            r.delay().spec_time_left() == switch_delay,
            r.delay().spec_ready() == (switch_delay == 0),
            !r.spec_looped(),
            r.spec_max_pos() == (0int, 0int),
    {
        let r = Animated {
            sprites: Vec::new(),
            max_pos: Point::new(0, 0),
            id: 0,
            delay: Timer::new(switch_delay),
            looped: false,
        };
        proof {
            assert(r.frames() =~= Seq::<Sprite>::empty());
        }
        r
    }

    pub fn new_static() -> (r: Animated)
        ensures
            r.inv(),
            r.frames() == Seq::<Sprite>::empty(),
            r.cur_id() == 0,
            r.spec_static(),
            !r.delay().spec_ready(),
            !r.spec_looped(),
            r.spec_max_pos() == (0int, 0int),
    {
        let r = Animated {
            sprites: Vec::new(),
            max_pos: Point::new(0, 0),
            id: 0,
            delay: Timer::new(DURATION_MAX_MILLIS),
            looped: false,
        };
        proof {
            assert(r.frames() =~= Seq::<Sprite>::empty());
        }
        r
    }

    pub fn new_looped(switch_delay: u64) -> (r: Animated)
        ensures
            r.inv(),
            r.frames() == Seq::<Sprite>::empty(),
            r.cur_id() == 0,
            r.delay().spec_duration() == switch_delay,
            r.delay().spec_time_left() == switch_delay,
            r.delay().spec_ready() == (switch_delay == 0),
            r.spec_looped(),
            r.spec_max_pos() == (0int, 0int),
    {
        let r = Animated {
            sprites: Vec::new(),
            max_pos: Point::new(0, 0),
            id: 0,
            delay: Timer::new(switch_delay),
            looped: true,
        };
        proof {
            assert(r.frames() =~= Seq::<Sprite>::empty());
        }
        r
    }

    /// Append one frame; the cached overall corner grows to cover its corner.
    pub fn add_sprite(&mut self, sprite: Sprite)
        requires
            old(self).inv(),
            sprite.inv(),
        ensures
            final(self).inv(),
            final(self).frames() == old(self).frames().push(sprite),
            final(self).cur_id() == old(self).cur_id(),
            final(self).delay() == old(self).delay(),
            final(self).spec_looped() == old(self).spec_looped(),
            final(self).spec_max_pos() == (
                imax(old(self).spec_max_pos().0, sprite.bound().0),
                imax(old(self).spec_max_pos().1, sprite.bound().1),
            ),
    {
        let smax = sprite.get_max();
        if smax.x > self.max_pos.x {
            self.max_pos.x = smax.x;
        }
        if smax.y > self.max_pos.y {
            self.max_pos.y = smax.y;
        }
        self.sprites.push(sprite);
    }

    /// Parse a whole text-art string, one `'-'`-separated sprite per frame.
    pub fn add_from_string(&mut self, s: &str)
        requires
            old(self).inv(),
            s@.len() <= 32767,
        ensures
            final(self).inv(),
            final(self).frames_dots() == old(self).frames_dots() + art_frames(s@),
            final(self).cur_id() == old(self).cur_id(),
            final(self).delay() == old(self).delay(),
            final(self).spec_looped() == old(self).spec_looped(),
            old(self).spec_max_pos().0 <= final(self).spec_max_pos().0,
            old(self).spec_max_pos().1 <= final(self).spec_max_pos().1,
            final(self).frames().len() >= old(self).frames().len(),
            forall|k: int|
                old(self).frames().len() <= k < final(self).frames().len() ==> (#[trigger] final(self).frames()[k]).bound().0 <= s@.len() && final(self).frames()[k].bound().1
                    <= s@.len(),
            forall|k: int|
                old(self).frames().len() <= k < final(self).frames().len() ==> tight_bound(
                    (#[trigger] final(self).frames()[k]).dots(),
                    final(self).frames()[k].bound(),
                ),
            forall|k: int|
                0 <= k < old(self).frames().len() ==> #[trigger] final(self).frames()[k] == old(self).frames()[k],
    {
        let mut cur: &str = s;
        proof {
            assert(old(self).frames_dots() + art_frames(s@) =~= self.frames_dots() + art_frames(
                cur@,
            ));
        }
        while !cur.is_empty()
            invariant
                self.inv(),
                cur@.len() <= s@.len() <= 32767,
                self.frames().len() >= old(self).frames().len(),
                forall|k: int|
                    old(self).frames().len() <= k < self.frames().len() ==> (#[trigger] self.frames()[k]).bound().0
                        <= s@.len() && self.frames()[k].bound().1 <= s@.len(),
                forall|k: int|
                    old(self).frames().len() <= k < self.frames().len() ==> tight_bound(
                        (#[trigger] self.frames()[k]).dots(),
                        self.frames()[k].bound(),
                    ),
                forall|k: int|
                    0 <= k < old(self).frames().len() ==> #[trigger] self.frames()[k] == old(self).frames()[k],
                self.frames_dots() + art_frames(cur@) == old(self).frames_dots() + art_frames(
                    s@,
                ),
                self.cur_id() == old(self).cur_id(),
                self.delay() == old(self).delay(),
                self.spec_looped() == old(self).spec_looped(),
                old(self).spec_max_pos().0 <= self.spec_max_pos().0,
                old(self).spec_max_pos().1 <= self.spec_max_pos().1,
            decreases cur@.len(),
        {
            let mut next = Sprite::new();
            let ghost fresh = next;
            let ghost cur0 = cur@;
            let rest = draw_from_string(&mut next, cur);
            proof {
                assert(next.dots() =~= art_dots(cur0, 0, 0));
                lemma_extended_stays_tight(fresh, next);
            }
            let ghost pre_frames = self.frames_dots();
            proof {
                next.lemma_inv_bounds();
            }
            self.add_sprite(next);
            proof {
                assert(self.frames_dots() =~= pre_frames.push(next.dots()));
                assert(art_frames(cur0) == seq![art_dots(cur0, 0, 0)] + art_frames(art_rest(cur0)));
                assert(self.frames_dots() + art_frames(rest@) =~= pre_frames + art_frames(cur0));
            }
            cur = rest;
        }
        proof {
            assert(art_frames(cur@) =~= Seq::<Set<(int, int)>>::empty());
            assert(self.frames_dots() + art_frames(cur@) =~= self.frames_dots());
        }
    }

    /// Advance the countdown; when it runs out and the sequence is not done,
    /// step to the next frame (wrapping) and rewind the countdown.  A static
    /// or empty sequence never changes.
    pub fn update(&mut self, delta: u64)
        requires
            old(self).inv(),
        ensures
            final(self).inv(),
            final(self).frames() == old(self).frames(),
            final(self).spec_looped() == old(self).spec_looped(),
            final(self).spec_max_pos() == old(self).spec_max_pos(),
            final(self).delay().spec_duration() == old(self).delay().spec_duration(),
            (old(self).frames().len() == 0 || old(self).spec_static()) ==> *final(self) == *old(self),
            old(self).frames().len() > 0 && !old(self).spec_static() ==> {
                let out = timer_runs_out(old(self).delay(), delta);
                let advance = out && (old(self).spec_looped() || !old(self).spec_end());
                &&& advance ==> final(self).cur_id() == (old(self).cur_id() + 1) % (
                old(self).frames().len() as int) && final(self).delay().spec_time_left() == old(self).delay().spec_duration() && final(self).delay().spec_ready() == (old(self).delay().spec_duration() == 0)
                &&& (out && !advance) ==> final(self).cur_id() == old(self).cur_id() && final(self).delay().spec_ready()
                &&& !out ==> final(self).cur_id() == old(self).cur_id() && !final(self).delay().spec_ready() && final(self).delay().spec_time_left() == old(self).delay().spec_time_left() - delta
            },
    {
        if self.sprites.is_empty() || self.is_static() {
            return ;
        }
        let n = self.sprites.len();
        let ready = self.delay.update(delta);
        if ready {
            if !self.is_done() {
                self.id = (self.id + 1) % n;
                self.delay.reset();
            }
        }
    }

    /// Step to the next frame at once, bypassing the countdown, and rewind
    /// it; an empty sequence stays as it is.
    pub fn update_force(&mut self)
        requires
            old(self).inv(),
        ensures
            final(self).inv(),
            final(self).frames() == old(self).frames(),
            final(self).spec_looped() == old(self).spec_looped(),
            final(self).spec_max_pos() == old(self).spec_max_pos(),
            final(self).delay().spec_duration() == old(self).delay().spec_duration(),
            old(self).frames().len() == 0 ==> *final(self) == *old(self),
            old(self).frames().len() > 0 ==> final(self).cur_id() == (old(self).cur_id() + 1) % (
            old(self).frames().len() as int) && final(self).delay().spec_time_left() == old(self).delay().spec_duration() && final(self).delay().spec_ready() == (old(self).delay().spec_duration() == 0),
    {
        if !self.sprites.is_empty() {
            let n = self.sprites.len();
            self.id = (self.id + 1) % n;
            self.delay.reset();
        }
    }

    fn is_static(&self) -> (r: bool)
        ensures
            r == self.spec_static(),
    {
        self.delay.is_max_duration()
    }

    fn end(&self) -> (r: bool)
        ensures
            r == self.spec_end(),
    {
        self.sprites.is_empty() || self.id == self.sprites.len() - 1
    }

    /// Whether a one-shot sequence has played through: it sits on its last
    /// frame and its countdown has run out.  A looped sequence is never done.
    pub fn is_done(&self) -> (r: bool)
        ensures
            r == self.spec_is_done(),
    {
        !self.looped && self.end() && self.delay.ready()
    }

    /// Rewind to the first frame — but only when the sequence is done, so a
    /// playing animation never snaps back mid-way.
    pub fn reset(&mut self)
        requires
            old(self).inv(),
        ensures
            final(self).inv(),
            final(self).frames() == old(self).frames(),
            final(self).spec_looped() == old(self).spec_looped(),
            final(self).spec_max_pos() == old(self).spec_max_pos(),
            old(self).spec_is_done() ==> final(self).cur_id() == 0 && final(self).delay().spec_time_left() == old(self).delay().spec_duration() && final(self).delay().spec_ready() == (old(self).delay().spec_duration() == 0),
            !old(self).spec_is_done() ==> *final(self) == *old(self),
    {
        if self.is_done() {
            self.delay.reset();
            self.id = 0;
        }
    }

    pub fn get_current_sprite(&self) -> (r: Option<&Sprite>)
        requires
            self.inv(),
        ensures
            (match r {
                Some(sp) => self.frames().len() > 0 && *sp == self.frames()[self.cur_id()],
                None => self.frames().len() == 0,
            }),
    {
        if self.sprites.is_empty() {
            None
        } else {
            Some(&self.sprites[self.id])
        }
    }

    /// Turn every frame a quarter turn in place, so a direction change
    /// reorients the sprite without rebuilding its frames.
    pub fn rotate_90(&mut self)
        requires
            old(self).inv(),
            forall|k: int, d: (int, int)|
                0 <= k < old(self).frames().len() && (#[trigger] old(self).frames()[k].dots().contains(d)) ==> old(self).frames()[k].bound().1 - d.1
                    <= 32767,
        ensures
            final(self).inv(),
            final(self).frames().len() == old(self).frames().len(),
            forall|k: int|
                0 <= k < old(self).frames().len() ==> (#[trigger] final(self).frames()[k]).dots() == rot_set(
                    old(self).frames()[k].dots(),
                    old(self).frames()[k].bound().1,
                ) && tight_bound(final(self).frames()[k].dots(), final(self).frames()[k].bound()),
            final(self).cur_id() == old(self).cur_id(),
            final(self).delay() == old(self).delay(),
            final(self).spec_looped() == old(self).spec_looped(),
            final(self).spec_max_pos() == old(self).spec_max_pos(),
    {
        let n = self.sprites.len();
        let mut i: usize = 0;
        while i < n
            invariant
                n == self.sprites@.len(),
                n == old(self).frames().len(),
                i <= n,
                self.inv(),
                forall|k: int, d: (int, int)|
                    0 <= k < old(self).frames().len() && (#[trigger] old(self).frames()[k].dots().contains(d)) ==> old(self).frames()[k].bound().1 - d.1
                        <= 32767,
                forall|k: int| i <= k < n ==> #[trigger] self.sprites@[k] == old(self).frames()[k],
                forall|k: int|
                    0 <= k < i ==> (#[trigger] self.sprites@[k]).dots() == rot_set(
                        old(self).frames()[k].dots(),
                        old(self).frames()[k].bound().1,
                    ) && tight_bound(self.sprites@[k].dots(), self.sprites@[k].bound()),
                self.cur_id() == old(self).cur_id(),
                self.delay() == old(self).delay(),
                self.spec_looped() == old(self).spec_looped(),
                self.spec_max_pos() == old(self).spec_max_pos(),
            decreases n - i,
        {
            let sp = vstd::std_specs::vec::vec_index_mut(&mut self.sprites, i);
            proof {
                assert(old(self).frames()[i as int].inv());
            }
            sp.rotate_90();
            i = i + 1;
        }
    }

    /// Project the current frame onto a surface, offset by `(x, y)`; with no
    /// frames there is nothing to draw.
    pub fn draw_to_canvas<C: Canvas>(&self, canvas: &mut C, x: IndexType, y: IndexType)
        requires
            self.inv(),
            old(canvas).inv(),
            forall|d: (int, int)| #[trigger] self.ps_dots().contains(d) ==> i16::MIN <= x as int
                + d.0 <= i16::MAX && i16::MIN <= y as int + d.1 <= i16::MAX,
        ensures
            final(canvas).inv(),
            final(canvas).dots() == with_drawn(
                *old(canvas),
                shift_dots(self.ps_dots(), x as int, y as int),
            ),
            forall|a: int, b: int| final(canvas).covers(a, b) == old(canvas).covers(a, b),
    {
        let cur = self.get_current_sprite();
        match cur {
            Some(sprite) => {
                proof {
                    assert(self.frames()[self.cur_id()].inv());
                    assert(sprite.dots() == self.ps_dots());
                    assert forall|d: (int, int)| #[trigger] sprite.dots().contains(d) implies
                        i16::MIN <= x as int + d.0 <= i16::MAX && i16::MIN <= y as int + d.1
                        <= i16::MAX by {
                        assert(self.ps_dots().contains(d));
                    }
                }
                sprite.draw_to_canvas(canvas, x, y);
            },
            None => {
                proof {
                    assert(shift_dots(self.ps_dots(), x as int, y as int) =~= Set::<(
                        int,
                        int,
                    )>::empty());
                    assert(final(canvas).dots() =~= with_drawn(
                        *old(canvas),
                        shift_dots(self.ps_dots(), x as int, y as int),
                    ));
                }
            },
        }
    }

    /// Whether every frame is empty of dots (an empty sequence counts too).
    pub fn is_empty(&self) -> (r: bool)
        ensures
            r == (forall|k: int|
                0 <= k < self.frames().len() ==> (#[trigger] self.frames()[k]).dots().is_empty()),
    {
        let n = self.sprites.len();
        let mut i: usize = 0;
        while i < n
            invariant
                n == self.sprites@.len(),
                i <= n,
                forall|k: int|
                    0 <= k < i ==> (#[trigger] self.frames()[k]).dots().is_empty(),
            decreases n - i,
        {
            if !self.sprites[i].is_empty() {
                proof {
                    assert(!self.frames()[i as int].dots().is_empty());
                }
                return false;
            }
            i = i + 1;
        }
        true
    }
}

impl PointSet for Animated {
    /// The dots of the current frame; empty when there are no frames.
    open spec fn ps_dots(&self) -> Set<(int, int)> {
        if self.frames().len() > 0 {
            self.frames()[self.cur_id()].dots()
        } else {
            Set::empty()
        }
    }

    open spec fn ps_some(&self) -> bool {
        self.frames().len() > 0
    }

    open spec fn ps_max(&self) -> (int, int) {
        if self.frames().len() > 0 {
            self.frames()[self.cur_id()].bound()
        } else {
            (0int, 0int)
        }
    }

    /// Empty when there are no frames, or when any frame holds no dots.
    open spec fn ps_is_empty(&self) -> bool {
        self.frames().len() == 0 || exists|k: int|
            0 <= k < self.frames().len() && (#[trigger] self.frames()[k]).dots().is_empty()
    }

    open spec fn ps_inv(&self) -> bool {
        self.inv()
    }

    proof fn ps_props(&self) {
        if self.frames().len() > 0 {
            assert(self.frames()[self.cur_id()].inv());
            self.frames()[self.cur_id()].lemma_inv_bounds();
        }
    }

    fn get_point_set(&self) -> (r: Option<&DotSet>) {
        match self.get_current_sprite() {
            Some(sprite) => sprite.get_point_set(),
            None => None,
        }
    }

    fn get_max(&self) -> (r: Point) {
        if self.sprites.is_empty() {
            Point::new(0, 0)
        } else {
            proof {
                assert(self.frames()[self.cur_id()].inv());
                self.frames()[self.cur_id()].lemma_inv_bounds();
            }
            self.sprites[self.id].get_max()
        }
    }

    fn is_empty(&self) -> (r: bool) {
        if self.sprites.is_empty() {
            return true;
        }
        let n = self.sprites.len();
        let mut i: usize = 0;
        while i < n
            invariant
                n == self.sprites@.len(),
                n > 0,
                i <= n,
                forall|k: int|
                    0 <= k < i ==> !(#[trigger] self.frames()[k]).dots().is_empty(),
            decreases n - i,
        {
            if self.sprites[i].is_empty() {
                return true;
            }
            i = i + 1;
        }
        false
    }
}

/// A looped sequence never reports done, however it is driven: done is
/// reserved for one-shot sequences that sit on their last frame with their
/// countdown run out.
pub proof fn lemma_looped_never_done(a: Animated)
    requires
        a.spec_looped(),
    ensures
        !a.spec_is_done(),
{
}

} // verus!
