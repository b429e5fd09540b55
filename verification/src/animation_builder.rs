use vstd::prelude::*;

use crate::animated::Animated;
use crate::canvas::{art_dots, art_frames, Canvas};
use crate::sprite::Sprite;

verus! {

/// A fluent builder around an animation sequence.
pub struct AnimationBuilder {
    value: Animated,
}

impl AnimationBuilder {
    /// The sequence built so far.
    pub closed spec fn seq_value(&self) -> Animated {
        self.value
    }

    pub fn new(switch_delay: u64) -> (r: AnimationBuilder)
        ensures
            r.seq_value().inv(),
            r.seq_value().frames() == Seq::<Sprite>::empty(),
            r.seq_value().delay().spec_duration() == switch_delay,
            !r.seq_value().spec_looped(),
    {
        AnimationBuilder { value: Animated::new(switch_delay) }
    }

    pub fn new_static() -> (r: AnimationBuilder)
        ensures
            r.seq_value().inv(),
            r.seq_value().frames() == Seq::<Sprite>::empty(),
            r.seq_value().spec_static(),
            !r.seq_value().spec_looped(),
    {
        AnimationBuilder { value: Animated::new_static() }
    }

    pub fn new_looped(switch_delay: u64) -> (r: AnimationBuilder)
        ensures
            r.seq_value().inv(),
            r.seq_value().frames() == Seq::<Sprite>::empty(),
            r.seq_value().delay().spec_duration() == switch_delay,
            r.seq_value().spec_looped(),
    {
        AnimationBuilder { value: Animated::new_looped(switch_delay) }
    }

    pub fn add_sprite(self, s: Sprite) -> (r: AnimationBuilder)
        requires
            self.seq_value().inv(),
            s.inv(),
        ensures
            r.seq_value().inv(),
            r.seq_value().frames() == self.seq_value().frames().push(s),
            r.seq_value().delay() == self.seq_value().delay(),
            r.seq_value().spec_looped() == self.seq_value().spec_looped(),
    {
        let mut b = self;
        b.value.add_sprite(s);
        b
    }

    pub fn add_sprite_from_string(self, s: &str) -> (r: AnimationBuilder)
        requires
            self.seq_value().inv(),
            1 <= s@.len() <= 32767,
        ensures
            r.seq_value().inv(),
            r.seq_value().frames_dots() == self.seq_value().frames_dots().push(
                art_dots(s@, 0, 0),
            ),
            r.seq_value().delay() == self.seq_value().delay(),
            r.seq_value().spec_looped() == self.seq_value().spec_looped(),
    {
        let mut b = self;
        let ghost pre = b.value.frames_dots();
        let sprite = Sprite::new_from_string(s);
        b.value.add_sprite(sprite);
        proof {
            assert(b.value.frames_dots() =~= pre.push(art_dots(s@, 0, 0)));
        }
        b
    }

    pub fn add_from_string(self, s: &str) -> (r: AnimationBuilder)
        requires
            self.seq_value().inv(),
            s@.len() <= 32767,
        ensures
            r.seq_value().inv(),
            r.seq_value().frames_dots() == self.seq_value().frames_dots() + art_frames(s@),
            r.seq_value().delay() == self.seq_value().delay(),
            r.seq_value().spec_looped() == self.seq_value().spec_looped(),
            r.seq_value().frames().len() >= self.seq_value().frames().len(),
            forall|k: int|
                self.seq_value().frames().len() <= k < r.seq_value().frames().len() ==> (
                #[trigger] r.seq_value().frames()[k]).bound().0 <= s@.len()
                    && r.seq_value().frames()[k].bound().1 <= s@.len(),
            forall|k: int|
                0 <= k < self.seq_value().frames().len() ==> #[trigger] r.seq_value().frames()[k]
                    == self.seq_value().frames()[k],
    {
        let mut b = self;
        b.value.add_from_string(s);
        b
    }

    /// Hand the sequence through an arbitrary rewriting step.
    pub fn modify<F: Fn(Animated) -> Animated>(self, call: F) -> (r: AnimationBuilder)
        requires
            call.requires((self.seq_value(),)),
        ensures
            call.ensures((self.seq_value(),), r.seq_value()),
    {
        let mut b = self;
        b.value = call(b.value);
        b
    }

    pub fn build(self) -> (r: Animated)
        ensures
            r == self.seq_value(),
    {
        self.value
    }
}

} // verus!
