use tank::animated::Animated;
use tank::animation_builder::AnimationBuilder;
use tank::canvas::Canvas;
use tank::point_set::PointSet;
use tank::position::Point;
use tank::sprite::Sprite;
use tank::timer::{Timer, DURATION_MAX_MILLIS};

fn marker_sprite(k: i16) -> Sprite {
    let mut s = Sprite::new();
    s.draw_dot(k, 0);
    s
}

fn current_marker(a: &Animated) -> i16 {
    let sp = a.get_current_sprite().expect("a frame");
    let ds = sp.get_point_set().unwrap();
    for k in 0..16 {
        if ds.contains(&Point::new(k, 0)) {
            return k;
        }
    }
    panic!("no marker dot");
}

#[test]
fn timer_zero_is_ready_at_once() {
    let t = Timer::new(0);
    assert!(t.ready());
}

#[test]
fn timer_runs_out_only_past_its_budget() {
    let mut t = Timer::new(100);
    assert!(!t.ready());
    assert!(!t.update(40));
    assert!(!t.update(40));
    assert!(t.update(40));
    assert!(t.ready());
    t.reset();
    assert!(!t.ready());
}

#[test]
fn timer_exact_budget_needs_one_more_tick() {
    let mut t = Timer::from_millis(100);
    assert!(!t.update(100));
    assert!(t.update(1));
}

#[test]
fn infinite_timer_never_runs_out() {
    let mut t = Timer::new(DURATION_MAX_MILLIS);
    for _ in 0..1000 {
        assert!(!t.update(1_000_000_000));
    }
    assert!(t.is_max_duration());
}

#[test]
fn looped_sequence_cycles_and_is_never_done() {
    let mut a = Animated::new_looped(100);
    a.add_sprite(marker_sprite(0));
    a.add_sprite(marker_sprite(1));
    a.add_sprite(marker_sprite(2));
    assert_eq!(current_marker(&a), 0);
    a.update(40);
    assert_eq!(current_marker(&a), 0);
    a.update(40);
    assert_eq!(current_marker(&a), 0);
    a.update(40);
    assert_eq!(current_marker(&a), 1);
    assert!(!a.is_done());
    // drive it around the loop several times; it never reports done
    for _ in 0..20 {
        a.update(120);
        assert!(!a.is_done());
    }
    a.update(120);
    a.update(120);
    assert_eq!(current_marker(&a), 2);
}

#[test]
fn one_shot_holds_on_last_frame_and_reset_rewinds() {
    let mut a = Animated::new(100);
    a.add_sprite(marker_sprite(0));
    a.add_sprite(marker_sprite(1));
    a.update(150);
    assert_eq!(current_marker(&a), 1);
    assert!(!a.is_done());
    a.update(150);
    assert!(a.is_done());
    assert_eq!(current_marker(&a), 1);
    a.update(150);
    assert_eq!(current_marker(&a), 1);
    assert!(a.is_done());
    a.reset();
    assert!(!a.is_done());
    assert_eq!(current_marker(&a), 0);
}

#[test]
fn reset_mid_sequence_is_a_no_op() {
    let mut a = Animated::new(100);
    a.add_sprite(marker_sprite(0));
    a.add_sprite(marker_sprite(1));
    a.add_sprite(marker_sprite(2));
    a.update(150);
    assert_eq!(current_marker(&a), 1);
    a.reset();
    assert_eq!(current_marker(&a), 1);
}

#[test]
fn static_sequence_never_advances() {
    let mut a = Animated::new_static();
    a.add_sprite(marker_sprite(0));
    a.add_sprite(marker_sprite(1));
    a.update(1_000_000);
    assert_eq!(current_marker(&a), 0);
}

#[test]
fn update_force_bypasses_the_timer() {
    let mut a = Animated::new_static();
    a.add_sprite(marker_sprite(0));
    a.add_sprite(marker_sprite(1));
    a.update_force();
    assert_eq!(current_marker(&a), 1);
    a.update_force();
    assert_eq!(current_marker(&a), 0);
}

#[test]
fn add_from_string_splits_frames_on_dash() {
    let mut a = Animated::new_looped(50);
    a.add_from_string("*-**-***");
    let first = a.get_current_sprite().unwrap();
    assert_eq!(first.get_point_set().unwrap().len(), 1);
    a.update_force();
    assert_eq!(a.get_current_sprite().unwrap().get_point_set().unwrap().len(), 2);
    a.update_force();
    assert_eq!(a.get_current_sprite().unwrap().get_point_set().unwrap().len(), 3);
}

#[test]
fn empty_sequence_has_no_current_sprite() {
    let a = Animated::new(100);
    assert!(a.get_current_sprite().is_none());
}

#[test]
fn animated_rotate_turns_every_frame() {
    let mut a = Animated::new_static();
    let mut s = Sprite::new();
    s.draw_dot(2, 0);
    s.draw_dot(0, 0);
    a.add_sprite(s);
    a.rotate_90();
    let ds = a.get_current_sprite().unwrap().get_point_set().unwrap();
    assert!(ds.contains(&Point::new(0, 0)));
    assert!(ds.contains(&Point::new(0, 2)));
}

#[test]
fn builder_assembles_frames() {
    let a = AnimationBuilder::new_looped(75)
        .add_sprite(marker_sprite(3))
        .add_sprite_from_string("**")
        .build();
    assert_eq!(current_marker(&a), 3);
    let mut a = a;
    a.update_force();
    assert_eq!(a.get_current_sprite().unwrap().get_point_set().unwrap().len(), 2);
}

#[test]
fn animated_is_empty_semantics() {
    let mut a = Animated::new(10);
    // the trait view: an empty list is empty
    assert!(PointSet::is_empty(&a));
    a.add_sprite(marker_sprite(0));
    assert!(!PointSet::is_empty(&a));
    a.add_sprite(Sprite::new());
    // any empty frame makes the trait view empty again
    assert!(PointSet::is_empty(&a));
}
