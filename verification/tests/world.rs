use tank::braille_canvas::BrailleCanvas;
use tank::direction::Direction;
use tank::game_object::{game_object_intersection, game_object_overlap, overlap_of, GameObject};
use tank::obstacle::{Obstacle, Obstacles};
use tank::point_set::{DotSet, PointSet};
use tank::position::Point;
use tank::shot::Shot;
use tank::tank::Tank;

fn square_set() -> DotSet {
    let mut ds = DotSet::new();
    ds.insert(Point::new(0, 0));
    ds.insert(Point::new(1, 0));
    ds.insert(Point::new(0, 1));
    ds.insert(Point::new(1, 1));
    ds
}

#[test]
fn direction_steps_and_turns() {
    let p = Point::new(5, 5);
    let up = Direction::Up.go_forward(p);
    assert_eq!((up.x, up.y), (5, 4));
    let back = Direction::Up.go_back(p);
    assert_eq!((back.x, back.y), (5, 6));
    assert_eq!(Direction::Up.next_clockwise(), Direction::Right);
    assert_eq!(Direction::Left.next_clockwise(), Direction::Up);
}

#[test]
fn rect_overlap_separating_axis() {
    let r1 = (Point::new(0, 0), Point::new(2, 2));
    let r2 = (Point::new(1, 1), Point::new(3, 3));
    let apart = (Point::new(5, 5), Point::new(7, 7));
    let degenerate = (Point::new(0, 0), Point::new(0, 2));
    assert!(game_object_overlap(&r1, &r2));
    assert!(!game_object_overlap(&r1, &apart));
    assert!(!game_object_overlap(&degenerate, &r1));
    assert!(!game_object_overlap(&r1, &degenerate));
}

#[test]
fn intersection_pairs_local_coordinates() {
    let s1 = square_set();
    let s2 = square_set();
    let r1 = (Point::new(0, 0), Point::new(2, 2));
    let r2 = (Point::new(1, 1), Point::new(3, 3));
    let pairs = game_object_intersection(r1, &s1, r2, &s2);
    assert_eq!(pairs.len(), 1);
    let (p1, p2) = pairs[0];
    assert_eq!((p1.x, p1.y), (1, 1));
    assert_eq!((p2.x, p2.y), (0, 0));
}

#[test]
fn intersection_is_symmetric_with_swapped_pairs() {
    let s1 = square_set();
    let mut s2 = DotSet::new();
    s2.insert(Point::new(0, 0));
    s2.insert(Point::new(1, 1));
    let r1 = (Point::new(0, 0), Point::new(2, 2));
    let r2 = (Point::new(1, 0), Point::new(3, 2));
    let ab = game_object_intersection(r1, &s1, r2, &s2);
    let ba = game_object_intersection(r2, &s2, r1, &s1);
    assert_eq!(ab.len(), ba.len());
    for (p1, p2) in ab.iter() {
        assert!(ba.iter().any(|(q1, q2)| q1 == p2 && q2 == p1));
    }
    assert!(!ab.is_empty());
}

#[test]
fn intersection_empty_for_disjoint_rectangles() {
    let s1 = square_set();
    let s2 = square_set();
    let r1 = (Point::new(0, 0), Point::new(2, 2));
    let r2 = (Point::new(10, 10), Point::new(12, 12));
    let pairs = game_object_intersection(r1, &s1, r2, &s2);
    assert!(pairs.is_empty());
}

#[test]
fn intersection_pairs_stay_inside_the_intersection() {
    let s1 = square_set();
    let s2 = square_set();
    let r1 = (Point::new(0, 0), Point::new(2, 2));
    let r2 = (Point::new(1, 0), Point::new(3, 2));
    let pairs = game_object_intersection(r1, &s1, r2, &s2);
    for (p1, p2) in pairs.iter() {
        let wx = p1.x as i32 + 0;
        let wy = p1.y as i32 + 0;
        assert!(wx >= 1 && wx <= 2);
        assert!(wy >= 0 && wy <= 2);
        assert_eq!(p2.x as i32, wx - 1);
        assert_eq!(p2.y as i32, wy);
    }
}

#[test]
fn obstacle_rect_and_frame_shapes() {
    let solid = Obstacle::new_rect(0, 0, 3, 2);
    assert!(!solid.is_done());
    assert!(solid.is_solid());
    assert!(!solid.is_transparent());
    assert!(solid.is_visible());
    assert!(!solid.is_ground());

    let frame = Obstacle::new_frame(0, 0, 3, 3);
    assert!(!frame.is_done());
}

#[test]
fn obstacle_transparent_rect_dithers() {
    let o = Obstacle::new_transparent_rect(0, 0, 3, 2, 2);
    assert!(o.is_transparent());
    assert!(!o.is_solid());
    let ds = o.get_point_set().unwrap();
    // 3 by 2 block, dots where (x + y) % 2 == 0: (0,0), (2,0), (1,1)
    assert_eq!(ds.len(), 3);
    assert!(ds.contains(&Point::new(0, 0)));
    assert!(ds.contains(&Point::new(2, 0)));
    assert!(ds.contains(&Point::new(1, 1)));
}

#[test]
fn obstacle_transparent_rect_accepts_negative_factor() {
    // a negative factor dithers by its magnitude
    let o = Obstacle::new_transparent_rect(0, 0, 3, 2, -2);
    let ds = o.get_point_set().unwrap();
    assert_eq!(ds.len(), 3);
    assert!(ds.contains(&Point::new(0, 0)));
    assert!(ds.contains(&Point::new(2, 0)));
    assert!(ds.contains(&Point::new(1, 1)));
}

#[test]
fn obstacle_frame_accepts_negative_corners() {
    let o = Obstacle::new_frame(-2, -2, 2, 2);
    let pos = o.get_position();
    assert_eq!((pos.x, pos.y), (-2, -2));
    assert!(!o.is_done());
}

#[test]
fn obstacle_circle_is_anchored_one_radius_off() {
    let o = Obstacle::new_circle(10, 10, 2);
    let pos = o.get_position();
    assert_eq!((pos.x, pos.y), (8, 8));
    assert!(!o.is_done());
}

#[test]
fn obstacle_erodes_and_is_dropped() {
    let mut os = Obstacles::new();
    let mut small = Obstacle::new_rect(0, 0, 1, 1);
    small.clean(&Point::new(0, 0));
    assert!(small.is_done());
    os.add_obstacle(small);
    os.add_obstacle(Obstacle::new_rect(0, 0, 2, 2));
    assert_eq!(os.get_all().len(), 2);
    os.update(16);
    assert_eq!(os.get_all().len(), 1);
}

#[test]
fn shot_flies_along_its_heading() {
    let mut sh = Shot::new(10, 10, Direction::Up);
    // the flight timer has a 25 ms budget; 30 ms runs it out
    sh.update(30);
    let p = sh.get_position();
    assert_eq!((p.x, p.y), (10, 9));
    assert!(!sh.is_done());
    let mut right = Shot::new(10, 10, Direction::Right);
    right.forward();
    let q = right.get_position();
    assert_eq!((q.x, q.y), (11, 10));
}

#[test]
fn shot_explodes_once_and_finishes() {
    let mut sh = Shot::new(50, 50, Direction::Down);
    assert!(sh.explode());
    assert!(!sh.explode());
    assert!(!sh.is_done());
    // the 500 ms fuse runs out after more than 500 ms
    sh.update(501);
    assert!(sh.is_done());
}

#[test]
fn tank_turns_then_moves() {
    let mut t = Tank::new(20, 20);
    // first call only turns
    t.go_right();
    let p = t.get_position();
    assert_eq!((p.x, p.y), (20, 20));
    // already facing right: now it rolls
    t.go_right();
    let p = t.get_position();
    assert_eq!((p.x, p.y), (21, 20));
}

#[test]
fn tank_shoots_after_recharge() {
    let mut t = Tank::new(20, 20);
    let mut before = BrailleCanvas::new(64, 64);
    t.draw(&mut before);
    // the recharge timer starts full: this shot does not fire
    t.shoot();
    let mut still = BrailleCanvas::new(64, 64);
    t.draw(&mut still);
    assert!(tank::braille_canvas::diff_cells(&before, &still, false).is_empty());
    // once more than 250 ms have passed, the next shot fires
    t.update(300);
    t.shoot();
    // let the bullet fly clear of the hull before comparing frames
    t.update(30);
    let mut after = BrailleCanvas::new(64, 64);
    t.draw(&mut after);
    assert!(!tank::braille_canvas::diff_cells(&before, &after, false).is_empty());
}

#[test]
fn tank_blocked_by_solid_obstacle() {
    let mut t = Tank::new(20, 20);
    let mut os = Obstacles::new();
    // a big solid block right on top of the tank
    os.add_obstacle(Obstacle::new_rect(10, 10, 40, 40));
    t.check_obstacles(&mut os);
    // the tank was pushed one step back from its heading (up -> down)
    let p = t.get_position();
    assert_eq!((p.x, p.y), (20, 21));
}

#[test]
fn tank_overlap_uses_square_border() {
    let t = Tank::new(0, 0);
    let o = Obstacle::new_rect(0, 0, 2, 2);
    let pairs = t.get_overlap(&o);
    // the tank border is a filled box, so the whole 2 by 2 corner overlaps
    assert_eq!(pairs.len(), 4);
}

#[test]
fn overlap_of_free_function_matches_method() {
    let t = Tank::new(0, 0);
    let o = Obstacle::new_rect(0, 0, 2, 2);
    let a = t.get_overlap(&o);
    let b = overlap_of(&t, &o);
    assert_eq!(a.len(), b.len());
}

#[test]
fn world_draws_onto_canvas() {
    let mut canvas = BrailleCanvas::new(120, 80);
    let mut os = Obstacles::new();
    os.add_obstacle(Obstacle::new_circle(10, 10, 3));
    os.add_obstacle(Obstacle::new_frame(0, 0, 119, 79));
    let t = Tank::new(10, 60);
    os.draw(&mut canvas);
    t.draw(&mut canvas);
    // the frame's top-left corner dot is set
    assert_ne!(canvas.area()[0][0], 0);
}

#[test]
fn invisible_obstacle_leaves_no_trace() {
    let mut canvas = BrailleCanvas::new(16, 16);
    let mut o = Obstacle::new_rect(0, 0, 4, 4);
    o.set_visible(false);
    o.draw(&mut canvas);
    for col in canvas.area().iter() {
        for v in col.iter() {
            assert_eq!(*v, 0);
        }
    }
}

#[test]
fn ground_cover_hides_dots_for_one_frame() {
    let mut canvas = BrailleCanvas::new(16, 16);
    let mut o = Obstacle::new_rect(0, 0, 2, 2);
    let mut hidden = DotSet::new();
    hidden.insert(Point::new(0, 0));
    hidden.insert(Point::new(1, 0));
    hidden.insert(Point::new(0, 1));
    hidden.insert(Point::new(1, 1));
    o.set_invisivle_dots(hidden);
    o.draw(&mut canvas);
    assert_eq!(canvas.area()[0][0], 0);
    // the next update clears the hidden set again
    o.update(16);
    let mut canvas2 = BrailleCanvas::new(16, 16);
    o.draw(&mut canvas2);
    assert_ne!(canvas2.area()[0][0], 0);
}
