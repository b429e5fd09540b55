use tank::braille;
use tank::braille_canvas::{diff_cells, BrailleCanvas};
use tank::canvas::{draw_circle, draw_from_string, draw_line, draw_rectangle, Canvas};
use tank::point_set::{DotSet, PointSet};
use tank::position::Point;
use tank::sprite::Sprite;

#[test]
fn point_new_and_move() {
    let mut p = Point::new(3, -4);
    assert_eq!(p.x, 3);
    assert_eq!(p.y, -4);
    p.move_to(-1, 7);
    assert_eq!(p.x, -1);
    assert_eq!(p.y, 7);
}

#[test]
fn dot_set_insert_remove_contains() {
    let mut ds = DotSet::new();
    assert!(ds.is_empty());
    ds.insert(Point::new(1, 2));
    ds.insert(Point::new(1, 2));
    ds.insert(Point::new(-3, 0));
    assert_eq!(ds.len(), 2);
    assert!(ds.contains(&Point::new(1, 2)));
    assert!(ds.contains(&Point::new(-3, 0)));
    assert!(!ds.contains(&Point::new(0, 0)));
    ds.remove(&Point::new(1, 2));
    assert_eq!(ds.len(), 1);
    assert!(!ds.contains(&Point::new(1, 2)));
}

#[test]
fn braille_mapping_table() {
    // the eight sub-cells map onto the fixed non-linear bit weights
    assert_eq!(braille::set_dot(0, 0, 0), 0x01);
    assert_eq!(braille::set_dot(0, 0, 1), 0x02);
    assert_eq!(braille::set_dot(0, 0, 2), 0x04);
    assert_eq!(braille::set_dot(0, 0, 3), 0x40);
    assert_eq!(braille::set_dot(0, 1, 0), 0x08);
    assert_eq!(braille::set_dot(0, 1, 1), 0x10);
    assert_eq!(braille::set_dot(0, 1, 2), 0x20);
    assert_eq!(braille::set_dot(0, 1, 3), 0x80);
    // out-of-block sub-cells leave the value unchanged
    assert_eq!(braille::set_dot(0x12, 2, 0), 0x12);
    assert_eq!(braille::empty(), 0);
}

#[test]
fn braille_set_then_clean_round_trip() {
    let v = 0x29;
    let set = braille::set_dot(v, 1, 1);
    assert_eq!(set, v | 0x10);
    let cleaned = braille::clean_dot(set, 1, 1);
    assert_eq!(cleaned, v & !0x10);
    assert_eq!(cleaned, v);
}

#[test]
fn braille_to_char_base_codepoint() {
    assert_eq!(braille::to_char(0) as u32, 0x2800);
    assert_eq!(braille::to_char(0xFF) as u32, 0x28FF);
    assert_eq!(braille::to_char(0x07), '\u{2807}');
}

#[test]
fn canvas_draw_dot_sets_exactly_one_bit() {
    let mut c = BrailleCanvas::new(10, 10);
    assert!(c.draw_dot(3, 5));
    // group (1, 1), sub-cell (1, 1) -> bit 0x10
    assert_eq!(c.area()[1][1], 0x10);
    // every other group stays clear
    assert_eq!(c.area()[0][0], 0);
    assert_eq!(c.area()[1][0], 0);
    assert!(c.clean_dot(3, 5));
    assert_eq!(c.area()[1][1], 0);
}

#[test]
fn canvas_rejects_outside_and_negative() {
    let mut c = BrailleCanvas::new(4, 4);
    assert!(!c.draw_dot(-1, 0));
    assert!(!c.draw_dot(0, -1));
    assert!(!c.draw_dot(4, 0));
    assert!(!c.draw_dot(0, 4));
    assert!(c.draw_dot(3, 3));
}

#[test]
fn canvas_dimensions_round_up() {
    let c = BrailleCanvas::new(5, 6);
    assert_eq!(c.area().len(), 3);
    assert_eq!(c.area()[0].len(), 2);
}

#[test]
fn rectangle_outline_has_twelve_border_dots() {
    let mut s = Sprite::new();
    draw_rectangle(&mut s, Point::new(0, 0), Point::new(3, 3));
    let ds = s.get_point_set().unwrap();
    assert_eq!(ds.len(), 12);
    for x in 0..4 {
        for y in 0..4 {
            let on_border = x == 0 || x == 3 || y == 0 || y == 3;
            assert_eq!(ds.contains(&Point::new(x, y)), on_border);
        }
    }
}

#[test]
fn text_art_cursor_semantics() {
    let s = Sprite::new_from_string("+ *\n|**");
    let ds = s.get_point_set().unwrap();
    assert_eq!(ds.len(), 3);
    assert!(ds.contains(&Point::new(1, 0)));
    assert!(ds.contains(&Point::new(0, 1)));
    assert!(ds.contains(&Point::new(1, 1)));
}

#[test]
fn text_art_dash_ends_sprite() {
    let mut s = Sprite::new();
    let rest = draw_from_string(&mut s, "*-*remaining");
    assert_eq!(rest, "*remaining");
    let ds = s.get_point_set().unwrap();
    assert_eq!(ds.len(), 1);
    assert!(ds.contains(&Point::new(0, 0)));
}

#[test]
fn line_steps_along_dominant_axis() {
    let mut s = Sprite::new();
    draw_line(&mut s, Point::new(0, 0), Point::new(3, 1));
    let ds = s.get_point_set().unwrap();
    assert_eq!(ds.len(), 4);
    assert!(ds.contains(&Point::new(0, 0)));
    assert!(ds.contains(&Point::new(1, 0)));
    assert!(ds.contains(&Point::new(2, 1)));
    assert!(ds.contains(&Point::new(3, 1)));
}

#[test]
fn line_steps_backward_when_dominant_delta_is_negative() {
    // dominant x negative, minor y positive: walk backward from (5,0)
    let mut s = Sprite::new();
    draw_line(&mut s, Point::new(5, 0), Point::new(0, 2));
    let ds = s.get_point_set().unwrap();
    assert_eq!(ds.len(), 6);
    assert!(ds.contains(&Point::new(5, 0)));
    assert!(ds.contains(&Point::new(4, 0)));
    assert!(ds.contains(&Point::new(3, 1)));
    assert!(ds.contains(&Point::new(2, 1)));
    assert!(ds.contains(&Point::new(1, 2)));
    assert!(ds.contains(&Point::new(0, 2)));
}

#[test]
fn line_steps_backward_on_the_vertical_axis_too() {
    // dominant y negative, minor x positive: walk upward from (0,5)
    let mut s = Sprite::new();
    draw_line(&mut s, Point::new(0, 5), Point::new(2, 0));
    let ds = s.get_point_set().unwrap();
    assert_eq!(ds.len(), 6);
    assert!(ds.contains(&Point::new(0, 5)));
    assert!(ds.contains(&Point::new(0, 4)));
    assert!(ds.contains(&Point::new(1, 3)));
    assert!(ds.contains(&Point::new(1, 2)));
    assert!(ds.contains(&Point::new(2, 1)));
    assert!(ds.contains(&Point::new(2, 0)));
}

#[test]
fn line_without_forward_span_draws_nothing() {
    let mut s = Sprite::new();
    draw_line(&mut s, Point::new(3, 0), Point::new(0, 0));
    assert!(s.is_empty());
    draw_line(&mut s, Point::new(2, 2), Point::new(0, 0));
    assert!(s.is_empty());
}

#[test]
fn circle_radius_one_ring() {
    let mut s = Sprite::new();
    draw_circle(&mut s, Point::new(1, 1), 1);
    let ds = s.get_point_set().unwrap();
    assert_eq!(ds.len(), 4);
    assert!(ds.contains(&Point::new(1, 0)));
    assert!(ds.contains(&Point::new(0, 1)));
    assert!(ds.contains(&Point::new(2, 1)));
    assert!(ds.contains(&Point::new(1, 2)));
    assert!(!ds.contains(&Point::new(1, 1)));
}

#[test]
fn sprite_rotation_bbox_involution() {
    let mut s = Sprite::new();
    s.draw_dot(0, 0);
    s.draw_dot(2, 0);
    s.draw_dot(2, 1);
    let before = s.get_max();
    assert_eq!((before.x, before.y), (2, 1));
    s.rotate_90();
    let mid = s.get_max();
    assert_eq!((mid.x, mid.y), (1, 2));
    s.rotate_90();
    let after = s.get_max();
    assert_eq!((after.x, after.y), (2, 1));
}

#[test]
fn sprite_rotation_moves_dots() {
    let mut s = Sprite::new();
    s.draw_dot(2, 0);
    s.draw_dot(0, 0);
    // max is (2, 0); (x, y) -> (max.y - y, x)
    s.rotate_90();
    let ds = s.get_point_set().unwrap();
    assert_eq!(ds.len(), 2);
    assert!(ds.contains(&Point::new(0, 2)));
    assert!(ds.contains(&Point::new(0, 0)));
}

#[test]
fn sprite_clean_keeps_loose_max() {
    let mut s = Sprite::new();
    s.draw_dot(4, 3);
    s.clean(&Point::new(4, 3));
    assert!(s.is_empty());
    let m = s.get_max();
    assert_eq!((m.x, m.y), (4, 3));
}

#[test]
fn sprite_draw_to_canvas_projects_dots() {
    let mut s = Sprite::new();
    s.draw_dot(0, 0);
    s.draw_dot(1, 1);
    let mut c = BrailleCanvas::new(8, 8);
    s.draw_to_canvas(&mut c, 2, 4);
    // dot (2, 4): group (1, 1), sub (0, 0) -> 0x01
    // dot (3, 5): group (1, 1), sub (1, 1) -> 0x10
    assert_eq!(c.area()[1][1], 0x11);
}

#[test]
fn diff_reports_changed_cells_in_order() {
    let last = BrailleCanvas::new(8, 8);
    let mut cur = BrailleCanvas::new(8, 8);
    cur.draw_dot(0, 0);
    cur.draw_dot(6, 7);
    let d = diff_cells(&last, &cur, false);
    assert_eq!(d.len(), 2);
    assert_eq!(d[0], (0, 0, 0x01));
    assert_eq!(d[1], (3, 1, 0x40));
    let full = diff_cells(&last, &cur, true);
    assert_eq!(full.len(), 8);
    let none = diff_cells(&cur, &cur, false);
    assert_eq!(none.len(), 0);
}
