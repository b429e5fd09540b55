use vstd::prelude::*;

use crate::position::{imax, imin, IndexType, Point};

verus! {

/// The dots lying on the border of the rectangle spanned by two corners.
/// The corners are normalized first, so the border is the outline of the
/// block between the componentwise minimum and maximum.
pub open spec fn rect_dots(from: Point, to: Point) -> Set<(int, int)> {
    Set::new(
        |q: (int, int)|
            {
                let x0 = imin(from.x as int, to.x as int);
                let x1 = imax(from.x as int, to.x as int);
                let y0 = imin(from.y as int, to.y as int);
                let y1 = imax(from.y as int, to.y as int);
                (x0 <= q.0 <= x1 && (q.1 == y0 || q.1 == y1)) || (y0 <= q.1 <= y1 && (q.0 == x0
                    || q.0 == x1))
            },
    )
}

/// The coordinates a surface covers, as a set.
pub open spec fn covered_set<C: Canvas>(c: C) -> Set<(int, int)> {
    Set::new(|q: (int, int)| c.covers(q.0, q.1))
}

/// The dots of a surface after the dots of `s` that it covers were drawn
/// onto it.
pub open spec fn with_drawn<C: Canvas>(c: C, s: Set<(int, int)>) -> Set<(int, int)> {
    c.dots().union(s.intersect(covered_set(c)))
}

/// A drawing surface: anything onto which a single dot can be set or
/// cleared.  Every surface gains the rasterizers below for free, expressed
/// purely in terms of repeated `draw_dot` calls.
pub trait Canvas: Sized {
    /// The set of dots currently set on the surface.
    spec fn dots(&self) -> Set<(int, int)>;

    /// The coordinates on which a draw succeeds; drawing elsewhere is a no-op.
    spec fn covers(&self, x: int, y: int) -> bool;

    /// A componentwise upper bound tracked by the surface; it only grows while
    /// drawing, and never past the largest coordinate drawn.
    spec fn bound(&self) -> (int, int);

    /// Well-formedness of the surface.
    spec fn inv(&self) -> bool;

    /// Set one dot, reporting whether it fell inside the covered extent.
    fn draw_dot(&mut self, x: IndexType, y: IndexType) -> (r: bool)
        requires
            old(self).inv(),
        ensures
            final(self).inv(),
            r == old(self).covers(x as int, y as int),
            r ==> final(self).dots() == old(self).dots().insert((x as int, y as int)),
            !r ==> final(self).dots() == old(self).dots(),
            forall|a: int, b: int| final(self).covers(a, b) == old(self).covers(a, b),
            old(self).bound().0 <= final(self).bound().0 <= imax(old(self).bound().0, x as int),
            old(self).bound().1 <= final(self).bound().1 <= imax(old(self).bound().1, y as int),
            r ==> final(self).bound().0 == imax(old(self).bound().0, x as int)
                && final(self).bound().1 == imax(old(self).bound().1, y as int),
            !r ==> final(self).bound() == old(self).bound(),
    ;

    /// Clear one dot, reporting whether it fell inside the covered extent.
    fn clean_dot(&mut self, x: IndexType, y: IndexType) -> (r: bool)
        requires
            old(self).inv(),
        ensures
            final(self).inv(),
            r == old(self).covers(x as int, y as int),
            r ==> final(self).dots() == old(self).dots().remove((x as int, y as int)),
            !r ==> final(self).dots() == old(self).dots(),
            forall|a: int, b: int| final(self).covers(a, b) == old(self).covers(a, b),
            final(self).bound() == old(self).bound(),
    ;
}


/// How the tracked corner moves while only drawing: the dots only grow,
/// the corner never shrinks, every newly drawn dot stays under it, and
/// when it moves, some dot now on the surface reaches it.
pub open spec fn corner_extended<C: Canvas>(pre: C, post: C) -> bool {
    &&& pre.dots().subset_of(post.dots())
    &&& pre.bound().0 <= post.bound().0
    &&& pre.bound().1 <= post.bound().1
    &&& (post.bound().0 == pre.bound().0 || exists|q: (int, int)|
        #[trigger] post.dots().contains(q) && q.0 == post.bound().0)
    &&& (post.bound().1 == pre.bound().1 || exists|q: (int, int)|
        #[trigger] post.dots().contains(q) && q.1 == post.bound().1)
    &&& forall|q: (int, int)|
        #[trigger] post.dots().contains(q) && !pre.dots().contains(q) ==> q.0 <= post.bound().0
            && q.1 <= post.bound().1
}

/// Corner extensions compose.
pub proof fn lemma_corner_extended_trans<C: Canvas>(a: C, b: C, c: C)
    requires
        corner_extended(a, b),
        corner_extended(b, c),
    ensures
        corner_extended(a, c),
{
    if c.bound().0 == b.bound().0 && b.bound().0 != a.bound().0 {
        let q = choose|q: (int, int)| #[trigger] b.dots().contains(q) && q.0 == b.bound().0;
        assert(c.dots().contains(q));
    }
    if c.bound().1 == b.bound().1 && b.bound().1 != a.bound().1 {
        let q = choose|q: (int, int)| #[trigger] b.dots().contains(q) && q.1 == b.bound().1;
        assert(c.dots().contains(q));
    }
    assert forall|q: (int, int)|
        #[trigger] c.dots().contains(q) && !a.dots().contains(q) implies q.0 <= c.bound().0
        && q.1 <= c.bound().1 by {
        if b.dots().contains(q) {
            assert(q.0 <= b.bound().0 && q.1 <= b.bound().1);
        }
    }
}

/// Draw only the four border edges between the normalized corners: an
/// outline, not a fill.
pub fn draw_rectangle<C: Canvas>(canvas: &mut C, from: Point, to: Point)
    requires
        old(canvas).inv(),
    ensures
        final(canvas).inv(),
        final(canvas).dots() == with_drawn(*old(canvas), rect_dots(from, to)),
        forall|a: int, b: int| final(canvas).covers(a, b) == old(canvas).covers(a, b),
        old(canvas).bound().0 <= final(canvas).bound().0 <= imax(
            old(canvas).bound().0,
            imax(from.x as int, to.x as int),
        ),
        old(canvas).bound().1 <= final(canvas).bound().1 <= imax(
            old(canvas).bound().1,
            imax(from.y as int, to.y as int),
        ),
{
    let min_x: IndexType = if from.x < to.x {
        from.x
    } else {
        to.x
    };
    let max_x: IndexType = if from.x < to.x {
        to.x
    } else {
        from.x
    };
    let min_y: IndexType = if from.y < to.y {
        from.y
    } else {
        to.y
    };
    let max_y: IndexType = if from.y < to.y {
        to.y
    } else {
        from.y
    };
    let ghost x0 = min_x as int;
    let ghost x1 = max_x as int;
    let ghost y0 = min_y as int;
    let ghost y1 = max_y as int;
    let ghost start = *canvas;
    let mut i: i32 = min_x as i32;
    while i <= max_x as i32
        invariant
            canvas.inv(),
            min_x as i32 <= i <= max_x as i32 + 1,
            x0 == min_x as int && x1 == max_x as int && y0 == min_y as int && y1
                == max_y as int,
            x0 <= x1 && y0 <= y1,
            forall|a: int, b: int| canvas.covers(a, b) == start.covers(a, b),
            canvas.dots() == with_drawn(
                start,
                Set::new(
                    |q: (int, int)| x0 <= q.0 < i && (q.1 == y0 || q.1 == y1),
                ),
            ),
            start.bound().0 <= canvas.bound().0 <= imax(start.bound().0, x1),
            start.bound().1 <= canvas.bound().1 <= imax(start.bound().1, y1),
        decreases max_x as int + 1 - i,
    {
        let ghost prev = i as int;
        canvas.draw_dot(i as IndexType, min_y);
        canvas.draw_dot(i as IndexType, max_y);
        proof {
            assert(canvas.dots() =~= with_drawn(
                start,
                Set::new(
                    |q: (int, int)| x0 <= q.0 < prev + 1 && (q.1 == y0 || q.1 == y1),
                ),
            ));
        }
        i = i + 1;
    }
    let mut j: i32 = min_y as i32;
    while j <= max_y as i32
        invariant
            canvas.inv(),
            min_y as i32 <= j <= max_y as i32 + 1,
            x0 == min_x as int && x1 == max_x as int && y0 == min_y as int && y1
                == max_y as int,
            x0 <= x1 && y0 <= y1,
            forall|a: int, b: int| canvas.covers(a, b) == start.covers(a, b),
            canvas.dots() == with_drawn(
                start,
                Set::new(
                    |q: (int, int)|
                        (x0 <= q.0 <= x1 && (q.1 == y0 || q.1 == y1)) || (y0 <= q.1 < j && (q.0
                            == x0 || q.0 == x1)),
                ),
            ),
            start.bound().0 <= canvas.bound().0 <= imax(start.bound().0, x1),
            start.bound().1 <= canvas.bound().1 <= imax(start.bound().1, y1),
        decreases max_y as int + 1 - j,
    {
        let ghost prev = j as int;
        canvas.draw_dot(min_x, j as IndexType);
        canvas.draw_dot(max_x, j as IndexType);
        proof {
            assert(canvas.dots() =~= with_drawn(
                start,
                Set::new(
                    |q: (int, int)|
                        (x0 <= q.0 <= x1 && (q.1 == y0 || q.1 == y1)) || (y0 <= q.1 < prev + 1
                            && (q.0 == x0 || q.0 == x1)),
                ),
            ));
        }
        j = j + 1;
    }
    proof {
        assert(canvas.dots() =~= with_drawn(start, rect_dots(from, to)));
    }
}

/// The dots plotted by the text-art mini-language, read from cursor
/// position `(x, y)`: a space advances the cursor, `'\n'` starts the next
/// row, `'|'` resets the column, `'+'` resets both column and row, `'\r'`
/// is ignored, `'-'` ends the sprite, and any other character plots a dot
/// and advances the column.
pub open spec fn art_dots(s: Seq<char>, x: int, y: int) -> Set<(int, int)>
    decreases s.len(),
{
    if s.len() == 0 {
        Set::empty()
    } else {
        let c = s[0];
        if c == ' ' {
            art_dots(s.drop_first(), x + 1, y)
        } else if c == '+' {
            art_dots(s.drop_first(), 0, 0)
        } else if c == '\r' {
            art_dots(s.drop_first(), x, y)
        } else if c == '\n' {
            art_dots(s.drop_first(), 0, y + 1)
        } else if c == '|' {
            art_dots(s.drop_first(), 0, y)
        } else if c == '-' {
            Set::empty()
        } else {
            art_dots(s.drop_first(), x + 1, y).insert((x, y))
        }
    }
}

/// What is left of a text-art string after the current sprite: everything
/// past the first `'-'`, or nothing when no `'-'` occurs.
pub open spec fn art_rest(s: Seq<char>) -> Seq<char>
    decreases s.len(),
{
    if s.len() == 0 {
        s
    } else if s[0] == '-' {
        s.drop_first()
    } else {
        art_rest(s.drop_first())
    }
}

/// Draw one sprite of a text-art string and hand back the unparsed rest,
/// so that one literal can encode a whole ordered animation.
pub fn draw_from_string<'a, C: Canvas>(canvas: &mut C, value: &'a str) -> (rest: &'a str)
    requires
        old(canvas).inv(),
        1 <= value@.len() <= 32767,
    ensures
        final(canvas).inv(),
        final(canvas).dots() == with_drawn(*old(canvas), art_dots(value@, 0, 0)),
        corner_extended(*old(canvas), *final(canvas)),
        rest@ == art_rest(value@),
        rest@.len() < value@.len(),
        forall|a: int, b: int| final(canvas).covers(a, b) == old(canvas).covers(a, b),
        old(canvas).bound().0 <= final(canvas).bound().0 <= imax(
            old(canvas).bound().0,
            value@.len() as int,
        ),
        old(canvas).bound().1 <= final(canvas).bound().1 <= imax(
            old(canvas).bound().1,
            value@.len() as int,
        ),
{
    let ghost start = *canvas;
    let ghost s = value@;
    let n = value.unicode_len();
    let mut x: IndexType = 0;
    let mut y: IndexType = 0;
    let mut i: usize = 0;
    proof {
        assert(s.skip(0) =~= s);
        assert(canvas.dots().union(
            art_dots(s, 0, 0).intersect(covered_set(start)),
        ) =~= with_drawn(start, art_dots(s, 0, 0)));
        assert(corner_extended(start, *canvas));
    }
    while i < n
        invariant
            canvas.inv(),
            start == *old(canvas),
            s == value@,
            n == s.len(),
            1 <= n <= 32767,
            i <= n,
            0 <= x <= i,
            0 <= y <= i,
            forall|a: int, b: int| canvas.covers(a, b) == start.covers(a, b),
            corner_extended(start, *canvas),
            canvas.dots().union(
                art_dots(s.skip(i as int), x as int, y as int).intersect(covered_set(start)),
            ) == with_drawn(start, art_dots(s, 0, 0)),
            art_rest(s.skip(i as int)) == art_rest(s),
            start.bound().0 <= canvas.bound().0 <= imax(start.bound().0, s.len() as int),
            start.bound().1 <= canvas.bound().1 <= imax(start.bound().1, s.len() as int),
        decreases n - i,
    {
        let c = value.get_char(i);
        proof {
            assert(s.skip(i as int)[0] == s[i as int]);
            assert(s.skip(i as int).drop_first() =~= s.skip(i as int + 1));
        }
        if c == ' ' {
            x = x + 1;
        } else if c == '+' {
            x = 0;
            y = 0;
        } else if c == '\r' {
        } else if c == '\n' {
            x = 0;
            y = y + 1;
        } else if c == '|' {
            x = 0;
        } else if c == '-' {
            let rest = value.substring_char(i + 1, n);
            proof {
                assert(art_dots(s.skip(i as int), x as int, y as int) =~= Set::<(int, int)>::empty());
                assert(canvas.dots() =~= with_drawn(start, art_dots(s, 0, 0)));
                assert(rest@ =~= s.skip(i as int + 1));
            }
            return rest;
        } else {
            let ghost before = *canvas;
            let ghost px = x as int;
            let ghost py = y as int;
            let drawn = canvas.draw_dot(x, y);
            proof {
                if drawn {
                    assert(canvas.dots().contains((x as int, y as int)));
                }
                assert(corner_extended(before, *canvas));
                lemma_corner_extended_trans(start, before, *canvas);
                assert(art_dots(s.skip(i as int), px, py) == art_dots(
                    s.skip(i as int + 1),
                    px + 1,
                    py,
                ).insert((px, py)));
                assert(canvas.dots().union(
                    art_dots(s.skip(i as int + 1), px + 1, py).intersect(covered_set(start)),
                ) =~= before.dots().union(
                    art_dots(s.skip(i as int), px, py).intersect(covered_set(start)),
                ));
            }
            x = x + 1;
        }
        i = i + 1;
    }
    let rest = value.substring_char(n, n);
    proof {
        assert(s.skip(n as int) =~= Seq::<char>::empty());
        assert(art_dots(s.skip(n as int), x as int, y as int) =~= Set::<(int, int)>::empty());
        assert(canvas.dots() =~= with_drawn(start, art_dots(s, 0, 0)));
        assert(rest@ =~= Seq::<char>::empty());
        assert(rest@.len() == 0);
    }
    rest
}

/// After one sprite's art, the rest of the string is strictly shorter.
pub proof fn lemma_art_rest_shorter(s: Seq<char>)
    ensures
        s.len() > 0 ==> art_rest(s).len() < s.len(),
    decreases s.len(),
{
    if s.len() > 0 {
        if s[0] == '-' {
            assert(art_rest(s) == s.drop_first());
        } else {
            lemma_art_rest_shorter(s.drop_first());
            assert(art_rest(s) == art_rest(s.drop_first()));
            if s.drop_first().len() == 0 {
                assert(art_rest(s.drop_first()) == s.drop_first());
            }
        }
    }
}

#[via_fn]
proof fn art_frames_decreases(s: Seq<char>) {
    lemma_art_rest_shorter(s);
}

/// The ordered frames that one text-art string encodes, each frame the
/// dots of one `'-'`-separated sprite.
pub open spec fn art_frames(s: Seq<char>) -> Seq<Set<(int, int)>>
    decreases s.len(),
    via art_frames_decreases
{
    if s.len() == 0 {
        Seq::empty()
    } else {
        seq![art_dots(s, 0, 0)] + art_frames(art_rest(s))
    }
}

/// The magnitude of a mathematical integer.
pub open spec fn iabs(a: int) -> int {
    if a < 0 {
        -a
    } else {
        a
    }
}

/// The minor-axis row of an x-major line at step `i` along the dominant
/// axis: the fractional offset `i * dy / |dx|`, started half a dot in,
/// floored.
pub open spec fn line_y_at(from: Point, to: Point, i: int) -> int {
    let adx = iabs(to.x - from.x);
    let dy = to.y - from.y;
    from.y + (adx + 2 * i * dy) / (2 * adx)
}

/// The minor-axis column of a y-major line at step `i`.
pub open spec fn line_x_at(from: Point, to: Point, i: int) -> int {
    let ady = iabs(to.y - from.y);
    let dx = to.x - from.x;
    from.x + (ady + 2 * i * dx) / (2 * ady)
}

/// The column of an x-major line at step `i`: the walk runs forward or
/// backward with the sign of the dominant delta.
pub open spec fn line_x_step(from: Point, to: Point, i: int) -> int {
    if to.x - from.x > 0 {
        from.x + i
    } else {
        from.x - i
    }
}

/// The row of a y-major line at step `i`.
pub open spec fn line_y_step(from: Point, to: Point, i: int) -> int {
    if to.y - from.y > 0 {
        from.y + i
    } else {
        from.y - i
    }
}

/// The dots of a line: one dot per unit of the dominant axis, iterating
/// forward or backward depending on the sign of the dominant delta, the
/// minor coordinate accumulated as `delta / dominant` and floored.  Only a
/// line with no strictly positive span in either forward direction draws
/// nothing.
pub open spec fn line_dots(from: Point, to: Point) -> Set<(int, int)> {
    let dx = to.x - from.x;
    let dy = to.y - from.y;
    if !(dx > 0 || dy > 0) {
        Set::empty()
    } else if iabs(dx) > iabs(dy) {
        Set::new(
            |q: (int, int)|
                exists|i: int|
                    0 <= i <= iabs(dx) && q.0 == line_x_step(from, to, i) && q.1
                        == #[trigger] line_y_at(from, to, i),
        )
    } else {
        Set::new(
            |q: (int, int)|
                exists|i: int|
                    0 <= i <= iabs(dy) && q.1 == line_y_step(from, to, i) && q.0
                        == #[trigger] line_x_at(from, to, i),
        )
    }
}

/// Division rounding toward negative infinity, as spec-level `/` does.
fn floor_div(n: i64, d: i64) -> (q: i64)
    requires
        0 < d,
        i64::MIN < n,
    ensures
        q == n as int / d as int,
{
    if n >= 0 {
        let qu = (n as u64) / (d as u64);
        proof {
            assert(qu <= n as u64) by (nonlinear_arith)
                requires qu == n as u64 / d as u64 && d as u64 >= 1;
        }
        qu as i64
    } else {
        let m = (-n) as u64;
        let du = d as u64;
        let qm = m / du;
        let rm = m % du;
        proof {
            assert(qm <= m) by (nonlinear_arith)
                requires qm == m / du && du >= 1;
            vstd::arithmetic::div_mod::lemma_fundamental_div_mod(m as int, du as int);
            if rm == 0 {
                assert(n as int == (-(qm as int)) * (d as int) + 0) by (nonlinear_arith)
                    requires m as int == (du as int) * (qm as int) && n as int == -(m as int)
                        && d as int == du as int;
                vstd::arithmetic::div_mod::lemma_fundamental_div_mod_converse(
                    n as int,
                    d as int,
                    -(qm as int),
                    0,
                );
            } else {
                assert(n as int == (-(qm as int) - 1) * (d as int) + (d as int - rm as int))
                    by (nonlinear_arith)
                    requires m as int == (du as int) * (qm as int) + (rm as int) && n as int
                        == -(m as int) && d as int == du as int;
                vstd::arithmetic::div_mod::lemma_fundamental_div_mod_converse(
                    n as int,
                    d as int,
                    -(qm as int) - 1,
                    d as int - rm as int,
                );
            }
        }
        if rm == 0 {
            -(qm as i64)
        } else {
            -(qm as i64) - 1
        }
    }
}

/// Where the dominant step `i` of a line lands on the minor axis, and that
/// it stays between the endpoints' minor coordinates.
proof fn lemma_line_y_bounds(from: Point, to: Point, i: int)
    requires
        iabs(to.x - from.x) > 0,
        0 <= i <= iabs(to.x - from.x),
    ensures
        imin(0, to.y - from.y) <= line_y_at(from, to, i) - from.y <= imax(0, to.y - from.y),
{
    let adx = iabs(to.x as int - from.x as int);
    let dy = to.y as int - from.y as int;
    let num = adx + 2 * i * dy;
    if dy >= 0 {
        assert(2 * i * dy <= 2 * adx * dy) by {
            vstd::arithmetic::mul::lemma_mul_inequality(i, adx, 2 * dy);
            assert(i * (2 * dy) == 2 * i * dy) by (nonlinear_arith);
            assert(adx * (2 * dy) == 2 * adx * dy) by (nonlinear_arith);
        }
        assert(0 <= 2 * i * dy) by (nonlinear_arith)
            requires 0 <= i && 0 <= dy;
        vstd::arithmetic::div_mod::lemma_div_is_ordered(adx, num, 2 * adx);
        vstd::arithmetic::div_mod::lemma_div_is_ordered(num, adx + 2 * adx * dy, 2 * adx);
        assert(adx / (2 * adx) == 0) by {
            vstd::arithmetic::div_mod::lemma_basic_div(adx, 2 * adx);
        }
        assert((adx + 2 * adx * dy) / (2 * adx) == dy) by {
            assert(adx + 2 * adx * dy == (2 * adx) * dy + adx) by (nonlinear_arith);
            vstd::arithmetic::div_mod::lemma_div_multiples_vanish_fancy(dy, adx, 2 * adx);
        }
    } else {
        assert(2 * adx * dy <= 2 * i * dy) by {
            vstd::arithmetic::mul::lemma_mul_inequality(i, adx, 2 * (-dy));
            assert(i * (2 * (-dy)) == -(2 * i * dy)) by (nonlinear_arith);
            assert(adx * (2 * (-dy)) == -(2 * adx * dy)) by (nonlinear_arith);
        }
        assert(2 * i * dy <= 0) by (nonlinear_arith)
            requires 0 <= i && dy < 0;
        vstd::arithmetic::div_mod::lemma_div_is_ordered(adx + 2 * adx * dy, num, 2 * adx);
        vstd::arithmetic::div_mod::lemma_div_is_ordered(num, adx, 2 * adx);
        assert(adx / (2 * adx) == 0) by {
            vstd::arithmetic::div_mod::lemma_basic_div(adx, 2 * adx);
        }
        assert((adx + 2 * adx * dy) / (2 * adx) == dy) by {
            assert(adx + 2 * adx * dy == (2 * adx) * dy + adx) by (nonlinear_arith);
            vstd::arithmetic::div_mod::lemma_div_multiples_vanish_fancy(dy, adx, 2 * adx);
        }
    }
}

/// The mirror of `lemma_line_y_bounds` for y-major lines.
proof fn lemma_line_x_bounds(from: Point, to: Point, i: int)
    requires
        iabs(to.y - from.y) > 0,
        0 <= i <= iabs(to.y - from.y),
    ensures
        imin(0, to.x - from.x) <= line_x_at(from, to, i) - from.x <= imax(0, to.x - from.x),
{
    let ady = iabs(to.y as int - from.y as int);
    let dx = to.x as int - from.x as int;
    let num = ady + 2 * i * dx;
    if dx >= 0 {
        assert(2 * i * dx <= 2 * ady * dx) by {
            vstd::arithmetic::mul::lemma_mul_inequality(i, ady, 2 * dx);
            assert(i * (2 * dx) == 2 * i * dx) by (nonlinear_arith);
            assert(ady * (2 * dx) == 2 * ady * dx) by (nonlinear_arith);
        }
        assert(0 <= 2 * i * dx) by (nonlinear_arith)
            requires 0 <= i && 0 <= dx;
        vstd::arithmetic::div_mod::lemma_div_is_ordered(ady, num, 2 * ady);
        vstd::arithmetic::div_mod::lemma_div_is_ordered(num, ady + 2 * ady * dx, 2 * ady);
        assert(ady / (2 * ady) == 0) by {
            vstd::arithmetic::div_mod::lemma_basic_div(ady, 2 * ady);
        }
        assert((ady + 2 * ady * dx) / (2 * ady) == dx) by {
            assert(ady + 2 * ady * dx == (2 * ady) * dx + ady) by (nonlinear_arith);
            vstd::arithmetic::div_mod::lemma_div_multiples_vanish_fancy(dx, ady, 2 * ady);
        }
    } else {
        assert(2 * ady * dx <= 2 * i * dx) by {
            vstd::arithmetic::mul::lemma_mul_inequality(i, ady, 2 * (-dx));
            assert(i * (2 * (-dx)) == -(2 * i * dx)) by (nonlinear_arith);
            assert(ady * (2 * (-dx)) == -(2 * ady * dx)) by (nonlinear_arith);
        }
        assert(2 * i * dx <= 0) by (nonlinear_arith)
            requires 0 <= i && dx < 0;
        vstd::arithmetic::div_mod::lemma_div_is_ordered(ady + 2 * ady * dx, num, 2 * ady);
        vstd::arithmetic::div_mod::lemma_div_is_ordered(num, ady, 2 * ady);
        assert(ady / (2 * ady) == 0) by {
            vstd::arithmetic::div_mod::lemma_basic_div(ady, 2 * ady);
        }
        assert((ady + 2 * ady * dx) / (2 * ady) == dx) by {
            assert(ady + 2 * ady * dx == (2 * ady) * dx + ady) by (nonlinear_arith);
            vstd::arithmetic::div_mod::lemma_div_multiples_vanish_fancy(dx, ady, 2 * ady);
        }
    }
}

/// A DDA-style stepper: pick the dominant axis, step one dot per unit of
/// it forward or backward with the dominant delta's sign, and accumulate
/// the fractional minor-axis offset, floored each step.
pub fn draw_line<C: Canvas>(canvas: &mut C, from: Point, to: Point)
    requires
        old(canvas).inv(),
    ensures
        final(canvas).inv(),
        final(canvas).dots() == with_drawn(*old(canvas), line_dots(from, to)),
        forall|a: int, b: int| final(canvas).covers(a, b) == old(canvas).covers(a, b),
        old(canvas).bound().0 <= final(canvas).bound().0 <= imax(
            old(canvas).bound().0,
            imax(from.x as int, to.x as int),
        ),
        old(canvas).bound().1 <= final(canvas).bound().1 <= imax(
            old(canvas).bound().1,
            imax(from.y as int, to.y as int),
        ),
{
    let ghost start = *canvas;
    let dx: i32 = to.x as i32 - from.x as i32;
    let dy: i32 = to.y as i32 - from.y as i32;
    let adx: i32 = if dx < 0 {
        -dx
    } else {
        dx
    };
    let ady: i32 = if dy < 0 {
        -dy
    } else {
        dy
    };
    if dx > 0 || dy > 0 {
        if adx > ady {
            let xstep: i32 = if dx > 0 {
                1
            } else {
                -1
            };
            let mut i: i32 = 0;
            while i <= adx
                invariant
                    canvas.inv(),
                    start == *old(canvas),
                    dx == to.x as int - from.x as int,
                    dy == to.y as int - from.y as int,
                    adx == iabs(dx as int),
                    dx != 0,
                    xstep as int == (if dx > 0 {
                        1int
                    } else {
                        -1int
                    }),
                    iabs(dx as int) > iabs(dy as int),
                    0 <= i <= adx + 1,
                    forall|a: int, b: int| canvas.covers(a, b) == start.covers(a, b),
                    canvas.dots() == with_drawn(
                        start,
                        Set::new(
                            |q: (int, int)|
                                exists|j: int|
                                    0 <= j < i && q.0 == line_x_step(from, to, j) && q.1
                                        == #[trigger] line_y_at(from, to, j),
                        ),
                    ),
                    start.bound().0 <= canvas.bound().0 <= imax(
                        start.bound().0,
                        imax(from.x as int, to.x as int),
                    ),
                    start.bound().1 <= canvas.bound().1 <= imax(
                        start.bound().1,
                        imax(from.y as int, to.y as int),
                    ),
                decreases adx + 1 - i,
            {
                proof {
                    lemma_line_y_bounds(from, to, i as int);
                }
                proof {
                    assert(-0x4_0000_0000i64 as int <= 2 * (i as int) * (dy as int)
                        <= 0x4_0000_0000i64 as int) by (nonlinear_arith)
                        requires -65537 <= i as int <= 65537 && -65537 <= dy as int <= 65537;
                }
                let num: i64 = adx as i64 + 2 * (i as i64) * (dy as i64);
                let q = floor_div(num, 2 * adx as i64);
                let px: IndexType = (from.x as i32 + xstep * i) as IndexType;
                let py: IndexType = (from.y as i64 + q) as IndexType;
                proof {
                    assert(px as int == line_x_step(from, to, i as int));
                    assert(py as int == line_y_at(from, to, i as int));
                }
                canvas.draw_dot(px, py);
                proof {
                    assert(canvas.dots() =~= with_drawn(
                        start,
                        Set::new(
                            |q2: (int, int)|
                                exists|j: int|
                                    0 <= j < i + 1 && q2.0 == line_x_step(from, to, j) && q2.1
                                        == #[trigger] line_y_at(from, to, j),
                        ),
                    ));
                }
                i = i + 1;
            }
            proof {
                assert(canvas.dots() =~= with_drawn(start, line_dots(from, to)));
            }
        } else {
            let ystep: i32 = if dy > 0 {
                1
            } else {
                -1
            };
            let mut i: i32 = 0;
            while i <= ady
                invariant
                    canvas.inv(),
                    start == *old(canvas),
                    dx == to.x as int - from.x as int,
                    dy == to.y as int - from.y as int,
                    ady == iabs(dy as int),
                    dy != 0,
                    ystep as int == (if dy > 0 {
                        1int
                    } else {
                        -1int
                    }),
                    !(iabs(dx as int) > iabs(dy as int)),
                    0 <= i <= ady + 1,
                    forall|a: int, b: int| canvas.covers(a, b) == start.covers(a, b),
                    canvas.dots() == with_drawn(
                        start,
                        Set::new(
                            |q: (int, int)|
                                exists|j: int|
                                    0 <= j < i && q.1 == line_y_step(from, to, j) && q.0
                                        == #[trigger] line_x_at(from, to, j),
                        ),
                    ),
                    start.bound().0 <= canvas.bound().0 <= imax(
                        start.bound().0,
                        imax(from.x as int, to.x as int),
                    ),
                    start.bound().1 <= canvas.bound().1 <= imax(
                        start.bound().1,
                        imax(from.y as int, to.y as int),
                    ),
                decreases ady + 1 - i,
            {
                proof {
                    lemma_line_x_bounds(from, to, i as int);
                }
                proof {
                    assert(-0x4_0000_0000i64 as int <= 2 * (i as int) * (dx as int)
                        <= 0x4_0000_0000i64 as int) by (nonlinear_arith)
                        requires -65537 <= i as int <= 65537 && -65537 <= dx as int <= 65537;
                }
                let num: i64 = ady as i64 + 2 * (i as i64) * (dx as i64);
                let q = floor_div(num, 2 * ady as i64);
                let px: IndexType = (from.x as i64 + q) as IndexType;
                let py: IndexType = (from.y as i32 + ystep * i) as IndexType;
                proof {
                    assert(py as int == line_y_step(from, to, i as int));
                    assert(px as int == line_x_at(from, to, i as int));
                }
                canvas.draw_dot(px, py);
                proof {
                    assert(canvas.dots() =~= with_drawn(
                        start,
                        Set::new(
                            |q2: (int, int)|
                                exists|j: int|
                                    0 <= j < i + 1 && q2.1 == line_y_step(from, to, j) && q2.0
                                        == #[trigger] line_x_at(from, to, j),
                        ),
                    ));
                }
                i = i + 1;
            }
            proof {
                assert(canvas.dots() =~= with_drawn(start, line_dots(from, to)));
            }
        }
    } else {
        proof {
            assert(line_dots(from, to) =~= Set::<(int, int)>::empty());
            assert(canvas.dots() =~= with_drawn(start, line_dots(from, to)));
        }
    }
}

/// The ring test, in exact integer arithmetic: whether the lattice offset
/// `(ddx, ddy)` from the center lies within 0.4 of the exact radius.  For
/// a positive radius, `|dist - r| < 0.4` holds iff `25 dist^2` lies
/// strictly between `(5r - 2)^2` and `(5r + 2)^2`; for radius zero it
/// degenerates to `25 dist^2 < 4`.
pub open spec fn circle_cond(radius: int, ddx: int, ddy: int) -> bool {
    let d2 = ddx * ddx + ddy * ddy;
    if radius == 0 {
        25 * d2 < 4
    } else {
        25 * d2 < 25 * radius * radius + 20 * radius + 4 && 25 * d2 > 25 * radius * radius - 20
            * radius + 4
    }
}

/// Whether the offset lies strictly inside the circle: the early-exit
/// test of the per-column scan.
pub open spec fn circle_inside(radius: int, ddx: int, ddy: int) -> bool {
    ddx * ddx + ddy * ddy < radius * radius
}

/// Whether the ring test fires at quarter-box position `(x, y)`.
pub open spec fn circle_hit(radius: int, x: int, y: int) -> bool {
    circle_cond(radius, x - radius, y - radius)
}

/// Whether the per-column scan of column `x` reaches row `y` at all: no
/// earlier row of the column was strictly inside the circle yet off the
/// ring.
pub open spec fn circle_reached(radius: int, x: int, y: int) -> bool {
    forall|yp: int|
        0 <= yp < y ==> !(!#[trigger] circle_hit(radius, x, yp) && circle_inside(
            radius,
            x - radius,
            yp - radius,
        ))
}

/// The four mirror images of quarter-box position `(x, y)` around the
/// center.
pub open spec fn circle_mirrors(center: Point, radius: int, x: int, y: int, q: (int, int)) -> bool {
    ||| q == (center.x - radius + x, center.y - radius + y)
    ||| q == (center.x + radius - x, center.y - radius + y)
    ||| q == (center.x - radius + x, center.y + radius - y)
    ||| q == (center.x + radius - x, center.y + radius - y)
}

/// The dots of the thin outline ring of one circle.
pub open spec fn circle_dots(center: Point, radius: int) -> Set<(int, int)> {
    Set::new(
        |q: (int, int)|
            exists|x: int, y: int|
                0 <= x <= radius && 0 <= y <= radius && #[trigger] circle_hit(radius, x, y)
                    && circle_reached(radius, x, y) && circle_mirrors(center, radius, x, y, q),
    )
}

/// The ring dots contributed by the quarter-box columns before `x`.
pub open spec fn circle_cols(center: Point, radius: int, x: int) -> Set<(int, int)> {
    Set::new(
        |q: (int, int)|
            exists|xp: int, y: int|
                0 <= xp < x && 0 <= y <= radius && #[trigger] circle_hit(radius, xp, y)
                    && circle_reached(radius, xp, y) && circle_mirrors(center, radius, xp, y, q),
    )
}

/// The ring dots contributed by column `x` up to (but not at) row `y`.
pub open spec fn circle_col_part(center: Point, radius: int, x: int, y: int) -> Set<(int, int)> {
    Set::new(
        |q: (int, int)|
            exists|yp: int|
                0 <= yp < y && yp <= radius && #[trigger] circle_hit(radius, x, yp)
                    && circle_reached(radius, x, yp) && circle_mirrors(center, radius, x, yp, q),
    )
}

/// Scan the quarter box and mirror every ring hit into all four quadrants,
/// leaving each column early once the scan falls strictly inside the ring.
/// The result is a thin outline, not a filled disc.
pub fn draw_circle<C: Canvas>(canvas: &mut C, center: Point, radius: IndexType)
    requires
        old(canvas).inv(),
        radius >= 0 ==> center.x as int - radius as int >= i16::MIN as int && center.x as int
            + radius as int <= i16::MAX as int && center.y as int - radius as int
            >= i16::MIN as int && center.y as int + radius as int <= i16::MAX as int,
    ensures
        final(canvas).inv(),
        final(canvas).dots() == with_drawn(*old(canvas), circle_dots(center, radius as int)),
        forall|a: int, b: int| final(canvas).covers(a, b) == old(canvas).covers(a, b),
        old(canvas).bound().0 <= final(canvas).bound().0 <= imax(
            old(canvas).bound().0,
            center.x as int + radius as int,
        ),
        old(canvas).bound().1 <= final(canvas).bound().1 <= imax(
            old(canvas).bound().1,
            center.y as int + radius as int,
        ),
{
    let ghost start = *canvas;
    let ghost r = radius as int;
    if radius < 0 {
        proof {
            assert(circle_dots(center, r) =~= Set::<(int, int)>::empty());
            assert(canvas.dots() =~= with_drawn(start, circle_dots(center, r)));
        }
        return ;
    }
    let mut x: i32 = 0;
    proof {
        assert(circle_cols(center, r, 0) =~= Set::<(int, int)>::empty());
        assert(canvas.dots() =~= with_drawn(start, circle_cols(center, r, 0)));
    }
    while x <= radius as i32
        invariant
            canvas.inv(),
            start == *old(canvas),
            r == radius as int,
            0 <= r <= i16::MAX as int,
            center.x as int - r >= i16::MIN as int,
            center.x as int + r <= i16::MAX as int,
            center.y as int - r >= i16::MIN as int,
            center.y as int + r <= i16::MAX as int,
            0 <= x <= r + 1,
            forall|a: int, b: int| canvas.covers(a, b) == start.covers(a, b),
            canvas.dots() == with_drawn(start, circle_cols(center, r, x as int)),
            start.bound().0 <= canvas.bound().0 <= imax(start.bound().0, center.x as int + r),
            start.bound().1 <= canvas.bound().1 <= imax(start.bound().1, center.y as int + r),
        decreases r + 1 - x,
    {
        let mut y: i32 = 0;
        let mut stop: bool = false;
        proof {
            assert(circle_col_part(center, r, x as int, 0) =~= Set::<(int, int)>::empty());
            assert(circle_cols(center, r, x as int).union(
                circle_col_part(center, r, x as int, 0),
            ) =~= circle_cols(center, r, x as int));
        }
        while y <= radius as i32 && !stop
            invariant
                canvas.inv(),
                start == *old(canvas),
                r == radius as int,
                0 <= r <= i16::MAX as int,
                center.x as int - r >= i16::MIN as int,
                center.x as int + r <= i16::MAX as int,
                center.y as int - r >= i16::MIN as int,
                center.y as int + r <= i16::MAX as int,
                0 <= x <= r,
                0 <= y <= r + 1,
                forall|a: int, b: int| canvas.covers(a, b) == start.covers(a, b),
                canvas.dots() == with_drawn(
                    start,
                    circle_cols(center, r, x as int).union(
                        circle_col_part(center, r, x as int, y as int),
                    ),
                ),
                !stop ==> circle_reached(r, x as int, y as int),
                stop ==> !circle_hit(r, x as int, y as int),
                stop ==> forall|yp: int|
                    y < yp ==> !circle_reached(r, x as int, yp),
                stop ==> circle_col_part(center, r, x as int, y as int) == circle_col_part(
                    center,
                    r,
                    x as int,
                    r + 1,
                ),
                start.bound().0 <= canvas.bound().0 <= imax(start.bound().0, center.x as int + r),
                start.bound().1 <= canvas.bound().1 <= imax(start.bound().1, center.y as int + r),
            decreases r + 1 - y + (if stop {
                0int
            } else {
                1int
            }),
        {
            let ddx: i32 = x - radius as i32;
            let ddy: i32 = y - radius as i32;
            proof {
                assert((ddx as int) * (ddx as int) + (ddy as int) * (ddy as int)
                    <= 0x1_0000_0000_0000i64 as int && 0 <= (ddx as int) * (ddx as int) && 0 <= (
                ddy as int) * (ddy as int)) by (nonlinear_arith)
                    requires -65536 <= ddx as int <= 65536 && -65536 <= ddy as int <= 65536;
            }
            let d2: i64 = (ddx as i64) * (ddx as i64) + (ddy as i64) * (ddy as i64);
            proof {
                assert(0 <= (radius as int) * (radius as int) <= 0x4000_0000i64 as int && 0
                    <= 25 * (radius as int) * (radius as int) <= 0x7_0000_0000_0000i64 as int)
                    by (nonlinear_arith)
                    requires 0 <= radius as int <= 32767;
            }
            let hit: bool = if radius == 0 {
                25 * d2 < 4
            } else {
                25 * d2 < 25 * (radius as i64) * (radius as i64) + 20 * (radius as i64) + 4 && 25
                    * d2 > 25 * (radius as i64) * (radius as i64) - 20 * (radius as i64) + 4
            };
            proof {
                assert(hit == circle_hit(r, x as int, y as int));
            }
            if hit {
                let xi: IndexType = (center.x as i32 - radius as i32 + x) as IndexType;
                let yi: IndexType = (center.y as i32 - radius as i32 + y) as IndexType;
                let xm: IndexType = (center.x as i32 + radius as i32 - x) as IndexType;
                let ym: IndexType = (center.y as i32 + radius as i32 - y) as IndexType;
                canvas.draw_dot(xi, yi);
                canvas.draw_dot(xm, yi);
                canvas.draw_dot(xi, ym);
                canvas.draw_dot(xm, ym);
                proof {
                    assert(circle_reached(r, x as int, y as int + 1));
                    assert(canvas.dots() =~= with_drawn(
                        start,
                        circle_cols(center, r, x as int).union(
                            circle_col_part(center, r, x as int, y as int + 1),
                        ),
                    ));
                }
            } else {
                let inside: bool = d2 < (radius as i64) * (radius as i64);
                proof {
                    assert(inside == circle_inside(r, x as int - r, y as int - r));
                }
                if inside {
                    stop = true;
                    proof {
                        assert forall|yp: int| y < yp implies !circle_reached(r, x as int, yp)
                        by {
                            assert(!circle_hit(r, x as int, y as int) && circle_inside(
                                r,
                                x as int - r,
                                y as int - r,
                            ));
                        }
                        assert(circle_col_part(center, r, x as int, y as int) =~= circle_col_part(
                            center,
                            r,
                            x as int,
                            r + 1,
                        ));
                    }
                } else {
                    proof {
                        assert(circle_reached(r, x as int, y as int + 1));
                        assert(circle_col_part(center, r, x as int, y as int + 1)
                            =~= circle_col_part(center, r, x as int, y as int));
                    }
                }
            }
            if !stop {
                y = y + 1;
            } else {
                proof {
                    assert(circle_col_part(center, r, x as int, y as int) == circle_col_part(
                        center,
                        r,
                        x as int,
                        r + 1,
                    ));
                }
            }
        }
        proof {
            assert(circle_col_part(center, r, x as int, r + 1) == circle_col_part(
                center,
                r,
                x as int,
                y as int,
            ) || y as int == r + 1);
            assert(circle_cols(center, r, x as int + 1) =~= circle_cols(center, r, x as int).union(
                circle_col_part(center, r, x as int, r + 1),
            ));
            assert(canvas.dots() =~= with_drawn(start, circle_cols(center, r, x as int + 1)));
        }
        x = x + 1;
    }
    proof {
        assert(circle_dots(center, r) =~= circle_cols(center, r, r + 1));
        assert(canvas.dots() =~= with_drawn(start, circle_dots(center, r)));
    }
}

/// Text art plots no dot left of or above the cursor's origin.
pub proof fn lemma_art_dots_nonneg(s: Seq<char>, x: int, y: int)
    requires
        0 <= x,
        0 <= y,
    ensures
        forall|d: (int, int)| #[trigger] art_dots(s, x, y).contains(d) ==> 0 <= d.0 && 0 <= d.1,
    decreases s.len(),
{
    if s.len() == 0 {
        assert(art_dots(s, x, y) =~= Set::<(int, int)>::empty());
    } else {
        let c = s[0];
        if c == ' ' {
            lemma_art_dots_nonneg(s.drop_first(), x + 1, y);
            assert(art_dots(s, x, y) == art_dots(s.drop_first(), x + 1, y));
        } else if c == '+' {
            lemma_art_dots_nonneg(s.drop_first(), 0, 0);
            assert(art_dots(s, x, y) == art_dots(s.drop_first(), 0, 0));
        } else if c == '\r' {
            lemma_art_dots_nonneg(s.drop_first(), x, y);
            assert(art_dots(s, x, y) == art_dots(s.drop_first(), x, y));
        } else if c == '\n' {
            lemma_art_dots_nonneg(s.drop_first(), 0, y + 1);
            assert(art_dots(s, x, y) == art_dots(s.drop_first(), 0, y + 1));
        } else if c == '|' {
            lemma_art_dots_nonneg(s.drop_first(), 0, y);
            assert(art_dots(s, x, y) == art_dots(s.drop_first(), 0, y));
        } else if c == '-' {
            assert(art_dots(s, x, y) =~= Set::<(int, int)>::empty());
        } else {
            lemma_art_dots_nonneg(s.drop_first(), x + 1, y);
            assert(art_dots(s, x, y) == art_dots(s.drop_first(), x + 1, y).insert((x, y)));
            assert forall|d: (int, int)| #[trigger] art_dots(s, x, y).contains(d) implies 0
                <= d.0 && 0 <= d.1 by {
                if d != (x, y) {
                    assert(art_dots(s.drop_first(), x + 1, y).contains(d));
                }
            }
        }
    }
}

/// No frame of a text-art string holds a negative dot.
pub proof fn lemma_art_frames_nonneg(s: Seq<char>)
    ensures
        forall|k: int, d: (int, int)|
            0 <= k < art_frames(s).len() && #[trigger] art_frames(s)[k].contains(d) ==> 0
                <= d.0 && 0 <= d.1,
    decreases s.len(),
{
    if s.len() > 0 {
        lemma_art_dots_nonneg(s, 0, 0);
        lemma_art_rest_shorter(s);
        lemma_art_frames_nonneg(art_rest(s));
        assert forall|k: int, d: (int, int)|
            0 <= k < art_frames(s).len() && #[trigger] art_frames(s)[k].contains(d)
            implies 0 <= d.0 && 0 <= d.1 by {
            if k == 0 {
                assert(art_frames(s)[0] == art_dots(s, 0, 0));
            } else {
                assert(art_frames(s)[k] == art_frames(art_rest(s))[k - 1]);
            }
        }
    }
}

} // verus!
