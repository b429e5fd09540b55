use vstd::prelude::*;

use crate::braille;
use crate::braille::{dot_mask, spec_clean_dot, spec_set_dot};
use crate::canvas::Canvas;
use crate::position::IndexType;

verus! {

/// The terminal-resolution grid of bit groups.  Each group packs a 2 by 4
/// block of dots into one glyph cell; the grid is column-major, so
/// `area[gx][gy]` is the group of dot column `2 * gx` and dot row `4 * gy`.
pub struct BrailleCanvas {
    area: Vec<Vec<u8>>,
}

impl BrailleCanvas {
    /// The packed groups, column by column.
    pub closed spec fn grid(&self) -> Seq<Seq<u8>> {
        self.area@.map_values(|c: Vec<u8>| c@)
    }

    /// The number of group columns.
    pub open spec fn g_cols(&self) -> int {
        self.grid().len() as int
    }

    /// The number of group rows.
    pub open spec fn g_rows(&self) -> int {
        if self.g_cols() > 0 {
            self.grid()[0].len() as int
        } else {
            0
        }
    }

    /// The sub-cell bit index of dot `(x, y)` within its group.
    pub open spec fn sub_id(x: int, y: int) -> int {
        (x % 2) * 4 + (y % 4)
    }

    /// Whether the bit of dot `(x, y)` is set in the grid `g`.
    pub open spec fn bit_at(g: Seq<Seq<u8>>, x: int, y: int) -> bool {
        g[x / 2][y / 4] & dot_mask(Self::sub_id(x, y)) != 0
    }

    /// Allocate a grid covering `x` dot columns and `y` dot rows, cleared.
    pub fn new(x: usize, y: usize) -> (r: BrailleCanvas)
        ensures
            r.inv(),
            r.g_cols() == x as int / 2 + x as int % 2,
            r.g_rows() == if x as int / 2 + x as int % 2 > 0 {
                y as int / 4 + (if y as int % 4 == 0 {
                    0int
                } else {
                    1int
                })
            } else {
                0int
            },
            forall|i: int, j: int|
                0 <= i < r.g_cols() && 0 <= j < r.g_rows() ==> r.grid()[i][j] == 0,
            r.dots() == Set::<(int, int)>::empty(),
    {
        let x_fix = x / 2 + x % 2;
        let y_fix = y / 4 + if y % 4 == 0 {
            0
        } else {
            1
        };
        let e_val = braille::empty();
        let mut area: Vec<Vec<u8>> = Vec::new();
        let mut i: usize = 0;
        while i < x_fix
            invariant
                i <= x_fix,
                e_val == 0,
                area@.len() == i,
                forall|k: int| 0 <= k < i ==> #[trigger] area@[k]@.len() == y_fix,
                forall|k: int, j: int|
                    0 <= k < i && 0 <= j < y_fix ==> #[trigger] area@[k]@[j] == 0,
            decreases x_fix - i,
        {
            let mut row: Vec<u8> = Vec::new();
            let mut j: usize = 0;
            while j < y_fix
                invariant
                    j <= y_fix,
                    e_val == 0,
                    row@.len() == j,
                    forall|k: int| 0 <= k < j ==> row@[k] == 0,
                decreases y_fix - j,
            {
                row.push(e_val);
                j = j + 1;
            }
            area.push(row);
            i = i + 1;
        }
        let r = BrailleCanvas { area };
        proof {
            assert(forall|k: int|
                0 <= k < r.grid().len() ==> #[trigger] r.grid()[k] == r.area@[k]@);
            assert forall|q: (int, int)| !(#[trigger] r.dots().contains(q)) by {
                if 0 <= q.0 && 0 <= q.1 && q.0 / 2 < r.g_cols() && q.1 / 4 < r.g_rows() {
                    assert(r.grid()[q.0 / 2] == r.area@[q.0 / 2]@);
                    assert(r.area@[q.0 / 2]@[q.1 / 4] == 0);
                    let m = dot_mask(Self::sub_id(q.0, q.1));
                    assert((0u8 & m) == 0) by (bit_vector);
                }
            }
            assert(r.dots() =~= Set::<(int, int)>::empty());
        }
        r
    }

    /// Borrow the packed groups for rendering.
    pub fn area(&self) -> (r: &Vec<Vec<u8>>)
        ensures
            r@.map_values(|c: Vec<u8>| c@) == self.grid(),
    {
        &self.area
    }
}

impl Canvas for BrailleCanvas {
    closed spec fn dots(&self) -> Set<(int, int)> {
        Set::new(
            |q: (int, int)|
                0 <= q.0 && 0 <= q.1 && q.0 / 2 < self.g_cols() && q.1 / 4 < self.g_rows()
                    && Self::bit_at(self.grid(), q.0, q.1),
        )
    }

    open spec fn covers(&self, x: int, y: int) -> bool {
        0 <= x && 0 <= y && x / 2 < self.g_cols() && y / 4 < self.g_rows()
    }

    /// The extent never changes, so the largest drawable coordinate serves
    /// as the tracked upper bound.
    open spec fn bound(&self) -> (int, int) {
        (2 * self.g_cols() - 1, 4 * self.g_rows() - 1)
    }

    closed spec fn inv(&self) -> bool {
        forall|k: int|
            0 <= k < self.grid().len() ==> #[trigger] self.grid()[k].len() == self.g_rows()
    }

    fn draw_dot(&mut self, x: IndexType, y: IndexType) -> (r: bool)
        ensures
            r ==> final(self).grid() == old(self).grid().update(
                x as int / 2,
                old(self).grid()[x as int / 2].update(
                    y as int / 4,
                    spec_set_dot(
                        old(self).grid()[x as int / 2][y as int / 4],
                        x as int % 2,
                        y as int % 4,
                    ),
                ),
            ),
            !r ==> final(self).grid() == old(self).grid(),
            final(self).g_cols() == old(self).g_cols(),
            final(self).g_rows() == old(self).g_rows(),
    {
        if x >= 0 && y >= 0 {
            let ux = x as usize;
            let uy = y as usize;
            let fx = ux / 2;
            let fy = uy / 4;
            if fx < self.area.len() && fy < self.area[fx].len() {
                proof {
                    assert(self.grid()[fx as int] == self.area@[fx as int]@);
                }
                let value = self.area[fx][fy];
                let nv = braille::set_dot(value, ux % 2, uy % 4);
                self.area[fx][fy] = nv;
                proof {
                    let g0 = old(self).grid();
                    let g1 = self.grid();
                    let gx = x as int / 2;
                    let gy = y as int / 4;
                    let xi = x as int;
                    let yi = y as int;
                    assert(g1 =~= g0.update(gx, g0[gx].update(gy, nv)));
                    assert(self.g_rows() == old(self).g_rows());
                    assert(old(self).covers(xi, yi));
                    assert(0 <= Self::sub_id(xi, yi) < 8);
                    assert forall|q: (int, int)|
                        self.dots().contains(q) <==> old(self).dots().contains(q) || q == (
                        xi,
                        yi,
                    ) by {
                        if 0 <= q.0 && 0 <= q.1 && q.0 / 2 < self.g_cols() && q.1 / 4
                            < self.g_rows() {
                            let qgx = q.0 / 2;
                            let qgy = q.1 / 4;
                            assert(0 <= Self::sub_id(q.0, q.1) < 8);
                            if qgx == gx && qgy == gy {
                                braille::lemma_mask_ops(
                                    g0[gx][gy],
                                    Self::sub_id(xi, yi),
                                    Self::sub_id(q.0, q.1),
                                );
                                if Self::sub_id(q.0, q.1) == Self::sub_id(xi, yi) {
                                    assert(q.0 % 2 == xi % 2 && q.1 % 4 == yi % 4);
                                    assert(q.0 == 2 * qgx + q.0 % 2);
                                    assert(xi == 2 * gx + xi % 2);
                                    assert(q.1 == 4 * qgy + q.1 % 4);
                                    assert(yi == 4 * gy + yi % 4);
                                    assert(q == (xi, yi));
                                    assert(g1[gx][gy] == (g0[gx][gy] | dot_mask(
                                        Self::sub_id(xi, yi),
                                    )));
                                    assert(Self::bit_at(g1, q.0, q.1));
                                } else {
                                    assert(g1[qgx][qgy] == (g0[gx][gy] | dot_mask(
                                        Self::sub_id(xi, yi),
                                    )));
                                    assert(Self::bit_at(g1, q.0, q.1) == Self::bit_at(
                                        g0,
                                        q.0,
                                        q.1,
                                    ));
                                }
                            } else {
                                if qgx == gx {
                                    assert(g1[gx] == g0[gx].update(gy, nv));
                                    assert(g1[qgx][qgy] == g0[qgx][qgy]);
                                } else {
                                    assert(g1[qgx] == g0[qgx]);
                                    assert(g1[qgx][qgy] == g0[qgx][qgy]);
                                }
                            }
                        }
                    }
                    assert(self.dots() =~= old(self).dots().insert((xi, yi)));
                }
                return true;
            }
        }
        false
    }

    fn clean_dot(&mut self, x: IndexType, y: IndexType) -> (r: bool)
        ensures
            r ==> final(self).grid() == old(self).grid().update(
                x as int / 2,
                old(self).grid()[x as int / 2].update(
                    y as int / 4,
                    spec_clean_dot(
                        old(self).grid()[x as int / 2][y as int / 4],
                        x as int % 2,
                        y as int % 4,
                    ),
                ),
            ),
            !r ==> final(self).grid() == old(self).grid(),
            final(self).g_cols() == old(self).g_cols(),
            final(self).g_rows() == old(self).g_rows(),
    {
        if x >= 0 && y >= 0 {
            let ux = x as usize;
            let uy = y as usize;
            let fx = ux / 2;
            let fy = uy / 4;
            if fx < self.area.len() && fy < self.area[fx].len() {
                proof {
                    assert(self.grid()[fx as int] == self.area@[fx as int]@);
                }
                let value = self.area[fx][fy];
                let nv = braille::clean_dot(value, ux % 2, uy % 4);
                self.area[fx][fy] = nv;
                proof {
                    let g0 = old(self).grid();
                    let g1 = self.grid();
                    let gx = x as int / 2;
                    let gy = y as int / 4;
                    let xi = x as int;
                    let yi = y as int;
                    assert(g1 =~= g0.update(gx, g0[gx].update(gy, nv)));
                    assert(self.g_rows() == old(self).g_rows());
                    assert(old(self).covers(xi, yi));
                    assert(0 <= Self::sub_id(xi, yi) < 8);
                    assert forall|q: (int, int)|
                        self.dots().contains(q) <==> old(self).dots().contains(q) && q != (
                        xi,
                        yi,
                    ) by {
                        if 0 <= q.0 && 0 <= q.1 && q.0 / 2 < self.g_cols() && q.1 / 4
                            < self.g_rows() {
                            let qgx = q.0 / 2;
                            let qgy = q.1 / 4;
                            assert(0 <= Self::sub_id(q.0, q.1) < 8);
                            if qgx == gx && qgy == gy {
                                braille::lemma_mask_ops(
                                    g0[gx][gy],
                                    Self::sub_id(xi, yi),
                                    Self::sub_id(q.0, q.1),
                                );
                                if Self::sub_id(q.0, q.1) == Self::sub_id(xi, yi) {
                                    assert(q.0 % 2 == xi % 2 && q.1 % 4 == yi % 4);
                                    assert(q.0 == 2 * qgx + q.0 % 2);
                                    assert(xi == 2 * gx + xi % 2);
                                    assert(q.1 == 4 * qgy + q.1 % 4);
                                    assert(yi == 4 * gy + yi % 4);
                                    assert(q == (xi, yi));
                                    assert(g1[gx][gy] == (g0[gx][gy] & !dot_mask(
                                        Self::sub_id(xi, yi),
                                    )));
                                    assert(!Self::bit_at(g1, q.0, q.1));
                                } else {
                                    assert(g1[qgx][qgy] == (g0[gx][gy] & !dot_mask(
                                        Self::sub_id(xi, yi),
                                    )));
                                    assert(Self::bit_at(g1, q.0, q.1) == Self::bit_at(
                                        g0,
                                        q.0,
                                        q.1,
                                    ));
                                }
                            } else {
                                if qgx == gx {
                                    assert(g1[gx] == g0[gx].update(gy, nv));
                                    assert(g1[qgx][qgy] == g0[qgx][qgy]);
                                } else {
                                    assert(g1[qgx] == g0[qgx]);
                                    assert(g1[qgx][qgy] == g0[qgx][qgy]);
                                }
                            }
                        }
                    }
                    assert(self.dots() =~= old(self).dots().remove((xi, yi)));
                }
                return true;
            }
        }
        false
    }
}

/// One changed glyph cell: its grid column, its grid row, and the packed
/// group value to show there.
pub type DiffCell = (usize, usize, u8);

/// The view of one diff entry.
pub open spec fn diff_cell_view(c: DiffCell) -> (int, int, u8) {
    (c.0 as int, c.1 as int, c.2)
}

/// The views of a list of diff entries.
pub open spec fn diff_view(s: Seq<DiffCell>) -> Seq<(int, int, u8)> {
    s.map_values(|c: DiffCell| diff_cell_view(c))
}

/// The changed cells of one grid column, rows `0..j`, in row order.
pub open spec fn spec_diff_col(
    lcol: Seq<u8>,
    ccol: Seq<u8>,
    force: bool,
    i: int,
    j: int,
) -> Seq<(int, int, u8)>
    decreases j,
{
    if j <= 0 {
        Seq::empty()
    } else {
        spec_diff_col(lcol, ccol, force, i, j - 1) + (if force || ccol[j - 1] != lcol[j - 1] {
            seq![(i, j - 1, ccol[j - 1])]
        } else {
            Seq::empty()
        })
    }
}

/// The changed cells of the columns `0..i`, column-major, row-minor.
pub open spec fn spec_diff(
    lg: Seq<Seq<u8>>,
    cg: Seq<Seq<u8>>,
    force: bool,
    i: int,
    rows: int,
) -> Seq<(int, int, u8)>
    decreases i,
{
    if i <= 0 {
        Seq::empty()
    } else {
        spec_diff(lg, cg, force, i - 1, rows) + spec_diff_col(lg[i - 1], cg[i - 1], force, i - 1, rows)
    }
}

/// Compare two equally sized canvases group by group and collect, in
/// column-major order, every cell whose packed value changed — or every
/// cell at all when a full redraw is forced.  Each entry carries the
/// current packed value; `to_char` turns it into its display glyph.
pub fn diff_cells(last: &BrailleCanvas, current: &BrailleCanvas, force: bool) -> (res: Vec<
    DiffCell,
>)
    requires
        last.inv(),
        current.inv(),
        last.g_cols() == current.g_cols(),
        last.g_rows() == current.g_rows(),
    ensures
        diff_view(res@) == spec_diff(
            last.grid(),
            current.grid(),
            force,
            current.g_cols(),
            current.g_rows(),
        ),
{
    let mut res: Vec<DiffCell> = Vec::new();
    let cols = current.area.len();
    let mut i: usize = 0;
    proof {
        assert(diff_view(res@) =~= Seq::<(int, int, u8)>::empty());
    }
    while i < cols
        invariant
            last.inv(),
            current.inv(),
            last.g_cols() == current.g_cols(),
            last.g_rows() == current.g_rows(),
            cols == current.g_cols(),
            i <= cols,
            diff_view(res@) == spec_diff(
                last.grid(),
                current.grid(),
                force,
                i as int,
                current.g_rows(),
            ),
        decreases cols - i,
    {
        let rows = current.area[i].len();
        proof {
            assert(current.grid()[i as int] == current.area@[i as int]@);
            assert(rows == current.g_rows());
        }
        let mut j: usize = 0;
        proof {
            assert(spec_diff_col(
                last.grid()[i as int],
                current.grid()[i as int],
                force,
                i as int,
                0,
            ) =~= Seq::<(int, int, u8)>::empty());
            assert(diff_view(res@) =~= spec_diff(
                last.grid(),
                current.grid(),
                force,
                i as int,
                current.g_rows(),
            ) + spec_diff_col(
                last.grid()[i as int],
                current.grid()[i as int],
                force,
                i as int,
                0,
            ));
        }
        while j < rows
            invariant
                last.inv(),
                current.inv(),
                last.g_cols() == current.g_cols(),
                last.g_rows() == current.g_rows(),
                cols == current.g_cols(),
                rows == current.g_rows(),
                i < cols,
                j <= rows,
                diff_view(res@) == spec_diff(
                    last.grid(),
                    current.grid(),
                    force,
                    i as int,
                    current.g_rows(),
                ) + spec_diff_col(
                    last.grid()[i as int],
                    current.grid()[i as int],
                    force,
                    i as int,
                    j as int,
                ),
            decreases rows - j,
        {
            proof {
                assert(current.grid()[i as int] == current.area@[i as int]@);
                assert(last.grid()[i as int] == last.area@[i as int]@);
                assert(last.grid()[i as int].len() == last.g_rows());
            }
            let cur_v = current.area[i][j];
            let last_v = last.area[i][j];
            let ghost pre = res@;
            if cur_v != last_v || force {
                res.push((i, j, cur_v));
                proof {
                    assert(res@ =~= pre.push((i, j, cur_v)));
                    assert(diff_view(res@) =~= diff_view(pre).push(
                        (i as int, j as int, cur_v),
                    ));
                }
            }
            proof {
                assert(diff_view(res@) =~= spec_diff(
                    last.grid(),
                    current.grid(),
                    force,
                    i as int,
                    current.g_rows(),
                ) + spec_diff_col(
                    last.grid()[i as int],
                    current.grid()[i as int],
                    force,
                    i as int,
                    j as int + 1,
                ));
            }
            j = j + 1;
        }
        proof {
            assert(diff_view(res@) =~= spec_diff(
                last.grid(),
                current.grid(),
                force,
                i as int + 1,
                current.g_rows(),
            ));
        }
        i = i + 1;
    }
    res
}

} // verus!
