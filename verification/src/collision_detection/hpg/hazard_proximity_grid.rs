//! The grid of cells laid over a bin's bounding box.

use vstd::prelude::*;
use vstd::arithmetic::div_mod::{lemma_fundamental_div_mod, lemma_fundamental_div_mod_converse};
use crate::collision_detection::hazard::{Hazard, HazardEntity};
use crate::collision_detection::hpg::hpg_cell::{
    first_rejection,
    nearest_of,
    qz_fold,
    rejection,
    static_uni_fold,
    HPGCell,
    HPGCellUpdate,
    HazardRejected,
};
use crate::entities::quality_zone::N_QUALITIES;
use crate::geometry::aa_rectangle::AARectangle;
use crate::geometry::arith::div_ceil_u128;
use crate::geometry::point::Point;

verus! {

/// Largest number of cells of a grid.
pub const MAX_CELLS: u64 = 4_194_304;

/// The side of the cells of a grid over a box of the given width and height:
/// `side`, doubled until the grid has no more than `MAX_CELLS` cells.
pub open spec fn fit_side(w: int, h: int, side: int) -> int
    decreases 0x2_0000_0000 - side,
{
    if 1 <= side <= 0x8000_0000 && (w / side + 1) * (h / side + 1) > MAX_CELLS {
        fit_side(w, h, 2 * side)
    } else {
        side
    }
}

/// The side of a square whose area is the `n`-th part of `area`, rounded up,
/// and at least one.
pub open spec fn target_side(area: int, n: int) -> int {
    let s = crate::geometry::arith::ceil_root(crate::geometry::arith::ceil_div(area, n));
    if s < 1 {
        1
    } else {
        s
    }
}

/// The cell holds, of the hazards of the bin, the nearest that holds for
/// every item and, for each quality, the proximity of the nearest zone.
pub open spec fn cell_of_bin(cell: HPGCell, hazards: Seq<Hazard>) -> bool {
    &&& cell.static_uni_prox.0 == static_uni_fold(hazards, cell.centroid, hazards.len()).0
    &&& cell.static_uni_prox.1 == static_uni_fold(hazards, cell.centroid, hazards.len()).1
    &&& forall|q: int|
        0 <= q < N_QUALITIES ==> #[trigger] cell.qz_prox[q] == qz_fold(
            hazards,
            cell.centroid,
            q,
            hazards.len(),
        )
}

/// A grid of cells over a box, row by row from the lower left.
#[derive(Debug)]
pub struct HazardProximityGrid {
    pub bbox: AARectangle,
    pub cells: Vec<HPGCell>,
    pub n_rows: usize,
    pub n_cols: usize,
    /// The side of a cell; the cells of the last row and column end with the
    /// box.
    pub cell_side: i64,
}

/// The smaller of two machine integers.
pub open spec fn min_i64(a: int, b: int) -> int {
    if a <= b {
        a
    } else {
        b
    }
}

impl HazardProximityGrid {
    /// The box of the cell in the given row and column.
    pub open spec fn cell_bbox(self, row: int, col: int) -> AARectangle {
        let x0 = self.bbox.x_min + col * self.cell_side;
        let y0 = self.bbox.y_min + row * self.cell_side;
        AARectangle {
            x_min: x0 as i64,
            y_min: y0 as i64,
            x_max: min_i64(x0 + self.cell_side, self.bbox.x_max as int) as i64,
            y_max: min_i64(y0 + self.cell_side, self.bbox.y_max as int) as i64,
        }
    }

    /// The grid has the rows and columns that its cell side gives, and each
    /// cell is the cell of its box.
    pub open spec fn wf(&self) -> bool {
        &&& self.bbox.wf()
        &&& 1 <= self.cell_side <= 0x1_0000_0000
        &&& self.n_cols == self.bbox.spec_width() / (self.cell_side as int) + 1
        &&& self.n_rows == self.bbox.spec_height() / (self.cell_side as int) + 1
        &&& self.cells@.len() == self.n_rows * self.n_cols
        &&& self.n_rows * self.n_cols <= MAX_CELLS
        &&& forall|k: int|
            0 <= k < self.cells@.len() ==> {
                &&& (#[trigger] self.cells@[k]).wf()
                &&& self.cells@[k].bbox == self.cell_bbox(
                    k / (self.n_cols as int),
                    k % (self.n_cols as int),
                )
            }
    }

    /// The grid over `bbox` with about `n_cells` square cells, for a bin
    /// with the given hazards.
    pub fn new(bbox: AARectangle, static_hazards: &[Hazard], n_cells: usize) -> (grid:
        HazardProximityGrid)
        requires
            bbox.wf(),
            n_cells >= 1,
            forall|i: int|
                0 <= i < static_hazards@.len() ==> (#[trigger] static_hazards@[i]).wf()
                    && !static_hazards@[i].entity.spec_dynamic(),
        ensures
            grid.wf(),
            grid.bbox == bbox,
            grid.cell_side == fit_side(
                bbox.spec_width(),
                bbox.spec_height(),
                target_side(bbox.spec_area(), n_cells as int),
            ),
            forall|k: int|
                0 <= k < grid.cells@.len() ==> (#[trigger] grid.cells@[k]).uni_prox
                    == grid.cells@[k].static_uni_prox && cell_of_bin(
                    grid.cells@[k],
                    static_hazards@,
                ),
    {
        let w: i64 = bbox.width();
        let h: i64 = bbox.height();
        let area: u64 = bbox.area();
        let per_cell: u128 = div_ceil_u128(area as u128, n_cells as u128);
        proof {
            assert(per_cell <= area) by (nonlinear_arith)
                requires
                    per_cell == crate::geometry::arith::ceil_div(area as int, n_cells as int),
                    n_cells >= 1,
                    area >= 0,
            ;
        }
        let root: i64 = crate::geometry::point::root_of(
            per_cell,
            crate::geometry::geo_enums::Rounding::Up,
        );
        let mut side: i64 = if root < 1 {
            1
        } else {
            root
        };
        let ghost side0 = side as int;
        let mut n_cols: u64 = (w / side) as u64 + 1;
        let mut n_rows: u64 = (h / side) as u64 + 1;
        proof {
            lemma_quotient_small(w as int, side as int);
            lemma_quotient_small(h as int, side as int);
            crate::geometry::arith::lemma_mul_bound(
                n_cols as int,
                n_rows as int,
                0x8000_0001,
                0x8000_0001,
            );
        }
        while n_cols * n_rows > MAX_CELLS
            invariant
                0 <= w <= 0x8000_0000,
                0 <= h <= 0x8000_0000,
                1 <= side <= 0x1_0000_0000,
                n_cols == w as int / side as int + 1,
                n_rows == h as int / side as int + 1,
                n_cols * n_rows <= 0x4000_0001_0000_0001,
                1 <= n_cols <= 0x8000_0001,
                1 <= n_rows <= 0x8000_0001,
                fit_side(w as int, h as int, side as int) == fit_side(w as int, h as int, side0),
            decreases 0x2_0000_0000 - side,
        {
            proof {
                if side > 0x8000_0000 {
                    assert(w as int / side as int == 0) by (nonlinear_arith)
                        requires
                            0 <= w < side,
                    ;
                    assert(h as int / side as int == 0) by (nonlinear_arith)
                        requires
                            0 <= h < side,
                    ;
                    assert(n_cols * n_rows == 1) by (nonlinear_arith)
                        requires
                            n_cols == 1,
                            n_rows == 1,
                    ;
                }
            }
            side = side * 2;
            n_cols = (w / side) as u64 + 1;
            n_rows = (h / side) as u64 + 1;
            proof {
                lemma_quotient_small(w as int, side as int);
                lemma_quotient_small(h as int, side as int);
                crate::geometry::arith::lemma_mul_bound(
                    n_cols as int,
                    n_rows as int,
                    0x8000_0001,
                    0x8000_0001,
                );
            }
        }
        let n: u64 = n_cols * n_rows;
        proof {
            assert(n_cols <= n && n_rows <= n) by (nonlinear_arith)
                requires
                    n == n_cols * n_rows,
                    n_cols >= 1,
                    n_rows >= 1,
            ;
            assert((n_rows as usize) * (n_cols as usize) == n) by (nonlinear_arith)
                requires
                    n == n_cols * n_rows,
                    n_cols as usize == n_cols,
                    n_rows as usize == n_rows,
            ;
        }
        let mut grid: HazardProximityGrid = HazardProximityGrid {
            bbox,
            cells: Vec::new(),
            n_rows: n_rows as usize,
            n_cols: n_cols as usize,
            cell_side: side,
        };
        let mut k: u64 = 0;
        while k < n
            invariant
                k <= n,
                n == n_cols * n_rows,
                n <= MAX_CELLS,
                1 <= n_cols,
                1 <= n_rows,
                bbox.wf(),
                w == bbox.spec_width(),
                h == bbox.spec_height(),
                1 <= side <= 0x1_0000_0000,
                n_cols == w as int / side as int + 1,
                n_rows == h as int / side as int + 1,
                grid.bbox == bbox,
                grid.n_rows == n_rows,
                grid.n_cols == n_cols,
                grid.cell_side == side,
                grid.cells@.len() == k,
                forall|i: int|
                    0 <= i < static_hazards@.len() ==> (#[trigger] static_hazards@[i]).wf()
                        && !static_hazards@[i].entity.spec_dynamic(),
                forall|j: int|
                    0 <= j < k ==> {
                        &&& (#[trigger] grid.cells@[j]).wf()
                        &&& grid.cells@[j].bbox == grid.cell_bbox(
                            j / (n_cols as int),
                            j % (n_cols as int),
                        )
                        &&& grid.cells@[j].uni_prox == grid.cells@[j].static_uni_prox
                        &&& cell_of_bin(grid.cells@[j], static_hazards@)
                    },
            decreases n - k,
        {
            let row: u64 = k / n_cols;
            let col: u64 = k % n_cols;
            proof {
                lemma_cell_in_box(
                    w as int,
                    h as int,
                    side as int,
                    n_cols as int,
                    n_rows as int,
                    k as int,
                );
            }
            let x0: i64 = bbox.x_min + (col as i64) * side;
            let y0: i64 = bbox.y_min + (row as i64) * side;
            let x1: i64 = if x0 + side < bbox.x_max {
                x0 + side
            } else {
                bbox.x_max
            };
            let y1: i64 = if y0 + side < bbox.y_max {
                y0 + side
            } else {
                bbox.y_max
            };
            let cell_box: AARectangle = AARectangle { x_min: x0, y_min: y0, x_max: x1, y_max: y1 };
            let cell: HPGCell = HPGCell::new(cell_box, static_hazards);
            let ghost before = grid.cells@;
            grid.cells.push(cell);
            proof {
                assert forall|j: int| 0 <= j < k + 1 implies {
                    &&& (#[trigger] grid.cells@[j]).wf()
                    &&& grid.cells@[j].bbox == grid.cell_bbox(
                        j / (n_cols as int),
                        j % (n_cols as int),
                    )
                    &&& grid.cells@[j].uni_prox == grid.cells@[j].static_uni_prox
                    &&& cell_of_bin(grid.cells@[j], static_hazards@)
                } by {
                    if j < k {
                        assert(grid.cells@[j] == before[j]);
                    }
                }
            }
            k += 1;
        }
        grid
    }

    /// The position of the cell that holds `p`: cells are counted row by
    /// row from the lowest, and a point on the border of two cells belongs
    /// to the higher one.
    pub open spec fn spec_cell_index(&self, p: Point) -> int {
        let col = (p.0 - self.bbox.x_min) / (self.cell_side as int);
        let row = (p.1 - self.bbox.y_min) / (self.cell_side as int);
        row * self.n_cols + col
    }

    /// The cell that holds `p`, if `p` lies in the grid's box.
    pub fn cell_for(&self, p: &Point) -> (r: Option<&HPGCell>)
        requires
            self.wf(),
        ensures
            r.is_some() == self.bbox.spec_collides_with(*p),
            match r {
                Some(cell) => {
                    &&& 0 <= self.spec_cell_index(*p) < self.cells@.len()
                    &&& *cell == self.cells@[self.spec_cell_index(*p)]
                    &&& cell.wf()
                    &&& cell.bbox.spec_collides_with(*p)
                },
                None => true,
            },
    {
        if !self.bbox.collides_with(p) {
            None
        } else {
            let dx: i64 = p.0 - self.bbox.x_min;
            let dy: i64 = p.1 - self.bbox.y_min;
            let col: i64 = dx / self.cell_side;
            let row: i64 = dy / self.cell_side;
            proof {
                lemma_point_cell(
                    self.bbox.spec_width(),
                    self.bbox.spec_height(),
                    self.cell_side as int,
                    self.n_cols as int,
                    self.n_rows as int,
                    dx as int,
                    dy as int,
                );
            }
            let k: usize = (row as usize) * self.n_cols + (col as usize);
            let cell: &HPGCell = &self.cells[k];
            Some(cell)
        }
    }

    /// Registers a hazard that has appeared in every cell.
    pub fn register_hazard(&mut self, hazard: &Hazard) -> (r: Result<(), HazardRejected>)
        requires
            old(self).wf(),
            hazard.shape.wf(),
        ensures
            final(self).wf(),
            final(self).bbox == old(self).bbox,
            final(self).n_rows == old(self).n_rows,
            final(self).n_cols == old(self).n_cols,
            final(self).cell_side == old(self).cell_side,
            match r {
                Ok(_) => {
                    &&& rejection(*hazard).is_none()
                    &&& forall|k: int|
                        0 <= k < old(self).cells@.len() ==> #[trigger] final(self).cells@[k] == old(self).cells@[k].spec_register(
                            crate::collision_detection::hpg::hpg_cell::haz_prox(
                                *hazard,
                                old(self).cells@[k].centroid,
                            ),
                            hazard.entity,
                        ).0
                },
                Err(e) => rejection(*hazard) == Some(e) && final(self).cells@ == old(self).cells@,
            },
    {
        match HPGCell::check_hazard(hazard) {
            Some(e) => {
                return Err(e);
            },
            None => {},
        }
        let n: usize = self.cells.len();
        let mut k: usize = 0;
        while k < n
            invariant
                k <= n,
                n == old(self).cells@.len(),
                self.cells@.len() == n,
                self.bbox == old(self).bbox,
                self.n_rows == old(self).n_rows,
                self.n_cols == old(self).n_cols,
                self.cell_side == old(self).cell_side,
                old(self).wf(),
                hazard.shape.wf(),
                rejection(*hazard).is_none(),
                forall|j: int| k <= j < n ==> self.cells@[j] == old(self).cells@[j],
                forall|j: int|
                    0 <= j < k ==> {
                        &&& (#[trigger] self.cells@[j]).wf()
                        &&& self.cells@[j] == old(self).cells@[j].spec_register(
                            crate::collision_detection::hpg::hpg_cell::haz_prox(
                                *hazard,
                                old(self).cells@[j].centroid,
                            ),
                            hazard.entity,
                        ).0
                    },
            decreases n - k,
        {
            let mut cell: HPGCell = self.cells[k];
            assert(old(self).cells@[k as int].wf());
            let res: Result<HPGCellUpdate, HazardRejected> = cell.register_hazard(hazard);
            assert(res.is_ok());
            self.cells.set(k, cell);
            k += 1;
        }
        proof {
            assert forall|j: int| 0 <= j < self.cells@.len() implies {
                &&& (#[trigger] self.cells@[j]).wf()
                &&& self.cells@[j].bbox == self.cell_bbox(
                    j / (self.n_cols as int),
                    j % (self.n_cols as int),
                )
            } by {
                assert(old(self).cells@[j].wf());
                assert(old(self).cells@[j].bbox == old(self).cell_bbox(
                    j / (old(self).n_cols as int),
                    j % (old(self).n_cols as int),
                ));
            }
        }
        Ok(())
    }

    /// Takes the hazards of `to_deregister` out of every cell; `remaining`
    /// holds the hazards that stay.
    pub fn deregister_hazards(
        &mut self,
        to_deregister: &Vec<HazardEntity>,
        remaining: &[Hazard],
    ) -> (r: Result<(), HazardRejected>)
        requires
            old(self).wf(),
            forall|i: int| 0 <= i < remaining@.len() ==> (#[trigger] remaining@[i]).shape.wf(),
        ensures
            final(self).wf(),
            final(self).bbox == old(self).bbox,
            final(self).n_rows == old(self).n_rows,
            final(self).n_cols == old(self).n_cols,
            final(self).cell_side == old(self).cell_side,
            match r {
                Ok(_) => forall|k: int|
                    0 <= k < old(self).cells@.len() ==> if to_deregister@.contains(
                        old(self).cells@[k].uni_prox.1,
                    ) {
                        nearest_of(
                            HPGCell {
                                uni_prox: old(self).cells@[k].static_uni_prox,
                                ..old(self).cells@[k]
                            },
                            remaining@,
                            #[trigger] final(self).cells@[k],
                        )
                    } else {
                        final(self).cells@[k] == old(self).cells@[k]
                    },
                Err(e) => first_rejection(remaining@, remaining@.len()) == Some(e) && final(self).cells@ == old(self).cells@,
            },
    {
        let n: usize = self.cells.len();
        let ghost cells0 = self.cells@;
        let mut k: usize = 0;
        while k < n
            invariant
                k <= n,
                n == old(self).cells@.len(),
                cells0 == old(self).cells@,
                self.cells@.len() == n,
                self.bbox == old(self).bbox,
                self.n_rows == old(self).n_rows,
                self.n_cols == old(self).n_cols,
                self.cell_side == old(self).cell_side,
                old(self).wf(),
                forall|i: int| 0 <= i < remaining@.len() ==> (#[trigger] remaining@[i]).shape.wf(),
                forall|j: int| k <= j < n ==> self.cells@[j] == cells0[j],
                forall|j: int|
                    0 <= j < k ==> {
                        &&& (#[trigger] self.cells@[j]).wf()
                        &&& self.cells@[j].bbox == cells0[j].bbox
                        &&& if to_deregister@.contains(cells0[j].uni_prox.1) {
                            nearest_of(
                                HPGCell { uni_prox: cells0[j].static_uni_prox, ..cells0[j] },
                                remaining@,
                                self.cells@[j],
                            )
                        } else {
                            self.cells@[j] == cells0[j]
                        }
                    },
                forall|j: int|
                    0 <= j < k && to_deregister@.contains(cells0[j].uni_prox.1)
                        ==> first_rejection(remaining@, remaining@.len()).is_none(),
            decreases n - k,
        {
            let mut cell: HPGCell = self.cells[k];
            assert(cells0[k as int].wf());
            match cell.deregister_hazards(to_deregister, remaining) {
                Ok(_) => {
                    self.cells.set(k, cell);
                },
                Err(e) => {
                    proof {
                        assert forall|j: int| 0 <= j < k implies self.cells@[j] == cells0[j] by {
                            if to_deregister@.contains(cells0[j].uni_prox.1) {
                                assert(first_rejection(remaining@, remaining@.len()).is_none());
                            }
                        }
                        assert(self.cells@ =~= cells0);
                    }
                    return Err(e);
                },
            }
            k += 1;
        }
        proof {
            assert forall|j: int| 0 <= j < self.cells@.len() implies {
                &&& (#[trigger] self.cells@[j]).wf()
                &&& self.cells@[j].bbox == self.cell_bbox(
                    j / (self.n_cols as int),
                    j % (self.n_cols as int),
                )
            } by {
                assert(old(self).cells@[j].wf());
                assert(old(self).cells@[j].bbox == old(self).cell_bbox(
                    j / (old(self).n_cols as int),
                    j % (old(self).n_cols as int),
                ));
            }
        }
        Ok(())
    }
}

/// The quotient of a coordinate span by a cell side is no larger than the
/// span.
pub proof fn lemma_quotient_small(w: int, side: int)
    by (nonlinear_arith)
    requires
        0 <= w,
        1 <= side,
    ensures
        0 <= w / side <= w,
{
}

/// The `k`-th cell of a grid starts inside the grid's box.
pub proof fn lemma_cell_in_box(w: int, h: int, side: int, n_cols: int, n_rows: int, k: int)
    requires
        0 <= w,
        0 <= h,
        1 <= side,
        n_cols == w / side + 1,
        n_rows == h / side + 1,
        0 <= k < n_cols * n_rows,
    ensures
        0 <= k % n_cols < n_cols,
        0 <= k / n_cols < n_rows,
        0 <= (k % n_cols) * side <= w,
        0 <= (k / n_cols) * side <= h,
{
    lemma_quotient_small(w, side);
    lemma_quotient_small(h, side);
    let col = k % n_cols;
    let row = k / n_cols;
    lemma_fundamental_div_mod(k, n_cols);
    assert(0 <= col < n_cols) by (nonlinear_arith)
        requires
            col == k % n_cols,
            n_cols >= 1,
    ;
    assert(0 <= row < n_rows) by (nonlinear_arith)
        requires
            k == n_cols * row + col,
            0 <= col < n_cols,
            0 <= k < n_cols * n_rows,
            n_cols >= 1,
    ;
    lemma_fundamental_div_mod(w, side);
    lemma_fundamental_div_mod(h, side);
    assert(0 <= col * side <= w) by (nonlinear_arith)
        requires
            0 <= col <= w / side,
            w == side * (w / side) + w % side,
            0 <= w % side,
            side >= 1,
    {
        assert(w % side >= 0);
    }
    assert(0 <= row * side <= h) by (nonlinear_arith)
        requires
            0 <= row <= h / side,
            h == side * (h / side) + h % side,
            0 <= h % side,
            side >= 1,
    {
        assert(h % side >= 0);
    }
    assert(w % side >= 0 && h % side >= 0) by (nonlinear_arith)
        requires
            side >= 1,
    ;
}

/// A point of the grid's box, by its offsets from the lower left corner,
/// lies in the cell that the quotients of the offsets by the cell side name.
pub proof fn lemma_point_cell(
    w: int,
    h: int,
    side: int,
    n_cols: int,
    n_rows: int,
    dx: int,
    dy: int,
)
    requires
        0 <= dx <= w,
        0 <= dy <= h,
        1 <= side,
        n_cols == w / side + 1,
        n_rows == h / side + 1,
    ensures
        0 <= dx / side < n_cols,
        0 <= dy / side < n_rows,
        0 <= (dy / side) * n_cols + dx / side < n_rows * n_cols,
        ((dy / side) * n_cols + dx / side) / n_cols == dy / side,
        ((dy / side) * n_cols + dx / side) % n_cols == dx / side,
        (dx / side) * side <= dx < (dx / side) * side + side,
        (dy / side) * side <= dy < (dy / side) * side + side,
{
    let col = dx / side;
    let row = dy / side;
    lemma_fundamental_div_mod(dx, side);
    lemma_fundamental_div_mod(dy, side);
    assert(0 <= dx % side < side && 0 <= dy % side < side) by (nonlinear_arith)
        requires
            side >= 1,
    ;
    assert(col * side == side * col && row * side == side * row) by (nonlinear_arith);
    assert(0 <= col <= w / side) by (nonlinear_arith)
        requires
            col == dx / side,
            0 <= dx <= w,
            side >= 1,
    ;
    assert(0 <= row <= h / side) by (nonlinear_arith)
        requires
            row == dy / side,
            0 <= dy <= h,
            side >= 1,
    ;
    assert(0 <= row * n_cols + col < n_rows * n_cols) by (nonlinear_arith)
        requires
            0 <= row < n_rows,
            0 <= col < n_cols,
    ;
    lemma_fundamental_div_mod_converse(row * n_cols + col, n_cols, row, col);
}

} // verus!
