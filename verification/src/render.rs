//! What painting a grid amounts to: an ordered list of filled rectangles.

use crate::cell::Cell;
use crate::grid::{lemma_cell_in_board, Grid, GridView};
use vstd::arithmetic::div_mod::{lemma_fundamental_div_mod, lemma_mod_pos_bound};
use vstd::prelude::*;

verus! {

/// The colour of the grid lines, as red, green and blue.
pub const LINE_COLOR: (u8, u8, u8) = (0, 0, 0);

/// The colour of a live cell.
pub const LIVE_COLOR: (u8, u8, u8) = (0, 0, 122);

/// The colour that the surface is cleared to before a frame is painted.
pub const BACKGROUND_COLOR: (u8, u8, u8) = (127, 127, 127);

/// One rectangle to fill: its colour, its top-left corner and its size.
#[derive(Clone, Copy, Debug)]
pub struct Fill {
    pub color: (u8, u8, u8),
    pub x: i32,
    pub y: i32,
    pub width: u32,
    pub height: u32,
}

/// Whether any cell is alive.
pub open spec fn any_alive(cells: Seq<Cell>) -> bool {
    exists|k: int| 0 <= k < cells.len() && (#[trigger] cells[k]).state
}

impl GridView {
    /// The line along the upper edge of row `row`, across the full width.
    pub open spec fn horizontal_line(self, row: int) -> Fill {
        Fill {
            color: LINE_COLOR,
            x: 0,
            y: (row * self.y_pad) as i32,
            width: self.width as u32,
            height: self.line_weight as u32,
        }
    }

    /// The line along the left edge of column `column`, over the full height.
    pub open spec fn vertical_line(self, column: int) -> Fill {
        Fill {
            color: LINE_COLOR,
            x: (column * self.x_pad) as i32,
            y: 0,
            width: self.line_weight as u32,
            height: self.height as u32,
        }
    }

    /// The rectangle of a live cell: what its padding leaves free of the
    /// lines above it and to its left.
    pub open spec fn cell_fill(self, cell: Cell) -> Fill {
        Fill {
            color: LIVE_COLOR,
            x: (cell.position.0 * self.x_pad + self.line_weight) as i32,
            y: (cell.position.1 * self.y_pad + self.line_weight) as i32,
            width: (self.x_pad - self.line_weight) as u32,
            height: (self.y_pad - self.line_weight) as u32,
        }
    }

    /// The grid lines: one more horizontal line than there are rows, then
    /// one more vertical line than there are columns.
    pub open spec fn line_fills(self) -> Seq<Fill> {
        Seq::new((self.y_cells + 1) as nat, |row: int| self.horizontal_line(row)) + Seq::new(
            (self.x_cells + 1) as nat,
            |column: int| self.vertical_line(column),
        )
    }

    /// The rectangles of the live cells among the first `n` cells, in
    /// array order.
    pub open spec fn live_fills(self, n: int) -> Seq<Fill>
        decreases n,
    {
        if n <= 0 {
            Seq::empty()
        } else if self.cells[n - 1].state {
            self.live_fills(n - 1).push(self.cell_fill(self.cells[n - 1]))
        } else {
            self.live_fills(n - 1)
        }
    }

    /// Everything that is painted, in the order of painting: the lines,
    /// then the live cells.
    pub open spec fn draw_list(self) -> Seq<Fill> {
        self.line_fills() + self.live_fills(self.cells.len() as int)
    }

    /// The pixel coordinates fit a signed 32-bit number, and where a cell
    /// is alive the lines are no thicker than a cell is wide or high.
    pub open spec fn can_draw(self) -> bool {
        &&& self.width <= i32::MAX
        &&& self.height <= i32::MAX
        &&& any_alive(self.cells) ==> self.line_weight <= self.x_pad && self.line_weight
            <= self.y_pad
    }

    /// The pixel coordinates fit a signed 32-bit number and the lines are
    /// no thicker than a cell is wide or high: the grid can be painted
    /// whichever of its cells are alive.
    pub open spec fn fits(self) -> bool {
        &&& self.width <= i32::MAX
        &&& self.height <= i32::MAX
        &&& self.line_weight <= self.x_pad
        &&& self.line_weight <= self.y_pad
    }

    /// A grid that fits can be painted now and in every later generation.
    pub proof fn lemma_fits_in_every_generation(self)
        requires
            self.fits(),
        ensures
            self.can_draw(),
            self.stepped().fits(),
    {
    }
}

/// Up to `count` cells of `size / count` pixels each fit in `size` pixels.
pub proof fn lemma_pad_fits(size: int, count: int, j: int)
    requires
        0 <= size,
        0 < count,
        0 <= j <= count,
    ensures
        0 <= j * (size / count) <= size,
{
    lemma_fundamental_div_mod(size, count);
    lemma_mod_pos_bound(size, count);
    let pad = size / count;
    assert(0 <= j * pad <= size) by (nonlinear_arith)
        requires
            0 <= size,
            0 < count,
            0 <= j <= count,
            size == count * pad + size % count,
            0 <= size % count,
    ;
}

impl Grid {
    /// Whether the grid can be painted whichever of its cells are alive.
    pub fn fits(&self) -> (ok: bool)
        ensures
            ok == self@.fits(),
    {
        self.width() <= i32::MAX as u32 && self.height() <= i32::MAX as u32 && self.line_weight()
            <= self.x_pad() && self.line_weight() <= self.y_pad()
    }

    /// Lists what is painted for this grid, in the order of painting.
    pub fn draw(&self) -> (fills: Vec<Fill>)
        requires
            self@.can_draw(),
        ensures
            fills@ == self@.draw_list(),
    {
        proof {
            use_type_invariant(self);
        }
        let width: u32 = self.width();
        let height: u32 = self.height();
        let x_pad: u32 = self.x_pad();
        let y_pad: u32 = self.y_pad();
        let x_cells: u32 = self.x_cells();
        let y_cells: u32 = self.y_cells();
        let line_weight: u32 = self.line_weight();
        let cells: &Vec<Cell> = self.cells();
        let ghost view = self@;
        let mut lines: Vec<Fill> = Vec::new();
        let mut j: u32 = 0;
        loop
            invariant_except_break
                j <= y_cells,
                lines@ == Seq::new(j as nat, |row: int| view.horizontal_line(row)),
            invariant
                view.wf(),
                view.can_draw(),
                view.width == width,
                view.y_pad == y_pad,
                view.height == height,
                view.y_cells == y_cells,
                view.line_weight == line_weight,
            ensures
                lines@ == Seq::new((y_cells + 1) as nat, |row: int| view.horizontal_line(row)),
            decreases y_cells - j,
        {
            proof {
                lemma_pad_fits(height as int, y_cells as int, j as int);
            }
            lines.push(
                Fill { color: LINE_COLOR, x: 0, y: (j * y_pad) as i32, width, height: line_weight },
            );
            assert(lines@ =~= Seq::new((j + 1) as nat, |row: int| view.horizontal_line(row)));
            if j == y_cells {
                break ;
            }
            j += 1;
        }
        let ghost horizontal = lines@;
        let mut i: u32 = 0;
        loop
            invariant_except_break
                i <= x_cells,
                lines@ == horizontal + Seq::new(i as nat, |column: int| view.vertical_line(column)),
            invariant
                view.wf(),
                view.can_draw(),
                view.width == width,
                view.x_pad == x_pad,
                view.height == height,
                view.x_cells == x_cells,
                view.line_weight == line_weight,
            ensures
                lines@ == horizontal + Seq::new(
                    (x_cells + 1) as nat,
                    |column: int| view.vertical_line(column),
                ),
            decreases x_cells - i,
        {
            proof {
                lemma_pad_fits(width as int, x_cells as int, i as int);
            }
            lines.push(
                Fill { color: LINE_COLOR, x: (i * x_pad) as i32, y: 0, width: line_weight, height },
            );
            assert(lines@ =~= horizontal + Seq::new(
                (i + 1) as nat,
                |column: int| view.vertical_line(column),
            ));
            if i == x_cells {
                break ;
            }
            i += 1;
        }
        let mut fills: Vec<Fill> = lines;
        let mut k: usize = 0;
        while k < cells.len()
            invariant
                k <= cells.len(),
                cells@ == view.cells,
                view.wf(),
                view.can_draw(),
                view.x_pad == x_pad,
                view.y_pad == y_pad,
                view.line_weight == line_weight,
                fills@ == view.line_fills() + view.live_fills(k as int),
            decreases cells.len() - k,
        {
            let cell: Cell = cells[k];
            if cell.state == true {
                proof {
                    lemma_cell_in_board(view.x_cells, view.y_cells, k as int);
                    lemma_pad_fits(view.width, view.x_cells, cell.position.0 + 1);
                    lemma_pad_fits(view.height, view.y_cells, cell.position.1 + 1);
                    assert((cell.position.0 + 1) * x_pad == cell.position.0 * x_pad + x_pad
                        && (cell.position.1 + 1) * y_pad == cell.position.1 * y_pad + y_pad
                        && 0 <= cell.position.0 * x_pad && 0 <= cell.position.1 * y_pad)
                        by (nonlinear_arith);
                }
                fills.push(
                    Fill {
                        color: LIVE_COLOR,
                        x: (cell.position.0 * x_pad + line_weight) as i32,
                        y: (cell.position.1 * y_pad + line_weight) as i32,
                        width: x_pad - line_weight,
                        height: y_pad - line_weight,
                    },
                );
            }
            assert(fills@ =~= view.line_fills() + view.live_fills(k + 1));
            k += 1;
        }
        fills
    }
}

} // verus!
