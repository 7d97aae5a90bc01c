//! The grid: a row-major array of cells with the geometry to paint it.

use crate::cell::{flip_cell, positions_of, states_of, Cell};
use crate::life::{
    all_dead, as_ints, candidate_indices, candidates, count_live, decide, draws_within,
    lemma_candidates_in_range, lemma_live_count_of_dead, lemma_toggled_is_seeded, live_count,
    next_generation, next_state, seeded, toggled,
};
use crate::random::random_index;
use vstd::arithmetic::div_mod::{
    lemma_fundamental_div_mod, lemma_fundamental_div_mod_converse, lemma_mod_pos_bound,
};
use vstd::prelude::*;

verus! {

/// `cells` holds one cell for each position of an `x_cells` by `y_cells`
/// board, row after row: the cell at index `k` sits in column
/// `k % x_cells` of row `k / x_cells`.
pub open spec fn row_major(cells: Seq<Cell>, x_cells: int, y_cells: int) -> bool {
    &&& cells.len() == x_cells * y_cells
    &&& forall|k: int|
        0 <= k < cells.len() ==> (#[trigger] cells[k]).position.0 == k % x_cells
            && cells[k].position.1 == k / x_cells
}

/// What a grid is: its geometry in pixels and its cells.
pub ghost struct GridView {
    pub width: int,
    pub height: int,
    pub x_pad: int,
    pub y_pad: int,
    pub x_cells: int,
    pub y_cells: int,
    pub line_weight: int,
    pub cells: Seq<Cell>,
}

/// The index, in a row-major array with `x_cells` columns, of the cell in
/// column `x` and row `y`.
pub open spec fn index_of(x: int, y: int, x_cells: int) -> int {
    y * x_cells + x
}

impl GridView {
    /// The padding is the truncated quotient of the pixel size by the cell
    /// count, and the cells are laid out row-major.
    pub open spec fn wf(self) -> bool {
        &&& 0 <= self.width <= u32::MAX
        &&& 0 <= self.height <= u32::MAX
        &&& 0 <= self.line_weight <= u32::MAX
        &&& self.x_cells > 0
        &&& self.y_cells > 0
        &&& self.x_cells * self.y_cells <= u32::MAX
        &&& row_major(self.cells, self.x_cells, self.y_cells)
        &&& self.x_pad == self.width / self.x_cells
        &&& self.y_pad == self.height / self.y_cells
    }

    /// The states of the cells, in array order.
    pub open spec fn states(self) -> Seq<bool> {
        states_of(self.cells)
    }

    /// The positions of the cells, in array order.
    pub open spec fn positions(self) -> Seq<(u32, u32)> {
        positions_of(self.cells)
    }

    /// The grid one generation on: every cell keeps its position and takes
    /// its next state.
    pub open spec fn stepped(self) -> GridView {
        GridView {
            cells: Seq::new(
                self.cells.len(),
                |k: int|
                    Cell {
                        position: self.cells[k].position,
                        state: next_generation(self.states(), self.positions(), self.x_cells)[k],
                    },
            ),
            ..self
        }
    }

    /// A step keeps a grid well formed.
    pub proof fn lemma_stepped_wf(self)
        requires
            self.wf(),
        ensures
            self.stepped().wf(),
    {
    }

    /// A grid without a live cell has none one generation on.
    pub proof fn lemma_dead_stays_dead(self)
        requires
            self.wf(),
            forall|k: int| 0 <= k < self.cells.len() ==> !(#[trigger] self.cells[k]).state,
        ensures
            self.stepped() == self,
    {
        let states = self.states();
        assert forall|k: int| 0 <= k < self.cells.len() implies self.stepped().cells[k]
            == self.cells[k] by {
            let x = self.cells[k].position.0 as int;
            let y = self.cells[k].position.1 as int;
            let picks = candidates(x, y, self.x_cells);
            lemma_cell_in_board(self.x_cells, self.y_cells, k);
            lemma_candidates_in_range(x, y, self.x_cells);
            assert forall|j: int| 0 <= j < picks.len() implies !states[#[trigger] picks[j]] by {
                assert(!self.cells[picks[j]].state);
            }
            lemma_live_count_of_dead(states, picks);
        }
        assert(self.stepped().cells =~= self.cells);
    }
}

/// A row-major board holds every position of the board once: the cell
/// of column `x` and row `y` stands at index `y * x_cells + x`, every cell
/// lies on the board, and no two cells share a position.
pub proof fn lemma_positions_cover(cells: Seq<Cell>, x_cells: int, y_cells: int)
    requires
        x_cells > 0,
        y_cells > 0,
        row_major(cells, x_cells, y_cells),
    ensures
        cells.len() == x_cells * y_cells,
        forall|k: int|
            0 <= k < cells.len() ==> (#[trigger] cells[k]).position.0 < x_cells
                && cells[k].position.1 < y_cells,
        forall|x: int, y: int|
            0 <= x < x_cells && 0 <= y < y_cells ==> 0 <= #[trigger] index_of(x, y, x_cells)
                < cells.len() && cells[index_of(x, y, x_cells)].position.0 == x && cells[index_of(
                x,
                y,
                x_cells,
            )].position.1 == y,
        forall|k1: int, k2: int|
            0 <= k1 < k2 < cells.len() ==> (#[trigger] cells[k1]).position != (
            #[trigger] cells[k2]).position,
{
    assert forall|k: int| 0 <= k < cells.len() implies (#[trigger] cells[k]).position.0 < x_cells
        && cells[k].position.1 < y_cells by {
        lemma_cell_in_board(x_cells, y_cells, k);
    }
    assert forall|x: int, y: int| 0 <= x < x_cells && 0 <= y < y_cells implies 0
        <= #[trigger] index_of(x, y, x_cells) < cells.len() && cells[index_of(
        x,
        y,
        x_cells,
    )].position.0 == x && cells[index_of(x, y, x_cells)].position.1 == y by {
        let k = index_of(x, y, x_cells);
        assert(0 <= y * x_cells && y * x_cells + x_cells <= x_cells * y_cells)
            by (nonlinear_arith)
            requires
                0 <= y < y_cells,
                x_cells > 0,
        ;
        lemma_fundamental_div_mod_converse(k, x_cells, y, x);
    }
    assert forall|k1: int, k2: int| 0 <= k1 < k2 < cells.len() implies (#[trigger] cells[k1]).position
        != (#[trigger] cells[k2]).position by {
        lemma_fundamental_div_mod(k1, x_cells);
        lemma_fundamental_div_mod(k2, x_cells);
    }
}

/// A board of cells with the pixel geometry to paint it. The cells are
/// kept row after row, and the padding is fixed by the pixel size and the
/// cell counts.
pub struct Grid {
    width: u32,
    height: u32,
    x_pad: u32,
    y_pad: u32,
    x_cells: u32,
    y_cells: u32,
    line_weight: u32,
    cells: Vec<Cell>,
}

impl View for Grid {
    type V = GridView;

    closed spec fn view(&self) -> GridView {
        GridView {
            width: self.width as int,
            height: self.height as int,
            x_pad: self.x_pad as int,
            y_pad: self.y_pad as int,
            x_cells: self.x_cells as int,
            y_cells: self.y_cells as int,
            line_weight: self.line_weight as int,
            cells: self.cells@,
        }
    }
}

impl Grid {
    /// Every grid is well formed.
    #[verifier::type_invariant]
    pub open spec fn inv(self) -> bool {
        self@.wf()
    }

    /// The width of the painted area in pixels.
    pub fn width(&self) -> (width: u32)
        ensures
            width == self@.width,
    {
        self.width
    }

    /// The height of the painted area in pixels.
    pub fn height(&self) -> (height: u32)
        ensures
            height == self@.height,
    {
        self.height
    }

    /// The width of one cell in pixels.
    pub fn x_pad(&self) -> (x_pad: u32)
        ensures
            x_pad == self@.x_pad,
    {
        self.x_pad
    }

    /// The height of one cell in pixels.
    pub fn y_pad(&self) -> (y_pad: u32)
        ensures
            y_pad == self@.y_pad,
    {
        self.y_pad
    }

    /// The number of columns.
    pub fn x_cells(&self) -> (x_cells: u32)
        ensures
            x_cells == self@.x_cells,
    {
        self.x_cells
    }

    /// The number of rows.
    pub fn y_cells(&self) -> (y_cells: u32)
        ensures
            y_cells == self@.y_cells,
    {
        self.y_cells
    }

    /// The thickness of a grid line in pixels.
    pub fn line_weight(&self) -> (line_weight: u32)
        ensures
            line_weight == self@.line_weight,
    {
        self.line_weight
    }

    /// The cells, row after row.
    pub fn cells(&self) -> (cells: &Vec<Cell>)
        ensures
            cells@ == self@.cells,
    {
        &self.cells
    }

    /// A grid of `x_cells` by `y_cells` cells on `width` by `height` pixels.
    /// Each cell gets the truncated quotient of the pixel size by the cell
    /// count; what is left over is a margin. The cells start dead and are
    /// then flipped by `num` random draws, so that no more than `num` of
    /// them are alive, and their number differs from `num` by an even
    /// number.
    ///
    /// The bound checks of the life step compare rows with the column
    /// count, so the step treats the last row as a last row only on a
    /// square board.
    pub fn new(
        width: u32,
        height: u32,
        x_cells: u32,
        y_cells: u32,
        line_weight: u32,
        num: u32,
    ) -> (grid: Grid)
        requires
            x_cells > 0,
            y_cells > 0,
            x_cells * y_cells <= u32::MAX,
        ensures
            grid@.wf(),
            grid@.width == width,
            grid@.height == height,
            grid@.x_cells == x_cells,
            grid@.y_cells == y_cells,
            grid@.line_weight == line_weight,
            grid@.x_pad == width as int / x_cells as int,
            grid@.y_pad == height as int / y_cells as int,
            exists|draws: Seq<int>|
                draws_within(draws, num as int, grid@.cells.len()) && grid@.states() == toggled(
                    all_dead(grid@.cells.len()),
                    draws,
                ),
            seeded(grid@.states(), num as int),
    {
        assert(x_cells * y_cells > 0) by (nonlinear_arith)
            requires
                x_cells > 0,
                y_cells > 0,
        ;
        Self {
            x_pad: width / x_cells,
            y_pad: height / y_cells,
            width,
            height,
            x_cells,
            y_cells,
            line_weight,
            cells: Self::init_cells_rand(x_cells, y_cells, num),
        }
    }

    /// One live cell for each listed position, in the order of the list.
    pub fn init_cells(limit_x: u32, limit_y: u32, positions: &[(u32, u32)]) -> (cells: Vec<Cell>)
        ensures
            cells@ == positions@.map_values(|pos: (u32, u32)| Cell { position: pos, state: true }),
    {
        let mut cells: Vec<Cell> = Vec::new();
        let mut i: usize = 0;
        while i < positions.len()
            invariant
                i <= positions.len(),
                cells@ == positions@.take(i as int).map_values(
                    |pos: (u32, u32)| Cell { position: pos, state: true },
                ),
            decreases positions.len() - i,
        {
            cells.push(Cell::new(positions[i], true));
            assert(cells@ =~= positions@.take(i + 1).map_values(
                |pos: (u32, u32)| Cell { position: pos, state: true },
            ));
            i += 1;
        }
        assert(positions@.take(positions.len() as int) =~= positions@);
        cells
    }

    /// The cells of a `limit_x` by `limit_y` board, row after row, all
    /// dead.
    pub fn blank_cells(limit_x: u32, limit_y: u32) -> (cells: Vec<Cell>)
        requires
            limit_x * limit_y <= u32::MAX,
        ensures
            row_major(cells@, limit_x as int, limit_y as int),
            forall|k: int| 0 <= k < cells.len() ==> !(#[trigger] cells@[k]).state,
    {
        let mut cells: Vec<Cell> = Vec::new();
        let mut j: u32 = 0;
        while j < limit_y
            invariant
                j <= limit_y,
                limit_x * limit_y <= u32::MAX,
                row_major(cells@, limit_x as int, j as int),
                forall|k: int| 0 <= k < cells.len() ==> !(#[trigger] cells@[k]).state,
            decreases limit_y - j,
        {
            let mut i: u32 = 0;
            while i < limit_x
                invariant
                    i <= limit_x,
                    j < limit_y,
                    limit_x * limit_y <= u32::MAX,
                    cells.len() == limit_x * j + i,
                    forall|k: int|
                        0 <= k < cells.len() ==> (#[trigger] cells@[k]).position.0 == k % (
                        limit_x as int) && cells@[k].position.1 == k / (limit_x as int),
                    forall|k: int| 0 <= k < cells.len() ==> !(#[trigger] cells@[k]).state,
                decreases limit_x - i,
            {
                proof {
                    assert(limit_x * j == j * limit_x) by (nonlinear_arith);
                    lemma_fundamental_div_mod_converse(
                        limit_x * j + i,
                        limit_x as int,
                        j as int,
                        i as int,
                    );
                }
                cells.push(Cell::new((i, j), false));
                i += 1;
            }
            assert(limit_x * j + limit_x == limit_x * (j + 1)) by (nonlinear_arith);
            j += 1;
        }
        cells
    }

    /// The cells of a `limit_x` by `limit_y` board, row after row, flipped
    /// by `num` draws of a random index: a cell that is drawn an even
    /// number of times ends up dead.
    pub fn init_cells_rand(limit_x: u32, limit_y: u32, num: u32) -> (cells: Vec<Cell>)
        requires
            limit_x * limit_y <= u32::MAX,
            num > 0 ==> limit_x * limit_y > 0,
        ensures
            row_major(cells@, limit_x as int, limit_y as int),
            exists|draws: Seq<int>|
                draws_within(draws, num as int, cells@.len()) && states_of(cells@) == toggled(
                    all_dead(cells@.len()),
                    draws,
                ),
            seeded(states_of(cells@), num as int),
    {
        let mut cells: Vec<Cell> = Self::blank_cells(limit_x, limit_y);
        let limit: u32 = limit_x * limit_y;
        let ghost n = cells@.len();
        let ghost mut draws: Seq<int> = Seq::empty();
        assert(states_of(cells@) =~= all_dead(n));
        let mut drawn: u32 = 0;
        while drawn < num
            invariant
                drawn <= num,
                limit == limit_x * limit_y,
                n == limit,
                num > 0 ==> limit > 0,
                row_major(cells@, limit_x as int, limit_y as int),
                draws_within(draws, drawn as int, n),
                states_of(cells@) == toggled(all_dead(n), draws),
            decreases num - drawn,
        {
            let pos: u32 = random_index(limit);
            let ghost before = cells@;
            flip_cell(&mut cells, pos);
            proof {
                let earlier = draws;
                draws = draws.push(pos as int);
                assert(draws.drop_last() =~= earlier);
                assert(states_of(cells@) =~= states_of(before).update(
                    pos as int,
                    !before[pos as int].state,
                ));
            }
            drawn += 1;
        }
        proof {
            lemma_toggled_is_seeded(n, draws);
        }
        cells
    }

    /// Computes the next generation without changing the grid: entry `k` of
    /// the table is the rule applied to cell `k` and to the number of live
    /// cells among its candidates.
    pub fn process_life(&mut self) -> (table: Vec<bool>)
        ensures
            final(self)@ == old(self)@,
            table@.len() == old(self)@.cells.len(),
            table@ == next_generation(
                old(self)@.states(),
                old(self)@.positions(),
                old(self)@.x_cells,
            ),
    {
        proof {
            use_type_invariant(&*self);
        }
        let n: usize = self.cells.len();
        let x_cells: u32 = self.x_cells;
        let ghost states = self@.states();
        let ghost positions = self@.positions();
        let mut selection_list: Vec<bool> = Vec::new();
        let mut i: usize = 0;
        while i < n
            invariant
                i <= n,
                n == self.cells.len(),
                x_cells == self.x_cells,
                self@ == old(self)@,
                self@.wf(),
                states == self@.states(),
                positions == self@.positions(),
                selection_list.len() == i,
                forall|k: int|
                    0 <= k < i ==> selection_list@[k] == next_state(
                        states[k],
                        live_count(
                            states,
                            candidates(positions[k].0 as int, positions[k].1 as int, x_cells as int),
                        ),
                    ),
            decreases n - i,
        {
            let (x, y): (u32, u32) = self.cells[i].position;
            proof {
                lemma_cell_in_board(self@.x_cells, self@.y_cells, i as int);
                lemma_candidates_in_range(x as int, y as int, x_cells as int);
                assert(y * x_cells + x_cells == (y + 1) * x_cells) by (nonlinear_arith);
            }
            let positions_to_check: Vec<u32> = candidate_indices(x, y, x_cells);
            assert forall|j: int| 0 <= j < positions_to_check.len() implies positions_to_check@[j]
                < self.cells.len() by {
                assert(positions_to_check@[j] as int == as_ints(positions_to_check@)[j]);
            }
            let live: u32 = count_live(&self.cells, &positions_to_check);
            selection_list.push(decide(self.cells[i].state, live));
            i += 1;
        }
        assert(selection_list@ =~= next_generation(states, positions, x_cells as int));
        selection_list
    }

    /// Overwrites every cell's state with the entry of `table` at the same
    /// index; positions and geometry stay.
    pub fn update_cells(&mut self, table: Vec<bool>)
        requires
            table.len() == old(self)@.cells.len(),
        ensures
            final(self)@.states() == table@,
            final(self)@.positions() == old(self)@.positions(),
            final(self)@ == (GridView { cells: final(self)@.cells, ..old(self)@ }),
    {
        proof {
            use_type_invariant(&*self);
        }
        overwrite_states(&mut self.cells, &table);
        assert(self@.positions() =~= old(self)@.positions());
    }
}

/// On a board of `x_cells` by `y_cells`, index `k` names column
/// `k % x_cells` of row `k / x_cells`, and that row lies on the board.
pub proof fn lemma_cell_in_board(x_cells: int, y_cells: int, k: int)
    requires
        x_cells > 0,
        y_cells > 0,
        0 <= k < x_cells * y_cells,
    ensures
        0 <= k % x_cells < x_cells,
        0 <= k / x_cells < y_cells,
        (k / x_cells) * x_cells + k % x_cells == k,
        (k / x_cells + 1) * x_cells <= x_cells * y_cells,
{
    lemma_fundamental_div_mod(k, x_cells);
    lemma_mod_pos_bound(k, x_cells);
    let q = k / x_cells;
    let r = k % x_cells;
    assert(0 <= q < y_cells && q * x_cells + r == k && (q + 1) * x_cells <= x_cells * y_cells)
        by (nonlinear_arith)
        requires
            x_cells > 0,
            y_cells > 0,
            0 <= k < x_cells * y_cells,
            k == x_cells * q + r,
            0 <= r < x_cells,
    ;
}

/// Gives each cell the state that `table` holds at its index.
fn overwrite_states(cells: &mut Vec<Cell>, table: &Vec<bool>)
    requires
        table.len() == old(cells).len(),
    ensures
        final(cells).len() == old(cells).len(),
        states_of(final(cells)@) == table@,
        forall|k: int|
            0 <= k < old(cells).len() ==> (#[trigger] final(cells)@[k]).position == old(
                cells,
            )@[k].position,
    no_unwind
{
    let n: usize = cells.len();
    let mut i: usize = 0;
    while i < n
        invariant
            i <= n,
            n == cells.len(),
            n == table.len(),
            n == old(cells).len(),
            forall|k: int| 0 <= k < n ==> (#[trigger] cells@[k]).position == old(cells)@[k].position,
            forall|k: int| 0 <= k < i ==> (#[trigger] cells@[k]).state == table@[k],
        decreases n - i,
    {
        cells[i].state = table[i];
        i += 1;
    }
    assert(states_of(cells@) =~= table@);
}

} // verus!
