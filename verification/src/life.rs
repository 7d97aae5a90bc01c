//! The rule that decides a cell's next state from the live cells among
//! its candidates, and the candidate list itself.
//!
//! The candidate list is not the classical eight neighbours: the upper
//! candidates lie two rows above the cell, the cell's own index stands in
//! for a row below, and the row bounds are tested against the column count.

use crate::cell::{states_of, Cell};
use vstd::prelude::*;

verus! {

/// `n - i` where `n >= i`, else zero.
pub open spec fn clamp_sub(n: int, i: int) -> int {
    if n >= i {
        n - i
    } else {
        0
    }
}

/// Subtracts `i` from `n`, stopping at zero.
pub fn sub_until_zero(n: u32, i: i32) -> (r: u32)
    requires
        n - i <= u32::MAX,
    ensures
        r == clamp_sub(n as int, i as int),
{
    let wide: i64 = n as i64 - i as i64;
    if wide < 0 {
        0
    } else {
        wide as u32
    }
}

/// The candidates that lie one column to the left of `(x, y)`.
pub open spec fn left_candidates(x: int, y: int, x_cells: int) -> Seq<int> {
    if x >= 1 {
        let above = seq![clamp_sub(y, 1) * x_cells + (x - 1)];
        if y + 1 < x_cells {
            above.push(y * x_cells + (x - 1))
        } else {
            above
        }
    } else {
        Seq::empty()
    }
}

/// The candidates that lie one column to the right of `(x, y)`.
pub open spec fn right_candidates(x: int, y: int, x_cells: int) -> Seq<int> {
    if x + 1 < x_cells {
        let above = seq![clamp_sub(y, 1) * x_cells + (x + 1)];
        if y + 1 < x_cells {
            above.push(y * x_cells + (x + 1))
        } else {
            above
        }
    } else {
        Seq::empty()
    }
}

/// The candidates of `(x, y)` in the row two above it (row zero at the least).
pub open spec fn upper_candidates(x: int, y: int, x_cells: int) -> Seq<int> {
    if y >= 1 {
        let middle = seq![clamp_sub(y, 2) * x_cells + x];
        let with_left = if x >= 1 {
            middle.push(clamp_sub(y, 2) * x_cells + (x - 1))
        } else {
            middle
        };
        if x + 1 < x_cells {
            with_left.push(clamp_sub(y, 2) * x_cells + (x + 1))
        } else {
            with_left
        }
    } else {
        Seq::empty()
    }
}

/// The cell's own index, a candidate unless it lies in the last row
/// (as counted by the column count).
pub open spec fn own_candidate(x: int, y: int, x_cells: int) -> Seq<int> {
    if y + 1 < x_cells {
        seq![y * x_cells + x]
    } else {
        Seq::empty()
    }
}

/// The indices, in a row-major array with `x_cells` columns, that are
/// examined for the cell in column `x` and row `y`. An index may occur
/// more than once.
pub open spec fn candidates(x: int, y: int, x_cells: int) -> Seq<int> {
    left_candidates(x, y, x_cells) + right_candidates(x, y, x_cells) + upper_candidates(
        x,
        y,
        x_cells,
    ) + own_candidate(x, y, x_cells)
}

/// How many entries of `picks` name a live cell of `states`; an index that
/// occurs twice counts twice.
pub open spec fn live_count(states: Seq<bool>, picks: Seq<int>) -> nat
    decreases picks.len(),
{
    if picks.len() == 0 {
        0
    } else {
        let rest = live_count(states, picks.drop_last());
        if states[picks.last()] {
            rest + 1
        } else {
            rest
        }
    }
}

/// The rule: a live cell stays alive on two or three live candidates, a
/// dead cell comes alive on exactly three.
pub open spec fn next_state(alive: bool, live: nat) -> bool {
    if alive {
        live == 2 || live == 3
    } else {
        live == 3
    }
}

/// The next generation of `states`, where cell `k` has the position
/// `positions[k]`.
pub open spec fn next_generation(
    states: Seq<bool>,
    positions: Seq<(u32, u32)>,
    x_cells: int,
) -> Seq<bool> {
    Seq::new(
        states.len(),
        |k: int|
            next_state(
                states[k],
                live_count(
                    states,
                    candidates(positions[k].0 as int, positions[k].1 as int, x_cells),
                ),
            ),
    )
}

/// The number of live cells in `states`.
pub open spec fn population(states: Seq<bool>) -> nat
    decreases states.len(),
{
    if states.len() == 0 {
        0
    } else {
        population(states.drop_last()) + if states.last() {
            1nat
        } else {
            0nat
        }
    }
}

/// A list of array indices as mathematical integers.
pub open spec fn as_ints(indices: Seq<u32>) -> Seq<int> {
    indices.map_values(|p: u32| p as int)
}

/// Every candidate of a cell lies in the cell's own row or above it.
pub proof fn lemma_candidates_in_range(x: int, y: int, x_cells: int)
    requires
        0 <= x < x_cells,
        0 <= y,
    ensures
        candidates(x, y, x_cells).len() <= 8,
        forall|j: int|
            0 <= j < candidates(x, y, x_cells).len() ==> 0 <= #[trigger] candidates(
                x,
                y,
                x_cells,
            )[j] < (y + 1) * x_cells,
{
    let one = clamp_sub(y, 1);
    let two = clamp_sub(y, 2);
    assert(0 <= one * x_cells <= y * x_cells && 0 <= two * x_cells <= y * x_cells && (y + 1)
        * x_cells == y * x_cells + x_cells) by (nonlinear_arith)
        requires
            0 <= one <= y,
            0 <= two <= y,
            x_cells > 0,
    ;
}

/// Lists the candidates of the cell in column `x` and row `y`, in the
/// order in which they are counted.
pub fn candidate_indices(x: u32, y: u32, x_cells: u32) -> (picks: Vec<u32>)
    requires
        y < u32::MAX,
        y * x_cells + x < u32::MAX,
    ensures
        as_ints(picks@) == candidates(x as int, y as int, x_cells as int),
{
    let above: u32 = sub_until_zero(y, 1);
    let upper: u32 = sub_until_zero(y, 2);
    proof {
        assert(0 <= above * x_cells <= y * x_cells && 0 <= upper * x_cells <= y * x_cells)
            by (nonlinear_arith)
            requires
                0 <= above <= y,
                0 <= upper <= y,
                0 <= x_cells,
        ;
    }
    let mut positions_to_check: Vec<u32> = Vec::new();
    if x >= 1 {
        positions_to_check.push(above * x_cells + x - 1);
        if y + 1 < x_cells {
            positions_to_check.push(y * x_cells + x - 1);
        }
    }
    if x + 1 < x_cells {
        positions_to_check.push(above * x_cells + x + 1);
        if y + 1 < x_cells {
            positions_to_check.push(y * x_cells + x + 1);
        }
    }
    if y >= 1 {
        positions_to_check.push(upper * x_cells + x);
        if x >= 1 {
            positions_to_check.push(upper * x_cells + x - 1);
        }
        if x + 1 < x_cells {
            positions_to_check.push(upper * x_cells + x + 1);
        }
    }
    if y + 1 < x_cells {
        positions_to_check.push(y * x_cells + x);
    }
    assert(as_ints(positions_to_check@) =~= candidates(x as int, y as int, x_cells as int));
    positions_to_check
}

/// Counts the entries of `picks` that name a live cell.
pub fn count_live(cells: &Vec<Cell>, picks: &Vec<u32>) -> (live: u32)
    requires
        picks.len() <= u32::MAX,
        forall|j: int| 0 <= j < picks.len() ==> picks@[j] < cells.len(),
    ensures
        live == live_count(states_of(cells@), as_ints(picks@)),
        live <= picks.len(),
{
    let ghost states = states_of(cells@);
    let ghost ints = as_ints(picks@);
    let mut live_count: u32 = 0;
    let mut j: usize = 0;
    while j < picks.len()
        invariant
            j <= picks.len(),
            picks.len() <= u32::MAX,
            live_count <= j,
            states == states_of(cells@),
            ints == as_ints(picks@),
            forall|j: int| 0 <= j < picks.len() ==> picks@[j] < cells.len(),
            live_count == self::live_count(states, ints.take(j as int)),
        decreases picks.len() - j,
    {
        let pos: u32 = picks[j];
        proof {
            assert(ints.take(j + 1).drop_last() =~= ints.take(j as int));
            assert(ints.take(j + 1).last() == pos as int);
        }
        if cells[pos as usize].state == true {
            live_count += 1;
        }
        j += 1;
    }
    assert(ints.take(picks.len() as int) =~= ints);
    live_count
}

/// Among dead cells no candidate is alive.
pub proof fn lemma_live_count_of_dead(states: Seq<bool>, picks: Seq<int>)
    requires
        forall|j: int| 0 <= j < picks.len() ==> !states[#[trigger] picks[j]],
    ensures
        live_count(states, picks) == 0,
    decreases picks.len(),
{
    if picks.len() > 0 {
        assert(!states[picks[picks.len() - 1]]);
        lemma_live_count_of_dead(states, picks.drop_last());
    }
}

/// A board of `n` dead cells.
pub open spec fn all_dead(n: nat) -> Seq<bool> {
    Seq::new(n, |k: int| false)
}

/// `states` after the cells at `draws` are flipped, one after the other.
pub open spec fn toggled(states: Seq<bool>, draws: Seq<int>) -> Seq<bool>
    decreases draws.len(),
{
    if draws.len() == 0 {
        states
    } else {
        let before = toggled(states, draws.drop_last());
        before.update(draws.last(), !before[draws.last()])
    }
}

/// `draws` holds `num` indices into a board of `n` cells.
pub open spec fn draws_within(draws: Seq<int>, num: int, n: nat) -> bool {
    &&& draws.len() == num
    &&& forall|t: int| 0 <= t < draws.len() ==> 0 <= #[trigger] draws[t] < n
}

/// What holds of the states after `draws` flips of cells that were all
/// dead: no more cells are alive than flips were made or cells exist, and
/// their number is even exactly if the number of flips is.
pub open spec fn seeded(states: Seq<bool>, draws: int) -> bool {
    &&& population(states) <= draws
    &&& population(states) <= states.len()
    &&& population(states) % 2 == draws % 2
}

/// Flipping cells of a dead board, whichever and however often, leaves
/// as many cells as before, of which at most one for each flip is alive.
pub proof fn lemma_toggled_is_seeded(n: nat, draws: Seq<int>)
    requires
        draws_within(draws, draws.len() as int, n),
    ensures
        toggled(all_dead(n), draws).len() == n,
        seeded(toggled(all_dead(n), draws), draws.len() as int),
    decreases draws.len(),
{
    if draws.len() == 0 {
        lemma_population_of_dead(all_dead(n));
    } else {
        let rest = draws.drop_last();
        lemma_toggled_is_seeded(n, rest);
        let before = toggled(all_dead(n), rest);
        lemma_population_update(before, draws.last(), !before[draws.last()]);
        lemma_population_bound(toggled(all_dead(n), draws));
    }
}

/// No more cells are alive than there are cells.
pub proof fn lemma_population_bound(states: Seq<bool>)
    ensures
        population(states) <= states.len(),
    decreases states.len(),
{
    if states.len() > 0 {
        lemma_population_bound(states.drop_last());
    }
}

/// Changing one state changes the number of live cells by that cell alone.
pub proof fn lemma_population_update(states: Seq<bool>, k: int, alive: bool)
    requires
        0 <= k < states.len(),
    ensures
        population(states.update(k, alive)) == population(states) - (if states[k] {
            1int
        } else {
            0int
        }) + (if alive {
            1int
        } else {
            0int
        }),
    decreases states.len(),
{
    let changed = states.update(k, alive);
    if k == states.len() - 1 {
        assert(changed.drop_last() =~= states.drop_last());
    } else {
        assert(changed.drop_last() =~= states.drop_last().update(k, alive));
        lemma_population_update(states.drop_last(), k, alive);
    }
}

/// Where no cell is alive the number of live cells is zero.
pub proof fn lemma_population_of_dead(states: Seq<bool>)
    requires
        forall|k: int| 0 <= k < states.len() ==> !states[k],
    ensures
        population(states) == 0,
    decreases states.len(),
{
    if states.len() > 0 {
        lemma_population_of_dead(states.drop_last());
    }
}

/// Applies the rule to one cell.
pub fn decide(alive: bool, live: u32) -> (next: bool)
    ensures
        next == next_state(alive, live as nat),
{
    if alive {
        live == 2 || live == 3
    } else {
        live == 3
    }
}

} // verus!
