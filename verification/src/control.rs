//! The pause/step control of the frame loop, and what one frame does.

use crate::grid::Grid;
use crate::life::seeded;
use crate::render::{Fill, BACKGROUND_COLOR};
use vstd::prelude::*;

verus! {

/// The width of the window and of the painted area, in pixels.
pub const WINDOW_WIDTH: u32 = 640;

/// The height of the window and of the painted area, in pixels.
pub const WINDOW_HEIGHT: u32 = 640;

/// The number of columns of the board.
pub const GRID_COLUMNS: u32 = 64;

/// The number of rows of the board.
pub const GRID_ROWS: u32 = 64;

/// The thickness of the grid lines, in pixels.
pub const LINE_WEIGHT: u32 = 2;

/// The number of random flips that seed the board.
pub const SEED_DRAWS: u32 = 400;

/// The pause between two iterations of the loop, in nanoseconds: a
/// sixtieth of a second.
pub const FRAME_NANOS: u32 = 1_000_000_000 / 60;

/// What the loop reacts to; every other event is `Other`.
#[derive(Clone, Copy, Debug)]
pub enum Input {
    /// The window was asked to close.
    Quit,
    /// The Escape key went down.
    KeyEscape,
    /// The `P` key went down.
    KeyP,
    /// The `N` key went down.
    KeyN,
    /// Anything else.
    Other,
}

/// The state that the input changes: how many single steps are still
/// owed, and whether the simulation is paused.
#[derive(Clone, Copy, Debug)]
pub struct LoopState {
    pub step: u8,
    pub paused: bool,
}

/// What one advancing iteration hands to the surface and to the console.
pub struct Frame {
    /// The colour that the surface is cleared to.
    pub background: (u8, u8, u8),
    /// The rectangles to fill, in order.
    pub fills: Vec<Fill>,
    /// The line to log.
    pub message: &'static str,
}

/// The line that is logged for a frame.
pub open spec fn message_of(paused: bool) -> Seq<char> {
    if paused {
        "paused"@
    } else {
        "unpaused"@
    }
}

/// The line that is logged for a frame: whether the loop is paused.
pub fn debug_message(paused: bool) -> (message: &'static str)
    ensures
        message@ == message_of(paused),
{
    if paused {
        "paused"
    } else {
        "unpaused"
    }
}

impl LoopState {
    /// Whether `input` ends the loop.
    pub open spec fn quits(input: Input) -> bool {
        input is Quit || input is KeyEscape
    }

    /// The state after `input`: `P` toggles the pause, `N` owes one more
    /// step, nothing else changes anything.
    pub open spec fn after_input(self, input: Input) -> LoopState {
        match input {
            Input::KeyP => LoopState { step: self.step, paused: !self.paused },
            Input::KeyN => LoopState { step: (self.step + 1) as u8, paused: self.paused },
            _ => self,
        }
    }

    /// Whether the next iteration advances the simulation: a step is owed,
    /// or the loop is not paused.
    pub open spec fn advances(self) -> bool {
        self.step > 0 || !self.paused
    }

    /// The state after an advancing iteration: one owed step less.
    pub open spec fn after_frame(self) -> LoopState {
        if self.step > 0 {
            LoopState { step: (self.step - 1) as u8, paused: self.paused }
        } else {
            self
        }
    }

    /// The state at startup: paused, with one step owed, so that the
    /// first frame is painted.
    pub fn new() -> (state: LoopState)
        ensures
            state.step == 1,
            state.paused,
    {
        LoopState { step: 1, paused: true }
    }

    /// Takes one input event and says whether the loop ends on it.
    pub fn handle(&mut self, input: Input) -> (quit: bool)
        requires
            input is KeyN ==> old(self).step < u8::MAX,
        ensures
            quit == Self::quits(input),
            *final(self) == old(self).after_input(input),
    {
        match input {
            Input::Quit | Input::KeyEscape => true,
            Input::KeyP => {
                self.paused = !self.paused;
                false
            },
            Input::KeyN => {
                self.step += 1;
                false
            },
            Input::Other => false,
        }
    }

    /// Whether the next iteration advances the simulation.
    pub fn should_advance(&self) -> (advance: bool)
        ensures
            advance == self.advances(),
    {
        self.step > 0 || !self.paused
    }

    /// One iteration after the input is drained. Where a step is owed or
    /// the loop runs, the grid moves on by one generation and the frame to
    /// paint and log comes back, and one owed step is taken off; else
    /// nothing changes and nothing comes back.
    pub fn run_frame(&mut self, grid: &mut Grid) -> (frame: Option<Frame>)
        requires
            old(self).advances() ==> old(grid)@.stepped().can_draw(),
        ensures
            old(self).advances() ==> {
                &&& final(grid)@ == old(grid)@.stepped()
                &&& *final(self) == old(self).after_frame()
                &&& frame is Some
                &&& frame->0.background == BACKGROUND_COLOR
                &&& frame->0.fills@ == old(grid)@.stepped().draw_list()
                &&& frame->0.message@ == message_of(old(self).paused)
            },
            !old(self).advances() ==> {
                &&& final(grid)@ == old(grid)@
                &&& *final(self) == *old(self)
                &&& frame is None
            },
    {
        if self.step > 0 || !self.paused {
            let table: Vec<bool> = grid.process_life();
            grid.update_cells(table);
            proof {
                let stepped = old(grid)@.stepped();
                assert(grid@.states() == stepped.states());
                assert(grid@.positions() == stepped.positions());
                assert forall|k: int| 0 <= k < stepped.cells.len() implies grid@.cells[k]
                    == stepped.cells[k] by {
                    assert(grid@.states()[k] == stepped.states()[k]);
                    assert(grid@.positions()[k] == stepped.positions()[k]);
                }
                assert(grid@.cells =~= stepped.cells);
            }
            let fills: Vec<Fill> = grid.draw();
            let message: &'static str = debug_message(self.paused);
            if self.step > 0 {
                self.step -= 1;
            }
            Some(Frame { background: BACKGROUND_COLOR, fills, message })
        } else {
            None
        }
    }
}

/// The grid that the program starts with: the fixed geometry, seeded at
/// random. Whatever the seed, it fits, so that it can be painted in every
/// generation.
pub fn startup_grid() -> (grid: Grid)
    ensures
        grid@.wf(),
        grid@.width == WINDOW_WIDTH,
        grid@.height == WINDOW_HEIGHT,
        grid@.x_cells == GRID_COLUMNS,
        grid@.y_cells == GRID_ROWS,
        grid@.line_weight == LINE_WEIGHT,
        grid@.x_pad == 10,
        grid@.y_pad == 10,
        seeded(grid@.states(), SEED_DRAWS as int),
        grid@.fits(),
{
    Grid::new(WINDOW_WIDTH, WINDOW_HEIGHT, GRID_COLUMNS, GRID_ROWS, LINE_WEIGHT, SEED_DRAWS)
}

} // verus!
