use game_of_life::control::{
    debug_message, startup_grid, Input, LoopState, FRAME_NANOS, GRID_COLUMNS, GRID_ROWS,
    LINE_WEIGHT, SEED_DRAWS, WINDOW_HEIGHT, WINDOW_WIDTH,
};
use game_of_life::grid::Grid;

#[test]
fn fixed_configuration() {
    assert_eq!((WINDOW_WIDTH, WINDOW_HEIGHT), (640, 640));
    assert_eq!((GRID_COLUMNS, GRID_ROWS), (64, 64));
    assert_eq!(LINE_WEIGHT, 2);
    assert_eq!(SEED_DRAWS, 400);
    assert_eq!(FRAME_NANOS, 16_666_666);
}

#[test]
fn startup_grid_has_the_fixed_geometry() {
    let grid = startup_grid();
    assert_eq!((grid.width(), grid.height()), (640, 640));
    assert_eq!((grid.x_cells(), grid.y_cells()), (64, 64));
    assert_eq!((grid.x_pad(), grid.y_pad()), (10, 10));
    assert_eq!(grid.line_weight(), 2);
    assert_eq!(grid.cells().len(), 4096);
    let live = grid.cells().iter().filter(|cell| cell.state).count();
    assert!(live <= 400);
    assert_eq!(live % 2, 0);
}

#[test]
fn loop_starts_paused_with_one_step() {
    let state = LoopState::new();
    assert_eq!(state.step, 1);
    assert!(state.paused);
    assert!(state.should_advance());
}

#[test]
fn debug_message_names_the_pause_state() {
    assert_eq!(debug_message(true), "paused");
    assert_eq!(debug_message(false), "unpaused");
}

#[test]
fn quit_and_escape_end_the_loop() {
    let mut state = LoopState::new();
    assert!(state.handle(Input::Quit));
    assert!(state.handle(Input::KeyEscape));
    assert_eq!(state.step, 1);
    assert!(state.paused);
}

#[test]
fn p_toggles_the_pause() {
    let mut state = LoopState::new();
    assert!(!state.handle(Input::KeyP));
    assert!(!state.paused);
    assert_eq!(state.step, 1);
    assert!(!state.handle(Input::KeyP));
    assert!(state.paused);
}

#[test]
fn n_queues_single_steps() {
    let mut state = LoopState::new();
    assert!(!state.handle(Input::KeyN));
    assert!(!state.handle(Input::KeyN));
    assert_eq!(state.step, 3);
    assert!(state.paused);
}

#[test]
fn other_input_changes_nothing() {
    let mut state = LoopState { step: 0, paused: true };
    assert!(!state.handle(Input::Other));
    assert_eq!(state.step, 0);
    assert!(state.paused);
    assert!(!state.should_advance());
}

#[test]
fn should_advance_on_a_step_or_when_running() {
    assert!(LoopState { step: 0, paused: false }.should_advance());
    assert!(LoopState { step: 2, paused: true }.should_advance());
    assert!(LoopState { step: 2, paused: false }.should_advance());
    assert!(!LoopState { step: 0, paused: true }.should_advance());
}

#[test]
fn first_iteration_runs_one_cycle_and_the_next_none() {
    let mut grid = Grid::new(40, 40, 4, 4, 1, 0);
    let mut table = vec![false; 16];
    for k in [1usize, 4, 6] {
        table[k] = true;
    }
    grid.update_cells(table);
    let mut state = LoopState::new();
    let frame = state.run_frame(&mut grid).expect("the first iteration paints");
    assert_eq!(state.step, 0);
    assert!(state.paused);
    assert_eq!(frame.background, (127, 127, 127));
    assert_eq!(frame.message, "paused");
    let live: Vec<usize> = (0..16).filter(|k| grid.cells()[*k].state).collect();
    assert_eq!(live, vec![4, 5, 6, 9]);
    assert_eq!(frame.fills.len(), 5 + 5 + 4);
    let cell = &frame.fills[10];
    assert_eq!((cell.color, cell.x, cell.y, cell.width, cell.height), ((0, 0, 122), 1, 11, 9, 9));
    assert!(state.run_frame(&mut grid).is_none());
    assert_eq!(state.step, 0);
    let after: Vec<usize> = (0..16).filter(|k| grid.cells()[*k].state).collect();
    assert_eq!(after, vec![4, 5, 6, 9]);
}

#[test]
fn running_loop_advances_every_iteration() {
    let mut grid = Grid::new(40, 40, 4, 4, 1, 0);
    let mut table = vec![false; 16];
    table[4] = true;
    table[5] = true;
    grid.update_cells(table);
    let mut state = LoopState { step: 0, paused: false };
    for _ in 0..3 {
        let frame = state.run_frame(&mut grid).expect("a running loop paints");
        assert_eq!(frame.message, "unpaused");
        assert_eq!(frame.fills.len(), 12);
        assert_eq!(state.step, 0);
        assert!(!state.paused);
    }
}

#[test]
fn queued_steps_are_taken_one_per_iteration() {
    let mut grid = Grid::new(40, 40, 4, 4, 1, 0);
    let mut state = LoopState::new();
    state.handle(Input::KeyN);
    assert_eq!(state.step, 2);
    assert!(state.run_frame(&mut grid).is_some());
    assert_eq!(state.step, 1);
    assert!(state.run_frame(&mut grid).is_some());
    assert_eq!(state.step, 0);
    assert!(state.run_frame(&mut grid).is_none());
}
