use std::collections::HashMap;
use toucca::config::{TouccaMode, TouccaRelativeConfig, TouccaTouchConfig};
use toucca::state::TouchState;
use toucca::surface::WindowRect;

const SQUARE: WindowRect = WindowRect { left: 0, top: 0, right: 800, bottom: 800 };

fn active_cells(snapshot: &[bool]) -> Vec<usize> {
    (0..snapshot.len()).filter(|i| snapshot[*i]).collect()
}

fn absolute_touch() -> TouccaTouchConfig {
    TouccaTouchConfig {
        divisions: 8,
        radius_compensation: 0,
        pointer_radius: 2,
        mode: TouccaMode::Absolute([(0, 1), (2, 3), (4, 5), (6, 7)]),
    }
}

#[test]
fn new_state_has_nothing_active() {
    let state = TouchState::new(absolute_touch(), &[0; 240]);
    let snap = state.get_active_areas();
    assert_eq!(snap.len(), 240);
    assert!(active_cells(&snap).is_empty());
}

#[test]
fn pointer_cells_replace_and_release() {
    let mut state = TouchState::new(absolute_touch(), &[0; 240]);
    state.pointer_moved(1, 0, 400, 400, &SQUARE);
    assert_eq!(active_cells(&state.get_active_areas()), vec![0, 1, 120]);
    state.pointer_moved(1, 0, 700, 400, &SQUARE);
    assert_eq!(active_cells(&state.get_active_areas()), vec![90, 91, 210]);
    state.pointer_moved(2, 10, 400, 400, &SQUARE);
    assert_eq!(active_cells(&state.get_active_areas()), vec![9, 10, 11, 90, 91, 210]);
    state.pointer_released(1);
    assert_eq!(active_cells(&state.get_active_areas()), vec![9, 10, 11]);
    state.pointer_moved(2, 10, 900, 400, &SQUARE);
    assert!(active_cells(&state.get_active_areas()).is_empty());
    state.pointer_released(2);
    state.pointer_released(3);
    assert!(active_cells(&state.get_active_areas()).is_empty());
}

#[test]
fn released_relative_pointer_starts_again() {
    let cfg = TouccaTouchConfig {
        divisions: 8,
        radius_compensation: 0,
        pointer_radius: 1,
        mode: TouccaMode::Relative(TouccaRelativeConfig { start: 1, threshold: 1, map: HashMap::new() }),
    };
    let mut state = TouchState::new(cfg, &[0; 240]);
    state.pointer_moved(4, 5, 400, 400, &SQUARE);
    assert_eq!(active_cells(&state.get_active_areas()), vec![35]);
    state.pointer_moved(4, 5, 500, 400, &SQUARE);
    assert_eq!(active_cells(&state.get_active_areas()), vec![95]);
    state.pointer_released(4);
    if let TouccaMode::Relative(c) = &state.config().mode {
        assert!(c.map.is_empty());
    }
    state.pointer_moved(4, 5, 500, 400, &SQUARE);
    assert_eq!(active_cells(&state.get_active_areas()), vec![35]);
}

#[test]
fn keys_hold_and_release_their_cells() {
    let mut keys = [1i32; 240];
    keys[3] = 65;
    keys[200] = 65;
    keys[7] = 66;
    let mut state = TouchState::new(absolute_touch(), &keys);
    state.key_changed(65, true);
    assert_eq!(active_cells(&state.get_active_areas()), vec![3, 200]);
    state.key_changed(66, true);
    assert_eq!(active_cells(&state.get_active_areas()), vec![3, 7, 200]);
    state.pointer_moved(1, 4, 400, 400, &SQUARE);
    assert_eq!(active_cells(&state.get_active_areas()), vec![3, 4, 5, 7, 200]);
    state.key_changed(65, false);
    assert_eq!(active_cells(&state.get_active_areas()), vec![3, 4, 5, 7]);
    state.key_changed(67, true);
    assert_eq!(active_cells(&state.get_active_areas()), vec![3, 4, 5, 7]);
}

#[test]
fn key_bindings_follow_the_cell_keys() {
    let mut keys = [0i32; 240];
    for i in 0..240 {
        keys[i] = toucca::config::default_cell_key(i);
    }
    let mut state = TouchState::new(absolute_touch(), &keys);
    state.key_changed(0x31, true);
    assert_eq!(active_cells(&state.get_active_areas()), vec![0, 1, 2, 30, 31, 32]);
    state.key_changed(0xBF, true);
    assert_eq!(
        active_cells(&state.get_active_areas()),
        vec![0, 1, 2, 30, 31, 32, 207, 208, 209, 237, 238, 239]
    );
    state.key_changed(0x31, false);
    assert_eq!(active_cells(&state.get_active_areas()), vec![207, 208, 209, 237, 238, 239]);
    state.key_changed(0x99, true);
    assert_eq!(active_cells(&state.get_active_areas()), vec![207, 208, 209, 237, 238, 239]);
}
