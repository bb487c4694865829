use std::collections::HashMap;
use toucca::config::{TouccaMode, TouccaRelativeConfig, TouccaTouchConfig};
use toucca::surface::WindowRect;

fn absolute_config(divisions: usize, ranges: [(usize, usize); 4], compensation: i32) -> TouccaTouchConfig {
    TouccaTouchConfig {
        divisions,
        radius_compensation: compensation,
        pointer_radius: 1,
        mode: TouccaMode::Absolute(ranges),
    }
}

const SQUARE: WindowRect = WindowRect { left: 0, top: 0, right: 800, bottom: 800 };
const TOP_RINGS: [(usize, usize); 4] = [(4, 4), (5, 5), (6, 6), (7, 7)];

#[test]
fn pointer_at_centre_is_on_ring_zero() {
    let mut cfg = absolute_config(8, TOP_RINGS, 0);
    assert!(cfg.point_cells(1, 10, 400, 400, &SQUARE).is_empty());
    let mut inner = absolute_config(8, [(0, 0), (1, 1), (2, 2), (3, 3)], 0);
    assert_eq!(inner.point_cells(1, 10, 400, 400, &SQUARE), vec![10]);
}

#[test]
fn pointer_at_outer_edge_is_on_ring_divisions() {
    let mut cfg = absolute_config(8, TOP_RINGS, 0);
    assert!(cfg.point_cells(1, 10, 800, 400, &SQUARE).is_empty());
    assert!(cfg.point_cells(1, 10, 400, 0, &SQUARE).is_empty());
    let mut last = absolute_config(8, [(7, 7); 4], 0);
    assert_eq!(last.point_cells(1, 10, 799, 400, &SQUARE), vec![10, 40, 70, 100]);
}

#[test]
fn ring_is_floor_of_scaled_distance() {
    let mut cfg = absolute_config(8, TOP_RINGS, 0);
    assert_eq!(cfg.point_cells(1, 10, 700, 400, &SQUARE), vec![70]);
    assert_eq!(cfg.point_cells(1, 10, 400, 50, &SQUARE), vec![100]);
    assert_eq!(cfg.point_cells(1, 10, 649, 400, &SQUARE), vec![10]);
    assert_eq!(cfg.point_cells(1, 10, 650, 400, &SQUARE), vec![40]);
    assert_eq!(cfg.point_cells(1, 10, 640, 580, &SQUARE), vec![70]);
}

#[test]
fn beyond_radius_activates_nothing() {
    let mut cfg = absolute_config(8, [(0, 7); 4], 0);
    assert!(cfg.point_cells(1, 0, 801, 400, &SQUARE).is_empty());
    assert!(cfg.point_cells(1, 45, 0, 0, &SQUARE).is_empty());
    assert!(cfg.point_cells(1, 30, 700, 700, &SQUARE).is_empty());
    let mut rel = TouccaTouchConfig {
        divisions: 8,
        radius_compensation: 0,
        pointer_radius: 3,
        mode: TouccaMode::Relative(TouccaRelativeConfig { start: 1, threshold: 1, map: HashMap::new() }),
    };
    assert!(rel.point_cells(5, 12, 0, 0, &SQUARE).is_empty());
    if let TouccaMode::Relative(c) = &rel.mode {
        assert!(c.map.is_empty());
    }
}

#[test]
fn compensation_and_short_side_set_the_radius() {
    let wide = WindowRect { left: 100, top: 50, right: 1100, bottom: 650 };
    let mut cfg = absolute_config(8, [(0, 7); 4], 0);
    assert!(cfg.point_cells(1, 0, 901, 350, &wide).is_empty());
    let mut comp = absolute_config(8, [(0, 0), (1, 1), (7, 7), (7, 8)], 30);
    assert_eq!(comp.point_cells(1, 0, 910, 350, &wide), vec![60, 90]);
    let mut shrink = absolute_config(8, [(0, 7); 4], -50);
    assert!(shrink.point_cells(1, 0, 851, 350, &wide).is_empty());
    let mut none = absolute_config(8, [(0, 7); 4], -400);
    assert!(none.point_cells(1, 0, 600, 350, &wide).is_empty());
}
