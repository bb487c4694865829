use std::collections::HashMap;
use toucca::config::{TouccaMode, TouccaRelativeConfig};

fn relative(start: usize, threshold: usize) -> TouccaMode {
    TouccaMode::Relative(TouccaRelativeConfig { start, threshold, map: HashMap::new() })
}

#[test]
fn flip_reverses_second_half_only() {
    assert_eq!(TouccaMode::flip_left_ring(0), 0);
    assert_eq!(TouccaMode::flip_left_ring(29), 29);
    assert_eq!(TouccaMode::flip_left_ring(30), 59);
    assert_eq!(TouccaMode::flip_left_ring(59), 30);
    for s in 0..60 {
        assert_eq!(TouccaMode::flip_left_ring(TouccaMode::flip_left_ring(s)), s);
    }
}

#[test]
fn expansion_radius_zero_and_one_is_the_section() {
    assert_eq!(TouccaMode::expand_section_with_radius(0, 17), vec![17]);
    assert_eq!(TouccaMode::expand_section_with_radius(1, 17), vec![17]);
}

#[test]
fn expansion_takes_neighbours_in_pairs() {
    assert_eq!(TouccaMode::expand_section_with_radius(3, 0), vec![0, 1, 30, 2, 31]);
    assert_eq!(TouccaMode::expand_section_with_radius(2, 29), vec![29, 59, 28]);
    assert_eq!(TouccaMode::expand_section_with_radius(2, 30), vec![30, 0, 31]);
    assert_eq!(TouccaMode::expand_section_with_radius(2, 45), vec![45, 44, 46]);
}

#[test]
fn expansion_size_and_symmetry() {
    for r in 2..=10u32 {
        for s in 0..60usize {
            let e = TouccaMode::expand_section_with_radius(r, s);
            assert_eq!(e.len(), 2 * r as usize - 1);
            let mut sorted = e.clone();
            sorted.sort();
            sorted.dedup();
            assert_eq!(sorted.len(), e.len());
            let centre = TouccaMode::flip_left_ring(s) as i64;
            for k in 1..r as usize {
                let up = TouccaMode::flip_left_ring(e[2 * k - 1]) as i64;
                let down = TouccaMode::flip_left_ring(e[2 * k]) as i64;
                assert_eq!((up - centre).rem_euclid(60), k as i64);
                assert_eq!((centre - down).rem_euclid(60), k as i64);
            }
        }
    }
}

#[test]
fn cell_index_formula() {
    assert_eq!(TouccaMode::map_section_and_ring(0, 0), 0);
    assert_eq!(TouccaMode::map_section_and_ring(29, 3), 119);
    assert_eq!(TouccaMode::map_section_and_ring(30, 0), 120);
    assert_eq!(TouccaMode::map_section_and_ring(45, 2), 195);
    assert_eq!(TouccaMode::map_section_and_ring(59, 3), 239);
}

#[test]
fn absolute_emits_every_overlapping_ring() {
    let mut mode = TouccaMode::Absolute([(0, 3), (2, 5), (4, 6), (6, 7)]);
    assert_eq!(mode.convert_single(1, 10, 2), vec![10, 40]);
    assert_eq!(mode.convert_single(1, 10, 6), vec![70, 100]);
    assert_eq!(mode.convert_single(1, 40, 4), vec![160, 190]);
    assert_eq!(mode.convert_single(1, 10, 8), Vec::<usize>::new());
    let mut all = TouccaMode::Absolute([(0, 7); 4]);
    assert_eq!(all.convert_single(9, 3, 5), vec![3, 33, 63, 93]);
}

#[test]
fn unit_radius_is_the_single_section() {
    let mut mode = TouccaMode::Absolute([(0, 3), (2, 5), (4, 6), (6, 7)]);
    assert_eq!(mode.to_cells(1, 10, 2, 1), vec![10, 40]);
    let mut rel = relative(2, 1);
    assert_eq!(rel.to_cells(1, 33, 0, 1), vec![60 + 3 + 120]);
}

#[test]
fn to_cells_covers_each_section_in_turn() {
    let mut mode = TouccaMode::Absolute([(0, 3), (2, 5), (4, 6), (6, 7)]);
    assert_eq!(mode.to_cells(1, 0, 2, 2), vec![0, 30, 1, 31, 120, 150]);
}

#[test]
fn relative_new_pointer_lands_on_start() {
    let mut mode = relative(1, 2);
    assert_eq!(mode.convert_single(7, 5, 3), vec![35]);
    let mut other = relative(3, 1);
    assert_eq!(other.convert_single(7, 5, 0), vec![95]);
}

#[test]
fn relative_moves_one_ring_per_threshold() {
    let mut mode = relative(1, 2);
    assert_eq!(mode.convert_single(7, 5, 3), vec![35]);
    assert_eq!(mode.convert_single(7, 5, 5), vec![65]);
    assert_eq!(mode.convert_single(7, 5, 7), vec![95]);
    assert_eq!(mode.convert_single(7, 5, 9), vec![95]);
    assert_eq!(mode.convert_single(7, 5, 7), vec![65]);
    assert_eq!(mode.convert_single(7, 5, 6), vec![35]);
    assert_eq!(mode.convert_single(7, 5, 4), vec![5]);
    assert_eq!(mode.convert_single(7, 5, 2), vec![5]);
    assert_eq!(mode.convert_single(7, 5, 0), vec![5]);
    if let TouccaMode::Relative(cfg) = &mode {
        assert_eq!(cfg.map.get(&7), Some(&(0, 0)));
    }
}

#[test]
fn relative_partial_fall_rounds_down() {
    let mut map = HashMap::new();
    map.insert(3u32, (5usize, 2usize));
    let mut mode = TouccaMode::Relative(TouccaRelativeConfig { start: 0, threshold: 2, map });
    assert_eq!(mode.convert_single(3, 10, 4), vec![40]);
    let mut rise = HashMap::new();
    rise.insert(3u32, (5usize, 2usize));
    let mut mode = TouccaMode::Relative(TouccaRelativeConfig { start: 0, threshold: 2, map: rise });
    assert_eq!(mode.convert_single(3, 10, 6), vec![70]);
}

#[test]
fn relative_pointers_are_tracked_apart() {
    let mut mode = relative(0, 1);
    assert_eq!(mode.convert_single(1, 0, 0), vec![0]);
    assert_eq!(mode.convert_single(2, 0, 5), vec![0]);
    assert_eq!(mode.convert_single(1, 0, 2), vec![60]);
    assert_eq!(mode.convert_single(2, 0, 6), vec![30]);
}

#[test]
fn relative_to_cells_moves_once_for_all_sections() {
    let mut mode = relative(1, 1);
    assert_eq!(mode.to_cells(4, 0, 3, 2), vec![30, 31, 150]);
    assert_eq!(mode.to_cells(4, 0, 4, 2), vec![60, 61, 180]);
}

#[test]
fn release_forgets_relative_pointer() {
    let mut mode = relative(1, 2);
    mode.convert_single(7, 5, 3);
    assert_eq!(mode.convert_single(7, 5, 7), vec![95]);
    mode.release(7);
    if let TouccaMode::Relative(cfg) = &mode {
        assert!(cfg.map.get(&7).is_none());
    }
    assert_eq!(mode.convert_single(7, 5, 9), vec![35]);
    let mut abs = TouccaMode::Absolute([(0, 0); 4]);
    abs.release(3);
    assert_eq!(abs.convert_single(3, 0, 0), vec![0, 30, 60, 90]);
}
