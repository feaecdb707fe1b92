use wfc::category::Category;
use wfc::collapse::{collapse, collapse_with};
use wfc::driver::{wfc, WfcState};
use wfc::frontier::{fewest_open_cell, is_finished, pos_neighbors};
use wfc::grid::{Coord, Matrix};
use wfc::rules::possibilities;

fn assert_adjacent_compatible(m: &Matrix) {
    for y in 0..m.height {
        for x in 0..m.width {
            let here = m.get(x, y);
            for n in m.neighbors(x, y) {
                let there = m.get(n.x, n.y);
                assert!(!(here == Category::Sea && there == Category::Soil));
                assert!(!(here == Category::Soil && there == Category::Sea));
            }
        }
    }
}

#[test]
fn decided_cell_has_no_options() {
    let mut m = Matrix::new(3, 3, Category::Nada);
    for c in [Category::Sea, Category::Sand, Category::Soil] {
        m.set(1, 1, c);
        assert!(possibilities(&m, 1, 1).is_empty());
    }
}

#[test]
fn free_cell_allows_every_terrain() {
    let m = Matrix::new(3, 3, Category::Nada);
    assert_eq!(
        possibilities(&m, 1, 1),
        vec![Category::Sand, Category::Sea, Category::Soil]
    );
}

#[test]
fn options_respect_decided_neighbors() {
    let mut m = Matrix::new(3, 3, Category::Nada);
    m.set(0, 1, Category::Soil);
    assert_eq!(possibilities(&m, 1, 1), vec![Category::Sand, Category::Soil]);
    m.set(2, 1, Category::Sea);
    assert_eq!(possibilities(&m, 1, 1), vec![Category::Sand]);
    let mut k = Matrix::new(3, 3, Category::Nada);
    k.set(1, 0, Category::Sand);
    assert_eq!(
        possibilities(&k, 1, 1),
        vec![Category::Sand, Category::Sea, Category::Soil]
    );
}

#[test]
fn options_are_the_same_when_asked_twice() {
    let mut m = Matrix::new(4, 4, Category::Nada);
    m.set(1, 2, Category::Sea);
    let a = possibilities(&m, 1, 1);
    let b = possibilities(&m, 1, 1);
    assert_eq!(a, b);
    assert_eq!(a, vec![Category::Sand, Category::Sea]);
}

#[test]
fn injected_pick_chooses_the_category() {
    let mut m = Matrix::new(2, 1, Category::Nada);
    assert!(collapse_with(&mut m, 0, 0, 1));
    assert_eq!(m.get(0, 0), Category::Sea);
    assert_eq!(m.get(1, 0), Category::Nada);
    let next = possibilities(&m, 1, 0);
    assert_eq!(next, vec![Category::Sand, Category::Sea]);
    assert!(!next.contains(&Category::Soil));
}

#[test]
fn injected_pick_wraps_around() {
    let mut m = Matrix::new(2, 2, Category::Nada);
    assert!(collapse_with(&mut m, 1, 1, 5));
    assert_eq!(m.get(1, 1), Category::Soil);
    assert_eq!(possibilities(&m, 0, 1), vec![Category::Sand, Category::Soil]);
    assert!(collapse_with(&mut m, 0, 1, 4));
    assert_eq!(m.get(0, 1), Category::Sand);
}

#[test]
fn resolving_a_decided_cell_changes_nothing() {
    let mut m = Matrix::new(2, 2, Category::Nada);
    m.set(0, 0, Category::Sand);
    let before = m.data.clone();
    assert!(!collapse_with(&mut m, 0, 0, 0));
    assert!(!collapse(&mut m, 0, 0));
    assert_eq!(m.data, before);
}

#[test]
fn random_resolution_writes_a_legal_category() {
    for _ in 0..50 {
        let mut m = Matrix::new(3, 1, Category::Nada);
        m.set(0, 0, Category::Sea);
        let legal = possibilities(&m, 1, 0);
        assert!(collapse(&mut m, 1, 0));
        let got = m.get(1, 0);
        assert!(legal.contains(&got));
        assert_ne!(got, Category::Soil);
        assert_eq!(m.get(0, 0), Category::Sea);
        assert_eq!(m.get(2, 0), Category::Nada);
    }
}

#[test]
fn neighbor_pick_prefers_fewest_options() {
    // Around (1, 1): the left neighbour has three options, the right one two.
    let mut m = Matrix::new(4, 3, Category::Nada);
    m.set(1, 1, Category::Sand);
    m.set(3, 1, Category::Sea);
    assert_eq!(pos_neighbors(&m, 1, 1), Some(Coord::new(2, 1)));
}

#[test]
fn neighbor_pick_tie_goes_to_earlier_neighbor() {
    // Left and right of (2, 1) both have two options; up and down have three.
    let mut m = Matrix::new(5, 3, Category::Nada);
    m.set(2, 1, Category::Sand);
    m.set(0, 1, Category::Soil);
    m.set(4, 1, Category::Sea);
    assert_eq!(possibilities(&m, 1, 1).len(), 2);
    assert_eq!(possibilities(&m, 3, 1).len(), 2);
    assert_eq!(pos_neighbors(&m, 2, 1), Some(Coord::new(1, 1)));
    // All four neighbours tie: the left one wins.
    let mut k = Matrix::new(3, 3, Category::Nada);
    k.set(1, 1, Category::Sand);
    assert_eq!(pos_neighbors(&k, 1, 1), Some(Coord::new(0, 1)));
}

#[test]
fn neighbor_pick_skips_decided_neighbors() {
    let mut m = Matrix::new(3, 1, Category::Nada);
    m.set(1, 0, Category::Sand);
    m.set(0, 0, Category::Sand);
    assert_eq!(pos_neighbors(&m, 1, 0), Some(Coord::new(2, 0)));
    m.set(2, 0, Category::Sea);
    assert_eq!(pos_neighbors(&m, 1, 0), None);
}

#[test]
fn global_scan_finds_most_constrained_cell() {
    let mut m = Matrix::new(3, 3, Category::Nada);
    m.set(0, 0, Category::Sea);
    m.set(2, 2, Category::Soil);
    // (1, 0) and (0, 1) have two options, (0, 1) comes later row by row.
    assert_eq!(fewest_open_cell(&m), Some(Coord::new(1, 0)));
    m.set(0, 2, Category::Sea);
    m.set(2, 0, Category::Soil);
    // (1, 0) now sits between Sea and Soil and has only Sand.
    assert_eq!(fewest_open_cell(&m), Some(Coord::new(1, 0)));
}

#[test]
fn global_scan_on_full_grid() {
    let m = Matrix::new(2, 2, Category::Sand);
    assert_eq!(fewest_open_cell(&m), None);
    assert!(is_finished(&m));
    let mut k = Matrix::new(2, 2, Category::Sand);
    k.set(1, 1, Category::Nada);
    assert!(!is_finished(&k));
    assert_eq!(fewest_open_cell(&k), Some(Coord::new(1, 1)));
}

#[test]
fn one_by_one_grid_finishes() {
    let mut m = Matrix::new(1, 1, Category::Nada);
    assert_eq!(wfc(&mut m, 0, 0), WfcState::Finished);
    assert_ne!(m.get(0, 0), Category::Nada);
    assert!(is_finished(&m));
}

#[test]
fn full_run_fills_the_grid_consistently() {
    for _ in 0..20 {
        let mut m = Matrix::new(32, 19, Category::Nada);
        assert_eq!(wfc(&mut m, 0, 0), WfcState::Finished);
        assert!(is_finished(&m));
        assert_adjacent_compatible(&m);
    }
}

#[test]
fn run_keeps_preset_cells() {
    let mut m = Matrix::new(6, 4, Category::Nada);
    m.set(5, 3, Category::Sea);
    m.set(2, 1, Category::Soil);
    assert_eq!(wfc(&mut m, 0, 0), WfcState::Finished);
    assert_eq!(m.get(5, 3), Category::Sea);
    assert_eq!(m.get(2, 1), Category::Soil);
    assert_adjacent_compatible(&m);
}

#[test]
fn run_from_decided_cell_is_a_contradiction() {
    // The target is surrounded by cells that rule out one another, and is
    // itself decided, so it has no legal category.
    let mut m = Matrix::new(3, 3, Category::Nada);
    m.set(0, 1, Category::Sea);
    m.set(2, 1, Category::Soil);
    m.set(1, 0, Category::Sea);
    m.set(1, 1, Category::Sand);
    assert!(possibilities(&m, 1, 1).is_empty());
    let before = m.data.clone();
    assert!(!collapse(&mut m, 1, 1));
    assert_eq!(wfc(&mut m, 1, 1), WfcState::Contradiction);
    assert_eq!(m.data, before);
    assert_eq!(m.get(1, 1), Category::Sand);
}
