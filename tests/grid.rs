use wfc::category::{compatible, Category};
use wfc::grid::{Coord, Matrix};

#[test]
fn compatibility_table() {
    assert!(!compatible(Category::Sea, Category::Soil));
    assert!(!compatible(Category::Soil, Category::Sea));
    assert!(compatible(Category::Sea, Category::Sand));
    assert!(compatible(Category::Soil, Category::Sand));
    assert!(compatible(Category::Sand, Category::Sand));
    assert!(compatible(Category::Sea, Category::Sea));
    assert!(compatible(Category::Soil, Category::Soil));
    assert!(compatible(Category::Sea, Category::Nada));
}

#[test]
fn new_grid_is_undecided() {
    let m = Matrix::new(3, 2, Category::Nada);
    assert_eq!(m.width, 3);
    assert_eq!(m.height, 2);
    assert_eq!(m.data.len(), 6);
    for y in 0..2 {
        for x in 0..3 {
            assert_eq!(m.get(x, y), Category::Nada);
        }
    }
}

#[test]
fn set_changes_one_cell() {
    let mut m = Matrix::new(3, 2, Category::Nada);
    m.set(2, 1, Category::Soil);
    assert_eq!(m.get(2, 1), Category::Soil);
    assert_eq!(m.data[5], Category::Soil);
    assert_eq!(m.get(1, 1), Category::Nada);
    assert_eq!(m.get(2, 0), Category::Nada);
}

#[test]
fn neighbors_in_fixed_order() {
    let m = Matrix::new(3, 3, Category::Nada);
    assert_eq!(
        m.neighbors(1, 1),
        vec![Coord::new(0, 1), Coord::new(2, 1), Coord::new(1, 0), Coord::new(1, 2)]
    );
    assert_eq!(m.neighbors(0, 0), vec![Coord::new(1, 0), Coord::new(0, 1)]);
    assert_eq!(m.neighbors(2, 2), vec![Coord::new(1, 2), Coord::new(2, 1)]);
    assert_eq!(m.neighbors(2, 0), vec![Coord::new(1, 0), Coord::new(2, 1)]);
}

#[test]
fn single_cell_has_no_neighbors() {
    let m = Matrix::new(1, 1, Category::Nada);
    assert!(m.neighbors(0, 0).is_empty());
    assert!(m.neighbors_value(0, 0).is_empty());
}

#[test]
fn neighbor_values_follow_neighbor_order() {
    let mut m = Matrix::new(3, 3, Category::Nada);
    m.set(0, 1, Category::Sea);
    m.set(1, 2, Category::Soil);
    assert_eq!(
        m.neighbors_value(1, 1),
        vec![Category::Sea, Category::Nada, Category::Nada, Category::Soil]
    );
}
