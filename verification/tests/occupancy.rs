use etiles::OctantIndex;
use etiles::OctreeOccupancy;

fn at(level: u32, x: u64, y: u64, z: u64) -> OctantIndex {
    OctantIndex { level, x, y, z }
}

#[test]
fn a_new_occupancy_holds_no_cell() {
    let occupancy = OctreeOccupancy::new();
    assert!(occupancy.cell_indices().is_empty());
    assert!(occupancy.occupied_cell_indices().is_empty());
    assert_eq!(occupancy.cell_count(), 0);
    assert_eq!(occupancy.get_max_occupied_level(), None);
    assert!(!occupancy.is_cell_occupied(at(0, 0, 0, 0)));
    assert!(!occupancy.contains_content_cells(at(0, 0, 0, 0)));
}

#[test]
fn content_in_the_root_occupies_the_root() {
    let mut occupancy = OctreeOccupancy::new();
    assert!(occupancy.add_content_cell(at(0, 0, 0, 0)));
    assert!(occupancy.is_cell_occupied(at(0, 0, 0, 0)));
    assert!(occupancy.contains_content_cells(at(0, 0, 0, 0)));
    assert_eq!(occupancy.cell_indices(), vec![at(0, 0, 0, 0)]);
    assert_eq!(occupancy.get_max_occupied_level(), Some(0));
}

#[test]
fn content_occupies_every_cell_above_it() {
    let mut occupancy = OctreeOccupancy::new();
    assert!(occupancy.add_content_cell(at(3, 5, 6, 7)));
    assert_eq!(
        occupancy.occupied_cell_indices(),
        vec![at(0, 0, 0, 0), at(1, 1, 1, 1), at(2, 2, 3, 3), at(3, 5, 6, 7)]
    );
    assert_eq!(occupancy.cell_indices(), vec![at(3, 5, 6, 7)]);
    assert_eq!(occupancy.get_max_occupied_level(), Some(3));
}

#[test]
fn cells_above_content_contain_content_without_holding_it() {
    let mut occupancy = OctreeOccupancy::new();
    occupancy.add_content_cell(at(2, 3, 0, 1));
    assert!(occupancy.contains_content_cells(at(0, 0, 0, 0)));
    assert!(occupancy.contains_content_cells(at(1, 1, 0, 0)));
    assert!(occupancy.contains_content_cells(at(2, 3, 0, 1)));
    assert!(!occupancy.contains_content_cells(at(1, 0, 0, 0)));
    assert!(!occupancy.contains_content_cells(at(2, 3, 0, 0)));
    assert!(!occupancy.contains_content_cells(at(3, 6, 0, 2)));
    assert_eq!(occupancy.cell_count(), 1);
}

#[test]
fn occupancy_without_content_is_occupied_only() {
    let mut occupancy = OctreeOccupancy::new();
    assert!(occupancy.add_cell_occupancy(at(1, 0, 1, 0)));
    assert!(occupancy.is_cell_occupied(at(1, 0, 1, 0)));
    assert!(occupancy.is_cell_occupied(at(0, 0, 0, 0)));
    assert!(!occupancy.contains_content_cells(at(1, 0, 1, 0)));
    assert!(!occupancy.contains_content_cells(at(0, 0, 0, 0)));
    assert!(occupancy.cell_indices().is_empty());
    assert_eq!(occupancy.get_max_occupied_level(), Some(1));
}

#[test]
fn an_invalid_cell_is_refused_and_changes_nothing() {
    let mut occupancy = OctreeOccupancy::new();
    occupancy.add_content_cell(at(1, 1, 1, 1));
    assert!(!occupancy.add_content_cell(at(1, 2, 0, 0)));
    assert!(!occupancy.add_cell_occupancy(at(33, 0, 0, 0)));
    assert!(!occupancy.add_cell_occupancy(at(0, 0, 0, 1)));
    assert_eq!(occupancy.occupied_cell_indices(), vec![at(0, 0, 0, 0), at(1, 1, 1, 1)]);
    assert_eq!(occupancy.cell_indices(), vec![at(1, 1, 1, 1)]);
}

#[test]
fn adding_a_cell_twice_keeps_it_once() {
    let mut occupancy = OctreeOccupancy::new();
    assert!(occupancy.add_content_cell(at(1, 0, 0, 1)));
    assert!(occupancy.add_content_cell(at(1, 0, 0, 1)));
    assert!(occupancy.add_cell_occupancy(at(1, 0, 0, 1)));
    assert_eq!(occupancy.occupied_cell_indices(), vec![at(0, 0, 0, 0), at(1, 0, 0, 1)]);
    assert_eq!(occupancy.cell_indices(), vec![at(1, 0, 0, 1)]);
}

#[test]
fn cells_are_listed_by_level_then_x_y_z() {
    let mut occupancy = OctreeOccupancy::new();
    occupancy.add_content_cell(at(2, 3, 3, 3));
    occupancy.add_content_cell(at(1, 0, 1, 0));
    occupancy.add_content_cell(at(2, 0, 2, 1));
    occupancy.add_content_cell(at(2, 0, 2, 0));
    occupancy.add_content_cell(at(0, 0, 0, 0));
    occupancy.add_content_cell(at(2, 0, 1, 3));
    assert_eq!(
        occupancy.cell_indices(),
        vec![
            at(0, 0, 0, 0),
            at(1, 0, 1, 0),
            at(2, 0, 1, 3),
            at(2, 0, 2, 0),
            at(2, 0, 2, 1),
            at(2, 3, 3, 3),
        ]
    );
}

#[test]
fn the_order_of_adding_does_not_show() {
    let cells = vec![at(3, 1, 2, 3), at(1, 1, 0, 0), at(2, 0, 0, 3), at(3, 7, 7, 7), at(0, 0, 0, 0)];
    let mut forward = OctreeOccupancy::new();
    for cell in cells.iter() {
        forward.add_content_cell(*cell);
    }
    let mut backward = OctreeOccupancy::new();
    for cell in cells.iter().rev() {
        backward.add_content_cell(*cell);
    }
    assert_eq!(forward.cell_indices(), backward.cell_indices());
    assert_eq!(forward.occupied_cell_indices(), backward.occupied_cell_indices());
}

#[test]
fn occupied_cells_of_a_level_are_those_of_that_level() {
    let mut occupancy = OctreeOccupancy::new();
    occupancy.add_content_cell(at(2, 3, 3, 3));
    occupancy.add_content_cell(at(2, 0, 2, 1));
    occupancy.add_content_cell(at(1, 0, 0, 0));
    assert_eq!(occupancy.get_occupied_cell_indices_of_level(0), vec![at(0, 0, 0, 0)]);
    assert_eq!(
        occupancy.get_occupied_cell_indices_of_level(1),
        vec![at(1, 0, 0, 0), at(1, 0, 1, 0), at(1, 1, 1, 1)]
    );
    assert_eq!(
        occupancy.get_occupied_cell_indices_of_level(2),
        vec![at(2, 0, 2, 1), at(2, 3, 3, 3)]
    );
    assert!(occupancy.get_occupied_cell_indices_of_level(3).is_empty());
}

#[test]
fn the_deepest_occupied_level_is_the_greatest_level() {
    let mut occupancy = OctreeOccupancy::new();
    occupancy.add_content_cell(at(1, 1, 1, 1));
    assert_eq!(occupancy.get_max_occupied_level(), Some(1));
    occupancy.add_cell_occupancy(at(5, 0, 0, 0));
    assert_eq!(occupancy.get_max_occupied_level(), Some(5));
    occupancy.add_content_cell(at(3, 7, 7, 7));
    assert_eq!(occupancy.get_max_occupied_level(), Some(5));
}
