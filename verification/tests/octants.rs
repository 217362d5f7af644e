use etiles::morton::check_can_list;
use etiles::morton::descendants_in_morton_order;
use etiles::octant::cells_per_axis;
use etiles::OctantIndex;

fn cell(level: u32, x: u64, y: u64, z: u64) -> OctantIndex {
    OctantIndex { level, x, y, z }
}

#[test]
fn origin_is_the_root_cell() {
    assert_eq!(OctantIndex::origin(), cell(0, 0, 0, 0));
}

#[test]
fn new_accepts_coordinates_within_the_level() {
    assert_eq!(OctantIndex::new(2, 1, 3, 0), Some(cell(2, 1, 3, 0)));
    assert_eq!(OctantIndex::new(0, 0, 0, 0), Some(cell(0, 0, 0, 0)));
    assert_eq!(
        OctantIndex::new(32, 4294967295, 0, 4294967295),
        Some(cell(32, 4294967295, 0, 4294967295))
    );
}

#[test]
fn new_refuses_coordinates_beyond_the_level() {
    assert_eq!(OctantIndex::new(0, 1, 0, 0), None);
    assert_eq!(OctantIndex::new(2, 4, 0, 0), None);
    assert_eq!(OctantIndex::new(2, 0, 4, 0), None);
    assert_eq!(OctantIndex::new(2, 0, 0, 4), None);
}

#[test]
fn new_refuses_levels_beyond_the_deepest() {
    assert_eq!(OctantIndex::new(33, 0, 0, 0), None);
}

#[test]
fn parent_halves_the_coordinates() {
    assert_eq!(cell(2, 3, 0, 0).get_parent(), Some(cell(1, 1, 0, 0)));
    assert_eq!(cell(3, 5, 6, 7).get_parent(), Some(cell(2, 2, 3, 3)));
}

#[test]
fn the_root_has_no_parent() {
    assert_eq!(cell(0, 0, 0, 0).get_parent(), None);
}

#[test]
fn a_cell_contains_itself_and_its_descendants() {
    let base = cell(1, 1, 0, 1);
    assert!(base.contains(&base));
    assert!(base.contains(&cell(2, 2, 0, 2)));
    assert!(base.contains(&cell(2, 3, 1, 3)));
    assert!(base.contains(&cell(3, 7, 3, 6)));
    assert!(cell(0, 0, 0, 0).contains(&cell(5, 31, 0, 17)));
}

#[test]
fn a_cell_does_not_contain_cells_beside_or_above_it() {
    let base = cell(1, 1, 0, 1);
    assert!(!base.contains(&cell(1, 0, 0, 1)));
    assert!(!base.contains(&cell(2, 1, 0, 2)));
    assert!(!base.contains(&cell(0, 0, 0, 0)));
    assert!(!base.contains(&cell(2, 2, 2, 2)));
}

#[test]
fn cells_per_axis_is_a_power_of_two() {
    assert_eq!(cells_per_axis(0), 1);
    assert_eq!(cells_per_axis(1), 2);
    assert_eq!(cells_per_axis(10), 1024);
    assert_eq!(cells_per_axis(32), 4294967296);
}

#[test]
fn the_only_descendant_at_offset_zero_is_the_cell() {
    let base = cell(3, 5, 6, 7);
    assert_eq!(descendants_in_morton_order(&base, 0), vec![base]);
}

#[test]
fn children_come_in_morton_order_with_x_lowest() {
    let children = descendants_in_morton_order(&cell(0, 0, 0, 0), 1);
    assert_eq!(
        children,
        vec![
            cell(1, 0, 0, 0),
            cell(1, 1, 0, 0),
            cell(1, 0, 1, 0),
            cell(1, 1, 1, 0),
            cell(1, 0, 0, 1),
            cell(1, 1, 0, 1),
            cell(1, 0, 1, 1),
            cell(1, 1, 1, 1),
        ]
    );
}

#[test]
fn children_of_an_inner_cell_are_offset_by_its_coordinates() {
    let children = descendants_in_morton_order(&cell(1, 1, 0, 1), 1);
    assert_eq!(
        children,
        vec![
            cell(2, 2, 0, 2),
            cell(2, 3, 0, 2),
            cell(2, 2, 1, 2),
            cell(2, 3, 1, 2),
            cell(2, 2, 0, 3),
            cell(2, 3, 0, 3),
            cell(2, 2, 1, 3),
            cell(2, 3, 1, 3),
        ]
    );
}

#[test]
fn grandchildren_follow_their_parents() {
    let cells = descendants_in_morton_order(&cell(0, 0, 0, 0), 2);
    assert_eq!(cells.len(), 64);
    assert_eq!(cells[0], cell(2, 0, 0, 0));
    assert_eq!(cells[1], cell(2, 1, 0, 0));
    assert_eq!(cells[2], cell(2, 0, 1, 0));
    assert_eq!(cells[4], cell(2, 0, 0, 1));
    assert_eq!(cells[7], cell(2, 1, 1, 1));
    assert_eq!(cells[8], cell(2, 2, 0, 0));
    assert_eq!(cells[16], cell(2, 0, 2, 0));
    assert_eq!(cells[32], cell(2, 0, 0, 2));
    assert_eq!(cells[63], cell(2, 3, 3, 3));
}

#[test]
fn every_morton_position_descends_from_the_child_of_its_leading_digit() {
    let base = cell(2, 1, 2, 3);
    let children = descendants_in_morton_order(&base, 1);
    let cells = descendants_in_morton_order(&base, 3);
    assert_eq!(cells.len(), 512);
    for (code, descendant) in cells.iter().enumerate() {
        assert_eq!(descendant.level, 5);
        assert!(base.contains(descendant));
        assert!(children[code / 64].contains(descendant));
    }
}

#[test]
fn descendants_at_the_deepest_level_keep_morton_order() {
    let base = cell(31, 2147483647, 0, 1);
    let children = descendants_in_morton_order(&base, 1);
    assert_eq!(children[0], cell(32, 4294967294, 0, 2));
    assert_eq!(children[1], cell(32, 4294967295, 0, 2));
    assert_eq!(children[2], cell(32, 4294967294, 1, 2));
    assert_eq!(children[7], cell(32, 4294967295, 1, 3));
}

#[test]
fn ten_levels_can_be_listed_where_the_address_space_holds_them() {
    assert!(check_can_list(0));
    assert!(check_can_list(3));
    assert!(check_can_list(8));
    let wide = (usize::MAX as u128) >= (80u128 << 30);
    assert_eq!(check_can_list(10), wide);
    assert!(!check_can_list(11));
}
