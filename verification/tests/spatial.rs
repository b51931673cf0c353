use chemengine::entity::{Entities, Entity};
use chemengine::physics::spatial::CellGrid;

fn entity(index: u32) -> Entity {
    Entity { index, generation: 0 }
}

#[test]
fn insert_and_query_radius_finds_nearby_entities() {
    // Cell edge 10: (5, 5, 5) and (8, 5, 5) lie in cell (0, 0, 0); a
    // radius of 5 reaches ceil(5 / 10) + 1 = 2 cells.
    let mut entities = Entities::new();
    let e1 = entities.allocate();
    let e2 = entities.allocate();

    let mut grid = CellGrid::new();
    grid.insert(e1, (0, 0, 0));
    grid.insert(e2, (0, 0, 0));

    let found = grid.query_cells((0, 0, 0), 2);
    assert!(found.contains(&e1));
    assert!(found.contains(&e2));
    assert_eq!(found.len(), 2);
}

#[test]
fn query_radius_does_not_find_distant_entities() {
    // Cell edge 10: (0, 0, 0) lies in cell (0, 0, 0), (100, 100, 100) in
    // cell (10, 10, 10); a radius of 5 reaches 2 cells.
    let mut entities = Entities::new();
    let e1 = entities.allocate();
    let e2 = entities.allocate();

    let mut grid = CellGrid::new();
    grid.insert(e1, (0, 0, 0));
    grid.insert(e2, (10, 10, 10));

    let found = grid.query_cells((0, 0, 0), 2);
    assert!(found.contains(&e1));
    assert!(!found.contains(&e2));
}

#[test]
fn query_skips_cells_out_of_reach() {
    let mut grid = CellGrid::new();
    grid.insert(entity(1), (0, 0, 0));
    grid.insert(entity(2), (10, 10, 10));
    grid.insert(entity(3), (2, -2, 1));
    grid.insert(entity(4), (3, 0, 0));

    let found = grid.query_cells((0, 0, 0), 2);
    assert!(found.contains(&entity(1)));
    assert!(found.contains(&entity(3)));
    assert!(!found.contains(&entity(2)));
    assert!(!found.contains(&entity(4)));
    assert_eq!(found.len(), 2);
}

#[test]
fn query_scans_the_cube_with_the_first_axis_outermost() {
    let mut grid = CellGrid::new();
    grid.insert(entity(1), (1, 0, 0));
    grid.insert(entity(2), (0, 1, 0));
    grid.insert(entity(3), (0, 0, 1));
    grid.insert(entity(4), (-1, 0, 0));
    grid.insert(entity(5), (0, 0, 1));
    let found = grid.query_cells((0, 0, 0), 1);
    assert_eq!(found, vec![entity(4), entity(3), entity(5), entity(2), entity(1)]);
}

#[test]
fn negative_reach_covers_no_cell() {
    let mut grid = CellGrid::new();
    grid.insert(entity(1), (0, 0, 0));
    assert!(grid.query_cells((0, 0, 0), -1).is_empty());
    assert_eq!(grid.query_cells((0, 0, 0), 0), vec![entity(1)]);
}

#[test]
fn query_at_the_edge_of_the_coordinates() {
    let mut grid = CellGrid::new();
    grid.insert(entity(1), (i32::MAX, i32::MIN, 0));
    let found = grid.query_cells((i32::MAX - 1, i32::MIN + 1, 0), 1);
    assert_eq!(found, vec![entity(1)]);
}

#[test]
fn broad_phase_pairs_returns_pairs_in_same_cell() {
    // Cell edge 10: (1, 1, 1) and (2, 2, 2) both lie in cell (0, 0, 0).
    let mut entities = Entities::new();
    let e1 = entities.allocate();
    let e2 = entities.allocate();

    let mut grid = CellGrid::new();
    grid.insert(e1, (0, 0, 0));
    grid.insert(e2, (0, 0, 0));

    let pairs = grid.broad_phase_pairs();
    assert_eq!(pairs, vec![(e1, e2)]);
}

#[test]
fn broad_phase_pairs_cell_mates_in_insertion_order() {
    let mut grid = CellGrid::new();
    for k in 1..=3 {
        grid.insert(entity(k), (5, 5, 5));
    }
    assert_eq!(
        grid.broad_phase_pairs(),
        vec![(entity(1), entity(2)), (entity(1), entity(3)), (entity(2), entity(3))]
    );
}

#[test]
fn broad_phase_pairs_each_neighbouring_cell_once() {
    let mut grid = CellGrid::new();
    grid.insert(entity(1), (0, 0, 0));
    grid.insert(entity(2), (1, 1, 0));
    grid.insert(entity(3), (0, 0, 2));
    grid.insert(entity(4), (-1, 0, 0));
    let pairs = grid.broad_phase_pairs();
    // (0,0,0) has (1,1,0) as a forward neighbour; (-1,0,0) has (0,0,0).
    assert_eq!(pairs, vec![(entity(1), entity(2)), (entity(4), entity(1))]);
    assert!(grid.neighbours_have_keys());
}

#[test]
fn broad_phase_pairs_across_two_full_cells() {
    let mut grid = CellGrid::new();
    grid.insert(entity(1), (0, 0, 0));
    grid.insert(entity(2), (0, 0, 0));
    grid.insert(entity(3), (0, 1, 1));
    grid.insert(entity(4), (0, 1, 1));
    assert_eq!(
        grid.broad_phase_pairs(),
        vec![
            (entity(1), entity(2)),
            (entity(1), entity(3)),
            (entity(1), entity(4)),
            (entity(2), entity(3)),
            (entity(2), entity(4)),
            (entity(3), entity(4)),
        ]
    );
}

#[test]
fn cells_at_the_largest_coordinate_have_no_forward_neighbours() {
    let mut grid = CellGrid::new();
    grid.insert(entity(1), (0, 0, 0));
    assert!(grid.neighbours_have_keys());
    grid.insert(entity(2), (0, i32::MAX, 0));
    assert!(!grid.neighbours_have_keys());
}

#[test]
fn clear_empties_the_grid() {
    // Cell edge 10: (1, 1, 1) lies in cell (0, 0, 0).
    let mut entities = Entities::new();
    let e1 = entities.allocate();

    let mut grid = CellGrid::new();
    grid.insert(e1, (0, 0, 0));
    assert_eq!(grid.entity_count(), 1);

    grid.clear();
    assert_eq!(grid.entity_count(), 0);
    assert!(grid.query_cells((0, 0, 0), 1).is_empty());
    assert!(grid.broad_phase_pairs().is_empty());
}

#[test]
fn entity_count_counts_every_insertion() {
    let mut grid = CellGrid::new();
    assert_eq!(grid.entity_count(), 0);
    grid.insert(entity(1), (0, 0, 0));
    grid.insert(entity(1), (0, 0, 0));
    grid.insert(entity(2), (4, 0, 0));
    assert_eq!(grid.entity_count(), 3);
}

#[test]
fn query_lists_cells_in_scan_order_and_each_cell_in_insertion_order() {
    let mut grid = CellGrid::new();
    grid.insert(entity(1), (1, 0, 0));
    grid.insert(entity(2), (0, 0, 1));
    grid.insert(entity(3), (0, 0, 0));
    grid.insert(entity(4), (0, 0, 1));
    grid.insert(entity(5), (-1, 1, -1));
    assert_eq!(
        grid.query_cells((0, 0, 0), 1),
        vec![entity(5), entity(3), entity(2), entity(4), entity(1)]
    );
}
