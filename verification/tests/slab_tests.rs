use nougat::slab::{Voxel, VoxelBox, VoxelGrid};

fn vx(x: i32, y: i32, z: i32) -> Voxel {
    Voxel { x, y, z }
}

fn bx(lower: Voxel, upper: Voxel) -> VoxelBox {
    VoxelBox { lower, upper }
}

#[test]
fn flat_index_of_a_voxel() {
    let grid = VoxelGrid::new(3, 4, 5, &Vec::new());
    assert_eq!(grid.flat_idx(0, 0, 0), 0);
    assert_eq!(grid.flat_idx(1, 1, 1), 16);
    assert_eq!(grid.flat_idx(2, 3, 4), 59);
    assert_eq!(grid.cells.len(), 60);
}

#[test]
fn every_voxel_has_its_own_cell() {
    let grid = VoxelGrid::new(3, 4, 5, &Vec::new());
    let mut seen = vec![false; 60];
    for z in 0..5 {
        for y in 0..4 {
            for x in 0..3 {
                let i = grid.flat_idx(x, y, z);
                assert!(!seen[i]);
                seen[i] = true;
            }
        }
    }
    assert!(seen.iter().all(|b| *b));
}

#[test]
fn contains_checks_each_axis() {
    let grid = VoxelGrid::new(2, 3, 4, &Vec::new());
    assert!(grid.contains(vx(0, 0, 0)));
    assert!(grid.contains(vx(1, 2, 3)));
    assert!(!grid.contains(vx(-1, 0, 0)));
    assert!(!grid.contains(vx(0, -1, 0)));
    assert!(!grid.contains(vx(0, 0, -1)));
    assert!(!grid.contains(vx(2, 0, 0)));
    assert!(!grid.contains(vx(0, 3, 0)));
    assert!(!grid.contains(vx(0, 0, 4)));
}

#[test]
fn cell_index_is_none_outside_the_grid() {
    let grid = VoxelGrid::new(2, 3, 4, &Vec::new());
    assert_eq!(grid.cell_index(vx(1, 2, 3)), Some(1 + 2 * (2 + 3 * 3)));
    assert_eq!(grid.cell_index(vx(2, 0, 0)), None);
    assert_eq!(grid.cell_index(vx(0, 0, -1)), None);
}

#[test]
fn clumps_are_listed_in_the_voxels_of_their_box() {
    // Box 0 covers x in 0..=1, y in 0..=0, z in 0..=0; box 1 covers only voxel (1, 0, 0).
    let boxes = vec![bx(vx(0, 0, 0), vx(1, 0, 0)), bx(vx(1, 0, 0), vx(1, 0, 0))];
    let grid = VoxelGrid::new(2, 2, 1, &boxes);
    assert_eq!(grid.cells[grid.flat_idx(0, 0, 0)], vec![0]);
    assert_eq!(grid.cells[grid.flat_idx(1, 0, 0)], vec![0, 1]);
    assert_eq!(grid.cells[grid.flat_idx(0, 1, 0)], Vec::<usize>::new());
    assert_eq!(grid.cells[grid.flat_idx(1, 1, 0)], Vec::<usize>::new());
}

#[test]
fn a_clump_inside_one_voxel_is_listed_there() {
    // A clump of radius 0.25 at (0.5, 0.5, 0.5) in a slab of width 2 split into 2x2x2 voxels
    // has the box (0, 0, 0)..=(0, 0, 0).
    let boxes = vec![bx(vx(0, 0, 0), vx(0, 0, 0))];
    let grid = VoxelGrid::new(2, 2, 2, &boxes);
    let mut expected = vec![Vec::<usize>::new(); 8];
    expected[0] = vec![0];
    assert_eq!(grid.cells, expected);
}

#[test]
fn boxes_are_clamped_to_the_grid() {
    // A box reaching beyond the grid on every side covers the whole grid.
    let boxes = vec![bx(vx(-5, -5, -5), vx(10, 10, 10))];
    let grid = VoxelGrid::new(2, 2, 2, &boxes);
    assert_eq!(grid.cells.len(), 8);
    for cell in &grid.cells {
        assert_eq!(cell, &vec![0]);
    }
    // A corner saturated at the largest coordinate is clamped too.
    let boxes = vec![bx(vx(1, 1, 1), vx(i32::MAX, i32::MAX, i32::MAX))];
    let grid = VoxelGrid::new(2, 2, 2, &boxes);
    assert_eq!(grid.cells[grid.flat_idx(1, 1, 1)], vec![0]);
    assert_eq!(grid.cells.iter().flatten().count(), 1);
}

#[test]
fn upper_corner_is_included_and_empty_boxes_cover_nothing() {
    // Box 0 covers (1..=1, 1..=2, 1..=2) clamped to (1, 1, 1); box 1 covers (0..=1)^3;
    // box 2 is empty since its lower corner lies above its upper corner.
    let boxes = vec![bx(vx(1, 1, 1), vx(1, 2, 2)), bx(vx(0, 0, 0), vx(1, 1, 1)), bx(vx(3, 3, 3), vx(0, 0, 0))];
    let grid = VoxelGrid::new(2, 2, 2, &boxes);
    assert_eq!(grid.cells[grid.flat_idx(1, 1, 1)], vec![0, 1]);
    assert_eq!(grid.cells[grid.flat_idx(0, 0, 0)], vec![1]);
    assert_eq!(grid.cells[grid.flat_idx(1, 0, 1)], vec![1]);
    assert_eq!(grid.cells.iter().flatten().filter(|&&si| si == 2).count(), 0);
    assert_eq!(grid.cells.iter().flatten().count(), 9);
}

#[test]
fn stepping_moves_one_voxel_along_one_axis() {
    let v = vx(3, -2, 7);
    assert_eq!(v.stepped(0, 1), vx(4, -2, 7));
    assert_eq!(v.stepped(1, -1), vx(3, -3, 7));
    assert_eq!(v.stepped(2, 0), vx(3, -2, 7));
    assert_eq!(v.stepped(2, -1), vx(3, -2, 6));
}

#[test]
fn a_grid_with_an_empty_axis_has_no_cells() {
    let boxes = vec![bx(vx(0, 0, 0), vx(3, 3, 3))];
    let grid = VoxelGrid::new(3, 0, 3, &boxes);
    assert!(grid.cells.is_empty());
}
