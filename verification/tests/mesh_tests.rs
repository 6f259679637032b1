use space_sim::mesh::{body_mesh, create_sphere, push_sphere_grid, push_sphere_indices, SPHERE_SECTORS, SPHERE_STACKS};

#[test]
fn sphere_grid_is_row_major() {
    let mut grid = Vec::new();
    push_sphere_grid(2, 3, &mut grid);
    assert_eq!(grid.len(), 12);
    assert_eq!(grid[0], (0, 0));
    assert_eq!(grid[3], (0, 3));
    assert_eq!(grid[4], (1, 0));
    assert_eq!(grid[11], (2, 3));
}

#[test]
fn sphere_indices_of_one_quad() {
    let mut indices = vec![99];
    push_sphere_indices(1, 1, &mut indices);
    // a = 0, b = 2: triangles (0, 2, 1) and (1, 2, 3)
    assert_eq!(indices, vec![99, 0, 2, 1, 1, 2, 3]);
}

#[test]
fn sphere_indices_of_two_by_two() {
    let mut indices = Vec::new();
    push_sphere_indices(2, 2, &mut indices);
    assert_eq!(indices.len(), 24);
    // quad (0, 1): a = 1, b = 4
    assert_eq!(&indices[6..12], &[1, 4, 2, 2, 4, 5]);
    // quad (1, 1): a = 4, b = 7
    assert_eq!(&indices[18..24], &[4, 7, 5, 5, 7, 8]);
}

#[test]
fn empty_band_counts_give_no_triangles() {
    let mut indices = Vec::new();
    push_sphere_indices(0, 5, &mut indices);
    assert!(indices.is_empty());
    push_sphere_indices(5, 0, &mut indices);
    assert!(indices.is_empty());
    let mut grid = Vec::new();
    push_sphere_grid(0, 0, &mut grid);
    assert_eq!(grid, vec![(0, 0)]);
}

#[test]
fn body_sphere_sizes() {
    let mut grid = Vec::new();
    let mut indices = Vec::new();
    create_sphere(&mut grid, &mut indices);
    let stacks = SPHERE_STACKS as usize;
    let sectors = SPHERE_SECTORS as usize;
    assert_eq!(grid.len(), (stacks + 1) * (sectors + 1));
    assert_eq!(grid.len(), 1089);
    assert_eq!(indices.len(), 6 * stacks * sectors);
    assert_eq!(indices.len(), 6144);
    assert!(indices.iter().all(|&i| (i as usize) < grid.len()));
    assert_eq!(*indices.iter().max().unwrap() as usize, grid.len() - 1);
    for (n, &(i, j)) in grid.iter().enumerate() {
        assert_eq!(n, i as usize * (sectors + 1) + j as usize);
    }
}

#[test]
fn body_mesh_index_bytes_follow_the_indices() {
    let mesh = body_mesh();
    let mut grid = Vec::new();
    let mut indices = Vec::new();
    create_sphere(&mut grid, &mut indices);
    assert_eq!(mesh.grid, grid);
    assert_eq!(mesh.num_to_draw, 6144);
    assert_eq!(mesh.index_bytes.len(), 4 * indices.len());
    let expected: Vec<u8> = indices.iter().flat_map(|v| v.to_ne_bytes()).collect();
    assert_eq!(mesh.index_bytes, expected);
    // not the identity: the second index (b = 33) has a nonzero byte
    assert_ne!(mesh.index_bytes[4..8], [0, 0, 0, 0]);
}
