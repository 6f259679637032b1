//! The latitude/longitude sphere mesh that every body is drawn with: which
//! grid vertices exist, in which order, and how they are joined into
//! triangles.
use vstd::prelude::*;

verus! {

/// Number of latitude bands of the body mesh.
pub const SPHERE_STACKS: u32 = 32;

/// Number of longitude bands of the body mesh.
pub const SPHERE_SECTORS: u32 = 32;

/// Position of grid vertex `(i, j)` in the vertex list: rows of
/// `sectors + 1` vertices, one row per latitude line.
pub open spec fn grid_index(sectors: nat, i: nat, j: nat) -> nat {
    i * (sectors + 1) + j
}

/// Number of grid vertices of a mesh with the given bands.
pub open spec fn grid_vertex_count(stacks: nat, sectors: nat) -> nat {
    (stacks + 1) * (sectors + 1)
}

/// The grid coordinates of row `i`, columns `0..n`.
pub open spec fn grid_row(i: nat, n: nat) -> Seq<(u32, u32)>
    decreases n,
{
    if n == 0 {
        Seq::empty()
    } else {
        grid_row(i, (n - 1) as nat).push((i as u32, (n - 1) as u32))
    }
}

/// The grid coordinates of rows `0..m`, each with `sectors + 1` columns.
pub open spec fn grid_rows(sectors: nat, m: nat) -> Seq<(u32, u32)>
    decreases m,
{
    if m == 0 {
        Seq::empty()
    } else {
        grid_rows(sectors, (m - 1) as nat) + grid_row((m - 1) as nat, sectors + 1)
    }
}

/// All grid coordinates of the mesh, in vertex order.
pub open spec fn sphere_grid(stacks: nat, sectors: nat) -> Seq<(u32, u32)> {
    grid_rows(sectors, stacks + 1)
}

/// The two triangles of quad `(i, j)`: `a` is its corner on row `i`, `b`
/// the corner below it on row `i + 1`.
pub open spec fn quad(sectors: nat, i: nat, j: nat) -> Seq<u32> {
    let a = grid_index(sectors, i, j);
    let b = a + sectors + 1;
    seq![a as u32, b as u32, (a + 1) as u32, (a + 1) as u32, b as u32, (b + 1) as u32]
}

/// The triangles of the quads of row `i`, columns `0..n`.
pub open spec fn quad_row(sectors: nat, i: nat, n: nat) -> Seq<u32>
    decreases n,
{
    if n == 0 {
        Seq::empty()
    } else {
        quad_row(sectors, i, (n - 1) as nat) + quad(sectors, i, (n - 1) as nat)
    }
}

/// The triangles of the quads of rows `0..m`.
pub open spec fn quad_rows(sectors: nat, m: nat) -> Seq<u32>
    decreases m,
{
    if m == 0 {
        Seq::empty()
    } else {
        quad_rows(sectors, (m - 1) as nat) + quad_row(sectors, (m - 1) as nat, sectors)
    }
}

/// The full index list of the mesh.
pub open spec fn sphere_indices(stacks: nat, sectors: nat) -> Seq<u32> {
    quad_rows(sectors, stacks)
}

/// A mesh whose every vertex index fits in a `u32`.
pub open spec fn mesh_fits(stacks: nat, sectors: nat) -> bool {
    grid_vertex_count(stacks, sectors) <= u32::MAX + 1
}

/// Appends the grid coordinates `(i, j)` of every mesh vertex to `grid`,
/// row by row.
pub fn push_sphere_grid(stacks: u32, sectors: u32, grid: &mut Vec<(u32, u32)>)
    requires
        sectors < u32::MAX,
        stacks < u32::MAX,
    ensures
        final(grid)@ == old(grid)@ + sphere_grid(stacks as nat, sectors as nat),
{
    let ghost start = old(grid)@;
    let mut i: u32 = 0;
    while i <= stacks
        invariant
            i <= stacks + 1,
            stacks < u32::MAX,
            sectors < u32::MAX,
            grid@ == start + grid_rows(sectors as nat, i as nat),
        decreases stacks + 1 - i,
    {
        let mut j: u32 = 0;
        while j <= sectors
            invariant
                i <= stacks,
                j <= sectors + 1,
                sectors < u32::MAX,
                stacks < u32::MAX,
                grid@ == start + grid_rows(sectors as nat, i as nat) + grid_row(i as nat, j as nat),
            decreases sectors + 1 - j,
        {
            grid.push((i, j));
            assert(grid_row(i as nat, (j + 1) as nat) == grid_row(i as nat, j as nat).push((i, j)));
            j = j + 1;
        }
        assert(grid_rows(sectors as nat, (i + 1) as nat) == grid_rows(sectors as nat, i as nat)
            + grid_row(i as nat, (sectors + 1) as nat));
        i = i + 1;
    }
}

/// Appends the index list of the mesh to `indices`: for each quad, row by
/// row, its two triangles `(a, b, a + 1)` and `(a + 1, b, b + 1)`.
pub fn push_sphere_indices(stacks: u32, sectors: u32, indices: &mut Vec<u32>)
    requires
        mesh_fits(stacks as nat, sectors as nat),
    ensures
        final(indices)@ == old(indices)@ + sphere_indices(stacks as nat, sectors as nat),
{
    let ghost start = old(indices)@;
    let mut i: u32 = 0;
    while i < stacks
        invariant
            i <= stacks,
            mesh_fits(stacks as nat, sectors as nat),
            indices@ == start + quad_rows(sectors as nat, i as nat),
        decreases stacks - i,
    {
        let mut j: u32 = 0;
        while j < sectors
            invariant
                i < stacks,
                j <= sectors,
                mesh_fits(stacks as nat, sectors as nat),
                indices@ == start + quad_rows(sectors as nat, i as nat) + quad_row(
                    sectors as nat,
                    i as nat,
                    j as nat,
                ),
            decreases sectors - j,
        {
            assert((i + 1) * (sectors + 1) + j + 1 <= (stacks + 1) * (sectors + 1) - 1
                && 2 * (sectors + 1) <= (stacks + 1) * (sectors + 1)
                && (i + 1) * (sectors + 1) == i * (sectors + 1) + sectors + 1) by (nonlinear_arith)
                requires
                    i < stacks,
                    j < sectors,
            ;
            assert((stacks + 1) * (sectors + 1) <= u32::MAX + 1);
            let a: u32 = i * (sectors + 1) + j;
            let b: u32 = a + sectors + 1;
            let ghost before = indices@;
            indices.push(a);
            indices.push(b);
            indices.push(a + 1);
            indices.push(a + 1);
            indices.push(b);
            indices.push(b + 1);
            assert(indices@ == before + quad(sectors as nat, i as nat, j as nat));
            j = j + 1;
        }
        i = i + 1;
    }
}

/// Appends the body mesh (`SPHERE_STACKS` by `SPHERE_SECTORS` bands) to
/// `grid` and `indices`: the grid coordinates of its vertices, from which
/// the vertex positions are computed, and its triangle indices.
pub fn create_sphere(grid: &mut Vec<(u32, u32)>, indices: &mut Vec<u32>)
    ensures
        final(grid)@ == old(grid)@ + sphere_grid(SPHERE_STACKS as nat, SPHERE_SECTORS as nat),
        final(indices)@ == old(indices)@ + sphere_indices(
            SPHERE_STACKS as nat,
            SPHERE_SECTORS as nat,
        ),
{
    push_sphere_grid(SPHERE_STACKS, SPHERE_SECTORS, grid);
    push_sphere_indices(SPHERE_STACKS, SPHERE_SECTORS, indices);
}

proof fn lemma_grid_row(i: nat, n: nat)
    ensures
        grid_row(i, n).len() == n,
        forall|j: int| 0 <= j < n ==> #[trigger] grid_row(i, n)[j] == (i as u32, j as u32),
    decreases n,
{
    if n > 0 {
        lemma_grid_row(i, (n - 1) as nat);
    }
}

proof fn lemma_grid_rows(sectors: nat, m: nat)
    ensures
        grid_rows(sectors, m).len() == m * (sectors + 1),
        forall|r: nat, j: nat|
            r < m && j <= sectors ==> #[trigger] grid_rows(sectors, m)[grid_index(sectors, r, j) as int]
                == (r as u32, j as u32),
    decreases m,
{
    if m > 0 {
        let p = (m - 1) as nat;
        lemma_grid_rows(sectors, p);
        lemma_grid_row(p, sectors + 1);
        assert(m * (sectors + 1) == p * (sectors + 1) + sectors + 1) by (nonlinear_arith)
            requires
                p == m - 1,
        ;
        assert forall|r: nat, j: nat| r < m && j <= sectors implies #[trigger] grid_rows(
            sectors,
            m,
        )[grid_index(sectors, r, j) as int] == (r as u32, j as u32) by {
            if r < p {
                assert(grid_index(sectors, r, j) < p * (sectors + 1)) by (nonlinear_arith)
                    requires
                        r < p,
                        j <= sectors,
                ;
            } else {
                assert(r == p);
                assert(grid_rows(sectors, m)[grid_index(sectors, r, j) as int] == grid_row(
                    p,
                    sectors + 1,
                )[j as int]);
            }
        }
    } else {
        assert(m * (sectors + 1) == 0) by (nonlinear_arith)
            requires
                m == 0,
        ;
    }
}

/// The vertex list of the mesh has one entry per grid point, and the entry
/// at `grid_index(i, j)` is the grid point `(i, j)`.
pub proof fn lemma_sphere_grid(stacks: nat, sectors: nat)
    ensures
        sphere_grid(stacks, sectors).len() == grid_vertex_count(stacks, sectors),
        forall|i: nat, j: nat|
            i <= stacks && j <= sectors ==> #[trigger] sphere_grid(stacks, sectors)[grid_index(
                sectors,
                i,
                j,
            ) as int] == (i as u32, j as u32),
{
    lemma_grid_rows(sectors, stacks + 1);
}

proof fn lemma_quad_row(sectors: nat, i: nat, n: nat, stacks: nat)
    requires
        i < stacks,
        n <= sectors,
        mesh_fits(stacks, sectors),
    ensures
        quad_row(sectors, i, n).len() == 6 * n,
        forall|k: int|
            0 <= k < 6 * n ==> (#[trigger] quad_row(sectors, i, n)[k] as nat) < grid_vertex_count(
                stacks,
                sectors,
            ),
    decreases n,
{
    if n > 0 {
        let j = (n - 1) as nat;
        lemma_quad_row(sectors, i, j, stacks);
        assert((i + 1) * (sectors + 1) + j + 1 <= (stacks + 1) * (sectors + 1) - 1
            && (i + 1) * (sectors + 1) == i * (sectors + 1) + sectors + 1) by (nonlinear_arith)
            requires
                i < stacks,
                j < sectors,
        ;
        let q = quad(sectors, i, j);
        assert forall|k: int| 0 <= k < 6 * n implies (#[trigger] quad_row(sectors, i, n)[k] as nat)
            < grid_vertex_count(stacks, sectors) by {
            if k >= 6 * j {
                assert(quad_row(sectors, i, n)[k] == q[k - 6 * j]);
            }
        }
    }
}

proof fn lemma_quad_rows(sectors: nat, m: nat, stacks: nat)
    requires
        m <= stacks,
        mesh_fits(stacks, sectors),
    ensures
        quad_rows(sectors, m).len() == 6 * m * sectors,
        forall|k: int|
            0 <= k < 6 * m * sectors ==> (#[trigger] quad_rows(sectors, m)[k] as nat)
                < grid_vertex_count(stacks, sectors),
    decreases m,
{
    if m > 0 {
        let p = (m - 1) as nat;
        lemma_quad_rows(sectors, p, stacks);
        lemma_quad_row(sectors, p, sectors, stacks);
        assert(6 * m * sectors == 6 * p * sectors + 6 * sectors) by (nonlinear_arith)
            requires
                p == m - 1,
        ;
        assert forall|k: int| 0 <= k < 6 * m * sectors implies (#[trigger] quad_rows(sectors, m)[k]
            as nat) < grid_vertex_count(stacks, sectors) by {
            if k >= 6 * p * sectors {
                assert(quad_rows(sectors, m)[k] == quad_row(sectors, p, sectors)[k - 6 * p
                    * sectors]);
            }
        }
    } else {
        assert(6 * m * sectors == 0) by (nonlinear_arith)
            requires
                m == 0,
        ;
    }
}

/// The mesh has two triangles, six indices, per quad, and every index names
/// one of its vertices.
pub proof fn lemma_sphere_indices_in_range(stacks: nat, sectors: nat)
    requires
        mesh_fits(stacks, sectors),
    ensures
        sphere_indices(stacks, sectors).len() == 6 * stacks * sectors,
        forall|k: int|
            0 <= k < sphere_indices(stacks, sectors).len() ==> (#[trigger] sphere_indices(
                stacks,
                sectors,
            )[k] as nat) < sphere_grid(stacks, sectors).len(),
{
    lemma_quad_rows(sectors, stacks, stacks);
    lemma_sphere_grid(stacks, sectors);
}

proof fn lemma_quad_row_at(sectors: nat, i: nat, n: nat, j: nat)
    requires
        j < n,
    ensures
        quad_row(sectors, i, n).len() == 6 * n,
        quad_row(sectors, i, n).subrange((6 * j) as int, (6 * j + 6) as int) == quad(sectors, i, j),
    decreases n,
{
    let p = (n - 1) as nat;
    if p > 0 {
        lemma_quad_row_len(sectors, i, p);
    } else {
        assert(quad_row(sectors, i, p) =~= Seq::<u32>::empty());
    }
    if j < p {
        lemma_quad_row_at(sectors, i, p, j);
        assert(quad_row(sectors, i, n).subrange((6 * j) as int, (6 * j + 6) as int) =~= quad_row(
            sectors,
            i,
            p,
        ).subrange((6 * j) as int, (6 * j + 6) as int));
    } else {
        assert(quad_row(sectors, i, n).subrange((6 * j) as int, (6 * j + 6) as int) =~= quad(sectors, i, j));
    }
}

proof fn lemma_quad_row_len(sectors: nat, i: nat, n: nat)
    ensures
        quad_row(sectors, i, n).len() == 6 * n,
    decreases n,
{
    if n > 0 {
        lemma_quad_row_len(sectors, i, (n - 1) as nat);
    }
}

proof fn lemma_quad_rows_len(sectors: nat, m: nat)
    ensures
        quad_rows(sectors, m).len() == 6 * m * sectors,
    decreases m,
{
    if m > 0 {
        let p = (m - 1) as nat;
        lemma_quad_rows_len(sectors, p);
        lemma_quad_row_len(sectors, p, sectors);
        assert(6 * m * sectors == 6 * p * sectors + 6 * sectors) by (nonlinear_arith)
            requires
                p == m - 1,
        ;
    } else {
        assert(6 * m * sectors == 0) by (nonlinear_arith)
            requires
                m == 0,
        ;
    }
}

proof fn lemma_quad_rows_at(sectors: nat, m: nat, i: nat, j: nat)
    requires
        i < m,
        j < sectors,
    ensures
        quad_rows(sectors, m).subrange((6 * (i * sectors + j)) as int, (6 * (i * sectors + j) + 6) as int) == quad(
            sectors,
            i,
            j,
        ),
    decreases m,
{
    let p = (m - 1) as nat;
    let q: int = (6 * (i * sectors + j)) as int;
    lemma_quad_rows_len(sectors, p);
    lemma_quad_row_len(sectors, p, sectors);
    if i < p {
        lemma_quad_rows_at(sectors, p, i, j);
        assert(q + 6 <= 6 * p * sectors) by (nonlinear_arith)
            requires
                i < p,
                j < sectors,
                q == 6 * (i * sectors + j),
        ;
        assert(quad_rows(sectors, m).subrange(q, q + 6) =~= quad_rows(sectors, p).subrange(q, q + 6));
    } else {
        assert(q == 6 * p * sectors + 6 * j) by (nonlinear_arith)
            requires
                i == p,
                q == 6 * (i * sectors + j),
        ;
        lemma_quad_row_at(sectors, p, sectors, j);
        assert(quad_rows(sectors, m).subrange(q, q + 6) =~= quad_row(sectors, p, sectors).subrange(
            (6 * j) as int,
            (6 * j + 6) as int,
        ));
    }
}

/// The six indices of quad `(i, j)` are its two triangles `(a, b, a + 1)`
/// and `(a + 1, b, b + 1)`, where `a = i * (sectors + 1) + j` and `b = a +
/// sectors + 1`: they name, in turn, the grid points `(i, j)`, `(i + 1, j)`,
/// `(i, j + 1)`, `(i, j + 1)`, `(i + 1, j)` and `(i + 1, j + 1)`, so the two
/// triangles together cover the quad.
pub proof fn lemma_quad_triangles(stacks: nat, sectors: nat, i: nat, j: nat)
    requires
        mesh_fits(stacks, sectors),
        i < stacks,
        j < sectors,
    ensures
        ({
            let q: int = (6 * (i * sectors + j)) as int;
            let a = i * (sectors + 1) + j;
            let b = a + sectors + 1;
            let idx = sphere_indices(stacks, sectors);
            let grid = sphere_grid(stacks, sectors);
            &&& q + 6 <= idx.len()
            &&& idx.subrange(q, q + 6) == seq![a as u32, b as u32, (a + 1) as u32, (a + 1) as u32, b as u32, (b + 1) as u32]
            &&& a + sectors + 2 < grid.len()
            &&& grid[idx[q] as int] == (i as u32, j as u32)
            &&& grid[idx[q + 1] as int] == ((i + 1) as u32, j as u32)
            &&& grid[idx[q + 2] as int] == (i as u32, (j + 1) as u32)
            &&& grid[idx[q + 3] as int] == (i as u32, (j + 1) as u32)
            &&& grid[idx[q + 4] as int] == ((i + 1) as u32, j as u32)
            &&& grid[idx[q + 5] as int] == ((i + 1) as u32, (j + 1) as u32)
        }),
{
    let q: int = (6 * (i * sectors + j)) as int;
    let a = i * (sectors + 1) + j;
    let b = a + sectors + 1;
    let idx = sphere_indices(stacks, sectors);
    lemma_quad_rows_len(sectors, stacks);
    lemma_quad_rows_at(sectors, stacks, i, j);
    lemma_sphere_grid(stacks, sectors);
    assert(q + 6 <= 6 * stacks * sectors) by (nonlinear_arith)
        requires
            i < stacks,
            j < sectors,
            q == 6 * (i * sectors + j),
    ;
    assert((i + 1) * (sectors + 1) + j + 1 <= (stacks + 1) * (sectors + 1) - 1
        && (i + 1) * (sectors + 1) == i * (sectors + 1) + sectors + 1) by (nonlinear_arith)
        requires
            i < stacks,
            j < sectors,
    ;
    assert(b == grid_index(sectors, i + 1, j));
    assert(a + 1 == grid_index(sectors, i, j + 1));
    assert(b + 1 == grid_index(sectors, i + 1, j + 1));
    assert(idx[q] == idx.subrange(q, q + 6)[0]);
    assert(idx[q + 1] == idx.subrange(q, q + 6)[1]);
    assert(idx[q + 2] == idx.subrange(q, q + 6)[2]);
    assert(idx[q + 3] == idx.subrange(q, q + 6)[3]);
    assert(idx[q + 4] == idx.subrange(q, q + 6)[4]);
    assert(idx[q + 5] == idx.subrange(q, q + 6)[5]);
}

/// The four bytes of `v`, least significant first.
pub open spec fn le_bytes(v: u32) -> Seq<u8> {
    seq![
        (v % 0x100) as u8,
        ((v / 0x100) % 0x100) as u8,
        ((v / 0x10000) % 0x100) as u8,
        (v / 0x1000000) as u8,
    ]
}

/// The four bytes of `v`, most significant first.
pub open spec fn be_bytes(v: u32) -> Seq<u8> {
    le_bytes(v).reverse()
}

/// `bytes` holds `values` one after another, four bytes each, all in the
/// same byte order, which is little- or big-endian.
pub open spec fn encodes_u32s(bytes: Seq<u8>, values: Seq<u32>) -> bool {
    &&& bytes.len() == 4 * values.len()
    &&& {
        ||| forall|k: int|
            0 <= k < values.len() ==> #[trigger] bytes.subrange(4 * k, 4 * k + 4) == le_bytes(
                values[k],
            )
        ||| forall|k: int|
            0 <= k < values.len() ==> #[trigger] bytes.subrange(4 * k, 4 * k + 4) == be_bytes(
                values[k],
            )
    }
}

/// Calls `bytemuck::cast_slice` from `u32` to `u8` and copies the result.
/// The cast reinterprets the values' memory, so the result is each value's
/// four bytes in the machine's byte order, which Rust's targets have as
/// little- or big-endian; which of the two is left unsaid.
#[verifier::external_body]
fn cast_u32s_to_bytes(values: &[u32]) -> (bytes: Vec<u8>)
    ensures
        encodes_u32s(bytes@, values@),
{
    bytemuck::cast_slice::<u32, u8>(values).to_vec()
}

/// What the GPU needs of the body mesh: the grid coordinates of its
/// vertices, its index list as bytes, and the number of indices to draw.
pub struct BodyMesh {
    pub grid: Vec<(u32, u32)>,
    pub index_bytes: Vec<u8>,
    pub num_to_draw: u32,
}

/// Builds the body mesh and encodes its index list for an index buffer.
pub fn body_mesh() -> (mesh: BodyMesh)
    ensures
        mesh.grid@ == sphere_grid(SPHERE_STACKS as nat, SPHERE_SECTORS as nat),
        encodes_u32s(
            mesh.index_bytes@,
            sphere_indices(SPHERE_STACKS as nat, SPHERE_SECTORS as nat),
        ),
        mesh.num_to_draw == sphere_indices(SPHERE_STACKS as nat, SPHERE_SECTORS as nat).len(),
        mesh.num_to_draw == 6 * SPHERE_STACKS * SPHERE_SECTORS,
{
    let mut grid: Vec<(u32, u32)> = Vec::new();
    let mut indices: Vec<u32> = Vec::new();
    create_sphere(&mut grid, &mut indices);
    proof {
        assert(grid@ =~= sphere_grid(SPHERE_STACKS as nat, SPHERE_SECTORS as nat));
        assert(indices@ =~= sphere_indices(SPHERE_STACKS as nat, SPHERE_SECTORS as nat));
        lemma_sphere_indices_in_range(SPHERE_STACKS as nat, SPHERE_SECTORS as nat);
    }
    let index_bytes = cast_u32s_to_bytes(indices.as_slice());
    let num_to_draw = indices.len() as u32;
    BodyMesh { grid, index_bytes, num_to_draw }
}

} // verus!
