//! The voxel grid laid over the slab, which lists for each voxel the clumps that may reach into it.

use vstd::prelude::*;

verus! {

/// Integer coordinates of a voxel; they may lie outside the grid.
#[derive(Clone, Copy, Debug, PartialEq, Eq, Structural)]
pub struct Voxel {
    pub x: i32,
    pub y: i32,
    pub z: i32,
}

impl Voxel {
    /// The voxel reached from this one by a step of `step` (-1, 0 or 1) along `axis` (0 for x,
    /// 1 for y, 2 for z), as a ray's traversal of the grid advances.
    pub fn stepped(&self, axis: usize, step: i32) -> (next: Voxel)
        requires
            axis < 3,
            -1 <= step <= 1,
            axis == 0 ==> i32::MIN <= self.x + step <= i32::MAX,
            axis == 1 ==> i32::MIN <= self.y + step <= i32::MAX,
            axis == 2 ==> i32::MIN <= self.z + step <= i32::MAX,
        ensures
            next.x == self.x + if axis == 0 { step as int } else { 0 },
            next.y == self.y + if axis == 1 { step as int } else { 0 },
            next.z == self.z + if axis == 2 { step as int } else { 0 },
    {
        if axis == 0 {
            Voxel { x: self.x + step, y: self.y, z: self.z }
        } else if axis == 1 {
            Voxel { x: self.x, y: self.y + step, z: self.z }
        } else {
            Voxel { x: self.x, y: self.y, z: self.z + step }
        }
    }
}

/// The voxel-space bounding box of a clump: the voxels `v` with `lower <= v <= upper` on each axis,
/// both corners included.
#[derive(Clone, Copy, Debug, PartialEq, Eq, Structural)]
pub struct VoxelBox {
    pub lower: Voxel,
    pub upper: Voxel,
}

/// Whether box `b` covers the voxel at `(x, y, z)`.
pub open spec fn box_covers(b: VoxelBox, x: int, y: int, z: int) -> bool {
    &&& b.lower.x <= x <= b.upper.x
    &&& b.lower.y <= y <= b.upper.y
    &&& b.lower.z <= z <= b.upper.z
}

/// The indices, in increasing order, of those among the first `n` boxes that cover `(x, y, z)`.
pub open spec fn covering(boxes: Seq<VoxelBox>, n: nat, x: int, y: int, z: int) -> Seq<usize>
    decreases n,
{
    if n == 0 {
        Seq::empty()
    } else {
        let rest = covering(boxes, (n - 1) as nat, x, y, z);
        if box_covers(boxes[n - 1], x, y, z) {
            rest.push((n - 1) as usize)
        } else {
            rest
        }
    }
}

/// The position of voxel `(x, y, z)` in the flat cell array of a grid with `nx` by `ny` columns.
pub open spec fn flat_index(nx: int, ny: int, x: int, y: int, z: int) -> int {
    x + nx * (y + ny * z)
}

/// Whether `(x, y, z)` has a cell in a grid of `nx` by `ny` by `nz` voxels.
pub open spec fn in_cells(nx: int, ny: int, nz: int, x: int, y: int, z: int) -> bool {
    0 <= x < nx && 0 <= y < ny && 0 <= z < nz
}

/// The number `n` of voxels along an axis, taken as a 32-bit voxel coordinate; it is `n` itself
/// whenever `n` fits in an `i32`.
pub open spec fn extent(n: usize) -> int {
    (n as i32) as int
}

/// Whether the voxel coordinates `(x, y, z)` lie inside a grid of `nx` by `ny` by `nz` voxels.
pub open spec fn in_grid(nx: usize, ny: usize, nz: usize, x: int, y: int, z: int) -> bool {
    0 <= x < extent(nx) && 0 <= y < extent(ny) && 0 <= z < extent(nz)
}

/// An axis never extends beyond its number of voxels, and extends exactly that far when it fits.
pub proof fn lemma_extent(n: usize)
    ensures
        extent(n) <= n,
        n <= i32::MAX ==> extent(n) == n,
{
}

/// Voxels inside the grid have cells.
pub proof fn lemma_in_grid_has_cell(nx: usize, ny: usize, nz: usize, x: int, y: int, z: int)
    requires
        in_grid(nx, ny, nz, x, y, z),
    ensures
        in_cells(nx as int, ny as int, nz as int, x, y, z),
{
    lemma_extent(nx);
    lemma_extent(ny);
    lemma_extent(nz);
}

/// What a grid of `nx` by `ny` by `nz` voxels over `boxes` lists in the cell of `(x, y, z)`: the
/// covering boxes when the voxel lies inside the grid, else nothing.
pub open spec fn cell_contents(
    boxes: Seq<VoxelBox>,
    n: nat,
    nx: usize,
    ny: usize,
    nz: usize,
    x: int,
    y: int,
    z: int,
) -> Seq<usize> {
    if in_grid(nx, ny, nz, x, y, z) {
        covering(boxes, n, x, y, z)
    } else {
        Seq::empty()
    }
}

/// Coordinates inside the grid map to an index inside the flat cell array.
pub proof fn lemma_flat_index_bound(nx: int, ny: int, nz: int, x: int, y: int, z: int)
    requires
        in_cells(nx, ny, nz, x, y, z),
    ensures
        0 <= y + ny * z < ny * nz,
        ny * nz <= nx * ny * nz,
        0 <= flat_index(nx, ny, x, y, z) < nx * ny * nz,
{
    assert(0 <= y + ny * z < ny * nz) by (nonlinear_arith)
        requires
            0 <= y < ny,
            0 <= z < nz,
    {
        assert(ny * z + ny <= ny * nz);
    }
    let w = y + ny * z;
    assert(0 <= x + nx * w < nx * (ny * nz)) by (nonlinear_arith)
        requires
            0 <= x < nx,
            0 <= w < ny * nz,
    {
        assert(nx * w + nx <= nx * (ny * nz));
    }
    assert(nx * (ny * nz) == nx * ny * nz) by (nonlinear_arith);
    assert(ny * nz <= nx * (ny * nz)) by (nonlinear_arith)
        requires
            1 <= nx,
            0 <= ny * nz,
    ;
}

/// Two positions `a + n * b` with `0 <= a < n` are equal only when both parts are.
proof fn lemma_mixed_radix_unique(n: int, a1: int, b1: int, a2: int, b2: int)
    requires
        0 <= a1 < n,
        0 <= a2 < n,
        a1 + n * b1 == a2 + n * b2,
    ensures
        a1 == a2,
        b1 == b2,
{
    if b1 < b2 {
        assert(n * b1 + n <= n * b2) by (nonlinear_arith)
            requires
                b1 < b2,
                0 < n,
        ;
    } else if b2 < b1 {
        assert(n * b2 + n <= n * b1) by (nonlinear_arith)
            requires
                b2 < b1,
                0 < n,
        ;
    }
}

/// Distinct voxels inside the grid occupy distinct cells.
pub proof fn lemma_flat_index_injective(
    nx: int,
    ny: int,
    nz: int,
    x1: int,
    y1: int,
    z1: int,
    x2: int,
    y2: int,
    z2: int,
)
    requires
        in_cells(nx, ny, nz, x1, y1, z1),
        in_cells(nx, ny, nz, x2, y2, z2),
        flat_index(nx, ny, x1, y1, z1) == flat_index(nx, ny, x2, y2, z2),
    ensures
        x1 == x2,
        y1 == y2,
        z1 == z2,
{
    lemma_mixed_radix_unique(nx, x1, y1 + ny * z1, x2, y2 + ny * z2);
    lemma_mixed_radix_unique(ny, y1, z1, y2, z2);
}

/// Each voxel lists exactly the boxes that cover it, each once, in increasing order of index.
pub proof fn lemma_covering(boxes: Seq<VoxelBox>, n: nat, x: int, y: int, z: int)
    requires
        n <= boxes.len(),
        n <= usize::MAX + 1,
    ensures
        forall|i: int, j: int|
            0 <= i < j < covering(boxes, n, x, y, z).len() ==> covering(boxes, n, x, y, z)[i]
                < covering(boxes, n, x, y, z)[j],
        forall|i: int|
            0 <= i < covering(boxes, n, x, y, z).len() ==> {
                let si = #[trigger] covering(boxes, n, x, y, z)[i];
                si < n && box_covers(boxes[si as int], x, y, z)
            },
        forall|si: int|
            0 <= si < n && box_covers(boxes[si], x, y, z) ==> covering(boxes, n, x, y, z).contains(
                si as usize,
            ),
    decreases n,
{
    if n > 0 {
        lemma_covering(boxes, (n - 1) as nat, x, y, z);
        let rest = covering(boxes, (n - 1) as nat, x, y, z);
        if box_covers(boxes[n - 1], x, y, z) {
            assert(rest.push((n - 1) as usize)[rest.len() as int] == (n - 1) as usize);
            assert forall|si: int|
                0 <= si < n && box_covers(boxes[si], x, y, z) implies rest.push(
                (n - 1) as usize,
            ).contains(si as usize) by {
                if si < n - 1 {
                    let k = choose|k: int| 0 <= k < rest.len() && rest[k] == si as usize;
                    assert(rest.push((n - 1) as usize)[k] == si as usize);
                } else {
                    assert(rest.push((n - 1) as usize)[rest.len() as int] == si as usize);
                }
            }
        }
    }
}

/// Voxel structure over a slab, used to find quickly the clumps that a ray may meet.
pub struct VoxelGrid {
    pub nx: usize,
    pub ny: usize,
    pub nz: usize,
    pub cells: Vec<Vec<usize>>,
}

impl VoxelGrid {
    /// The grid holds one cell for each of its voxels.
    pub open spec fn wf(&self) -> bool {
        self.cells@.len() == self.nx * self.ny * self.nz
    }

    /// The clump indices listed in the cell of voxel `(x, y, z)`.
    pub open spec fn cell_at(&self, x: int, y: int, z: int) -> Seq<usize> {
        self.cells@[flat_index(self.nx as int, self.ny as int, x, y, z)]@
    }

    /// Overlays a grid of `nx` by `ny` by `nz` voxels on a slab whose clumps have the voxel-space
    /// bounding boxes `boxes`; each voxel inside the grid lists, in increasing order, the clumps
    /// whose box covers it.
    pub fn new(nx: usize, ny: usize, nz: usize, boxes: &Vec<VoxelBox>) -> (grid: Self)
        requires
            nx * ny <= usize::MAX,
            nx * ny * nz <= usize::MAX,
        ensures
            grid.nx == nx,
            grid.ny == ny,
            grid.nz == nz,
            grid.wf(),
            forall|c: int, k: int|
                0 <= c < grid.cells@.len() && 0 <= k < grid.cells@[c]@.len() ==> #[trigger] grid.cells@[c]@[k]
                    < boxes@.len(),
            forall|x: int, y: int, z: int|
                in_cells(nx as int, ny as int, nz as int, x, y, z) ==> #[trigger] grid.cell_at(x, y, z)
                    == cell_contents(boxes@, boxes@.len(), nx, ny, nz, x, y, z),
            forall|x: int, y: int, z: int, si: int|
                0 <= x < nx && 0 <= y < ny && 0 <= z < nz && 0 <= si < boxes@.len() ==> (
                #[trigger] grid.cell_at(x, y, z).contains(si as usize) <==> {
                    &&& 0 <= x < (nx as i32) && 0 <= y < (ny as i32) && 0 <= z < (nz as i32)
                    &&& boxes@[si].lower.x <= x <= boxes@[si].upper.x
                    &&& boxes@[si].lower.y <= y <= boxes@[si].upper.y
                    &&& boxes@[si].lower.z <= z <= boxes@[si].upper.z
                }),
            forall|x: int, y: int, z: int, i: int, j: int|
                0 <= x < nx && 0 <= y < ny && 0 <= z < nz && 0 <= i < j < grid.cell_at(x, y, z).len()
                    ==> #[trigger] grid.cell_at(x, y, z)[i] < #[trigger] grid.cell_at(x, y, z)[j],
    {
        let n_cells = nx * ny * nz;
        let mut cells: Vec<Vec<usize>> = Vec::new();
        let mut i: usize = 0;
        while i < n_cells
            invariant
                i <= n_cells,
                cells@.len() == i,
                forall|j: int| 0 <= j < i ==> (#[trigger] cells@[j])@ == Seq::<usize>::empty(),
            decreases n_cells - i,
        {
            cells.push(Vec::new());
            i = i + 1;
        }
        proof {
            assert forall|x: int, y: int, z: int|
                in_cells(nx as int, ny as int, nz as int, x, y, z) implies (#[trigger] cells@[flat_index(nx as int, ny as int, x, y, z)])@ == cell_contents(boxes@, 0, nx, ny, nz, x, y, z) by {
                lemma_flat_index_bound(nx as int, ny as int, nz as int, x, y, z);
            }
        }
        // Grid dimensions as 32-bit voxel coordinates.
        let nx_i: i32 = nx as i32;
        let ny_i: i32 = ny as i32;
        let nz_i: i32 = nz as i32;
        let mut si: usize = 0;
        while si < boxes.len()
            invariant
                nx_i == extent(nx),
                ny_i == extent(ny),
                nz_i == extent(nz),
                n_cells == nx * ny * nz,
                nx * ny <= usize::MAX,
                cells@.len() == n_cells,
                si <= boxes@.len(),
                forall|c: int, k: int|
                    0 <= c < cells@.len() && 0 <= k < cells@[c]@.len() ==> #[trigger] cells@[c]@[k] < boxes@.len(),
                forall|x: int, y: int, z: int|
                    in_cells(nx as int, ny as int, nz as int, x, y, z) ==> (#[trigger] cells@[flat_index(nx as int, ny as int, x, y, z)])@ == cell_contents(boxes@, si as nat, nx, ny, nz, x, y, z),
            decreases boxes@.len() - si,
        {
            let b = boxes[si];
            // The box, clamped to the grid; the upper bounds are exclusive.
            let x_lo: i32 = if b.lower.x > 0 { b.lower.x } else { 0 };
            let y_lo: i32 = if b.lower.y > 0 { b.lower.y } else { 0 };
            let z_lo: i32 = if b.lower.z > 0 { b.lower.z } else { 0 };
            let x_hi: i32 = if b.upper.x < nx_i { b.upper.x + 1 } else { nx_i };
            let y_hi: i32 = if b.upper.y < ny_i { b.upper.y + 1 } else { ny_i };
            let z_hi: i32 = if b.upper.z < nz_i { b.upper.z + 1 } else { nz_i };
            let ghost before = cells@;
            let mut iz: i32 = z_lo;
            while iz < z_hi
                invariant
                    nx_i == extent(nx),
                ny_i == extent(ny),
                nz_i == extent(nz),
                nx * ny <= usize::MAX,
                n_cells == nx * ny * nz,
                cells@.len() == n_cells,
                before.len() == n_cells,
                si < boxes@.len(),
                forall|c: int, k: int|
                    0 <= c < cells@.len() && 0 <= k < cells@[c]@.len() ==> #[trigger] cells@[c]@[k] < boxes@.len(),
                    z_lo <= iz,
                    z_lo >= 0,
                    iz > z_lo ==> iz <= z_hi,
                    x_lo == (if b.lower.x > 0 { b.lower.x } else { 0i32 }),
                    y_lo == (if b.lower.y > 0 { b.lower.y } else { 0i32 }),
                    z_lo == (if b.lower.z > 0 { b.lower.z } else { 0i32 }),
                    x_hi == (if b.upper.x < nx_i { b.upper.x + 1 } else { nx_i as int }),
                    y_hi == (if b.upper.y < ny_i { b.upper.y + 1 } else { ny_i as int }),
                    z_hi == (if b.upper.z < nz_i { b.upper.z + 1 } else { nz_i as int }),
                    forall|x: int, y: int, z: int|
                    in_cells(nx as int, ny as int, nz as int, x, y, z) ==> (#[trigger] cells@[flat_index(nx as int, ny as int, x, y, z)])@ == if in_grid(nx, ny, nz, x, y, z) && box_covers(b, x, y, z) && (z < iz) {
                        before[flat_index(nx as int, ny as int, x, y, z)]@.push(si)
                    } else {
                        before[flat_index(nx as int, ny as int, x, y, z)]@
                    },
                decreases z_hi - iz,
            {
                let mut iy: i32 = y_lo;
                while iy < y_hi
                    invariant
                        nx_i == extent(nx),
                ny_i == extent(ny),
                nz_i == extent(nz),
                nx * ny <= usize::MAX,
                n_cells == nx * ny * nz,
                cells@.len() == n_cells,
                before.len() == n_cells,
                si < boxes@.len(),
                forall|c: int, k: int|
                    0 <= c < cells@.len() && 0 <= k < cells@[c]@.len() ==> #[trigger] cells@[c]@[k] < boxes@.len(),
                        z_lo <= iz < z_hi,
                        z_lo >= 0,
                        y_lo <= iy,
                        y_lo >= 0,
                        iy > y_lo ==> iy <= y_hi,
                        x_lo == (if b.lower.x > 0 { b.lower.x } else { 0i32 }),
                        y_lo == (if b.lower.y > 0 { b.lower.y } else { 0i32 }),
                        x_hi == (if b.upper.x < nx_i { b.upper.x + 1 } else { nx_i as int }),
                        y_hi == (if b.upper.y < ny_i { b.upper.y + 1 } else { ny_i as int }),
                        z_hi == (if b.upper.z < nz_i { b.upper.z + 1 } else { nz_i as int }),
                        b.lower.z <= iz <= b.upper.z,
                        forall|x: int, y: int, z: int|
                    in_cells(nx as int, ny as int, nz as int, x, y, z) ==> (#[trigger] cells@[flat_index(nx as int, ny as int, x, y, z)])@ == if in_grid(nx, ny, nz, x, y, z) && box_covers(b, x, y, z) && (z < iz || (z == iz && y < iy)) {
                        before[flat_index(nx as int, ny as int, x, y, z)]@.push(si)
                    } else {
                        before[flat_index(nx as int, ny as int, x, y, z)]@
                    },
                    decreases y_hi - iy,
                {
                    let mut ix: i32 = x_lo;
                    while ix < x_hi
                        invariant
                            nx_i == extent(nx),
                ny_i == extent(ny),
                nz_i == extent(nz),
                nx * ny <= usize::MAX,
                n_cells == nx * ny * nz,
                cells@.len() == n_cells,
                before.len() == n_cells,
                si < boxes@.len(),
                forall|c: int, k: int|
                    0 <= c < cells@.len() && 0 <= k < cells@[c]@.len() ==> #[trigger] cells@[c]@[k] < boxes@.len(),
                            0 <= iz < nz_i,
                            0 <= iy < ny_i,
                            x_lo <= ix,
                            x_lo >= 0,
                            ix > x_lo ==> ix <= x_hi,
                            x_lo == (if b.lower.x > 0 { b.lower.x } else { 0i32 }),
                            x_hi == (if b.upper.x < nx_i { b.upper.x + 1 } else { nx_i as int }),
                            b.lower.z <= iz <= b.upper.z,
                            b.lower.y <= iy <= b.upper.y,
                            forall|x: int, y: int, z: int|
                    in_cells(nx as int, ny as int, nz as int, x, y, z) ==> (#[trigger] cells@[flat_index(nx as int, ny as int, x, y, z)])@ == if in_grid(nx, ny, nz, x, y, z) && box_covers(b, x, y, z) && (z < iz || (z == iz && (y < iy || (y == iy && x < ix)))) {
                        before[flat_index(nx as int, ny as int, x, y, z)]@.push(si)
                    } else {
                        before[flat_index(nx as int, ny as int, x, y, z)]@
                    },
                        decreases x_hi - ix,
                    {
                        proof {
                            lemma_in_grid_has_cell(nx, ny, nz, ix as int, iy as int, iz as int);
                            lemma_flat_index_bound(
                                nx as int,
                                ny as int,
                                nz as int,
                                ix as int,
                                iy as int,
                                iz as int,
                            );
                        }
                        let idx = Self::flat_index_of(nx, ny, ix as usize, iy as usize, iz as usize);
                        let ghost prev = cells@;
                        cells[idx].push(si);
                        proof {
                            assert forall|x: int, y: int, z: int|
                                in_cells(nx as int, ny as int, nz as int, x, y, z) implies (#[trigger] cells@[flat_index(nx as int, ny as int, x, y, z)])@ == if in_grid(nx, ny, nz, x, y, z) && box_covers(b, x, y, z) && (z < iz || (z == iz && (y < iy || (y == iy && x < ix + 1)))) {
                                before[flat_index(nx as int, ny as int, x, y, z)]@.push(si)
                            } else {
                                before[flat_index(nx as int, ny as int, x, y, z)]@
                            } by {
                                lemma_flat_index_bound(nx as int, ny as int, nz as int, x, y, z);
                                if flat_index(nx as int, ny as int, x, y, z) == idx {
                                    lemma_flat_index_injective(
                                        nx as int,
                                        ny as int,
                                        nz as int,
                                        x,
                                        y,
                                        z,
                                        ix as int,
                                        iy as int,
                                        iz as int,
                                    );
                                } else {
                                    assert(cells@[flat_index(nx as int, ny as int, x, y, z)] == prev[flat_index(nx as int, ny as int, x, y, z)]);
                                }
                            }
                            assert forall|c: int, k: int|
                                0 <= c < cells@.len() && 0 <= k < cells@[c]@.len() implies #[trigger] cells@[c]@[k]
                                    < boxes@.len() by {
                                if c != idx {
                                    assert(cells@[c] == prev[c]);
                                } else if k < prev[c]@.len() {
                                    assert(cells@[c]@[k] == prev[c]@[k]);
                                }
                            }
                        }
                        ix = ix + 1;
                    }
                    iy = iy + 1;
                }
                iz = iz + 1;
            }
            proof {
                assert forall|x: int, y: int, z: int|
                    in_cells(nx as int, ny as int, nz as int, x, y, z) implies (#[trigger] cells@[flat_index(nx as int, ny as int, x, y, z)])@ == cell_contents(boxes@, (si + 1) as nat, nx, ny, nz, x, y, z) by {
                    assert(boxes@[si as int] == b);
                }
            }
            si = si + 1;
        }
        let grid = VoxelGrid { nx, ny, nz, cells };
        proof {
            assert forall|x: int, y: int, z: int, si: int|
                0 <= x < nx && 0 <= y < ny && 0 <= z < nz && 0 <= si < boxes@.len() implies (
                #[trigger] grid.cell_at(x, y, z).contains(si as usize) <==> {
                    &&& 0 <= x < (nx as i32) && 0 <= y < (ny as i32) && 0 <= z < (nz as i32)
                    &&& boxes@[si].lower.x <= x <= boxes@[si].upper.x
                    &&& boxes@[si].lower.y <= y <= boxes@[si].upper.y
                    &&& boxes@[si].lower.z <= z <= boxes@[si].upper.z
                }) by {
                assert(in_cells(nx as int, ny as int, nz as int, x, y, z));
                lemma_covering(boxes@, boxes@.len(), x, y, z);
                if grid.cell_at(x, y, z).contains(si as usize) {
                    let k = choose|k: int|
                        0 <= k < grid.cell_at(x, y, z).len() && grid.cell_at(x, y, z)[k] == si as usize;
                    assert(in_grid(nx, ny, nz, x, y, z));
                    let c = covering(boxes@, boxes@.len(), x, y, z);
                    assert(c[k] == si as usize);
                }
            }
            assert forall|x: int, y: int, z: int, i: int, j: int|
                0 <= x < nx && 0 <= y < ny && 0 <= z < nz && 0 <= i < j < grid.cell_at(x, y, z).len()
                    implies #[trigger] grid.cell_at(x, y, z)[i] < #[trigger] grid.cell_at(x, y, z)[j] by {
                assert(in_cells(nx as int, ny as int, nz as int, x, y, z));
                lemma_covering(boxes@, boxes@.len(), x, y, z);
            }
        }
        grid
    }

    /// The flat index computed on machine integers.
    fn flat_index_of(nx: usize, ny: usize, ix: usize, iy: usize, iz: usize) -> (idx: usize)
        requires
            iy + ny * iz <= usize::MAX,
            ix + nx * (iy + ny * iz) <= usize::MAX,
        ensures
            idx == flat_index(nx as int, ny as int, ix as int, iy as int, iz as int),
    {
        ix + nx * (iy + ny * iz)
    }

    /// Flattens a 3-dimensional grid index (`ix`, `iy`, `iz`) into a 1-dimensional index.
    pub fn flat_idx(&self, ix: usize, iy: usize, iz: usize) -> (idx: usize)
        requires
            iy + self.ny * iz <= usize::MAX,
            ix + self.nx * (iy + self.ny * iz) <= usize::MAX,
        ensures
            idx == flat_index(self.nx as int, self.ny as int, ix as int, iy as int, iz as int),
    {
        Self::flat_index_of(self.nx, self.ny, ix, iy, iz)
    }

    /// The cell of `voxel` when it lies inside the grid, or `None` once a ray has left the grid.
    pub fn cell_index(&self, voxel: Voxel) -> (idx: Option<usize>)
        requires
            self.wf(),
        ensures
            idx is Some <==> in_grid(self.nx, self.ny, self.nz, voxel.x as int, voxel.y as int, voxel.z as int),
            idx is Some <==> (0 <= voxel.x < (self.nx as i32) && 0 <= voxel.y < (self.ny as i32) && 0
                <= voxel.z < (self.nz as i32)),
            idx matches Some(i) ==> i == flat_index(
                self.nx as int,
                self.ny as int,
                voxel.x as int,
                voxel.y as int,
                voxel.z as int,
            ) && i < self.cells@.len(),
    {
        if !self.contains(voxel) {
            return None;
        }
        proof {
            lemma_in_grid_has_cell(self.nx, self.ny, self.nz, voxel.x as int, voxel.y as int, voxel.z as int);
            lemma_flat_index_bound(
                self.nx as int,
                self.ny as int,
                self.nz as int,
                voxel.x as int,
                voxel.y as int,
                voxel.z as int,
            );
            assert(self.cells.len() == self.cells@.len());
        }
        Some(self.flat_idx(voxel.x as usize, voxel.y as usize, voxel.z as usize))
    }

    /// Returns `true` if the given voxel index lies inside the grid.
    pub fn contains(&self, voxel: Voxel) -> (inside: bool)
        ensures
            inside == in_grid(self.nx, self.ny, self.nz, voxel.x as int, voxel.y as int, voxel.z as int),
            inside == (0 <= voxel.x < (self.nx as i32) && 0 <= voxel.y < (self.ny as i32) && 0
                <= voxel.z < (self.nz as i32)),
    {
        // Grid dimensions as 32-bit voxel coordinates.
        let nx_i: i32 = self.nx as i32;
        let ny_i: i32 = self.ny as i32;
        let nz_i: i32 = self.nz as i32;
        0 <= voxel.x && voxel.x < nx_i && 0 <= voxel.y && voxel.y < ny_i && 0 <= voxel.z && voxel.z < nz_i
    }
}

} // verus!
