//! Paths through the quadtree, addressed by Morton codes.
//!
//! A path of depth `d` is a sequence of `d` steps from the root, each step one of
//! the four quadrants: bit 0 of a step chooses the right half, bit 1 the lower
//! half. The steps are packed two bits apiece into `zorder`, the deepest step in
//! the lowest bits.

use vstd::prelude::*;
use vstd::arithmetic::power2::{pow2, lemma_pow2_pos, lemma_pow2_unfold, lemma_pow2_adds, lemma_pow2_strictly_increases, lemma2_to64};
use vstd::bits::{lemma_u32_shl_is_mul, lemma_u32_shr_is_div};

verus! {

/// The deepest level a path can address: sixteen two-bit steps fill a `u32`.
pub const MAX_DEPTH: u32 = 16;

/// A cell of the grid at some depth, counted from the top left corner.
#[derive(Clone, Copy, Debug, PartialEq, Eq, Structural)]
pub struct Cell {
    pub x: u32,
    pub y: u32,
}

/// A displacement in whole cells.
#[derive(Clone, Copy, Debug, PartialEq, Eq, Structural)]
pub struct Shift {
    pub x: i32,
    pub y: i32,
}

/// A path from the root of a quadtree to one of its cells.
#[derive(Clone, Copy, Debug, PartialEq, Eq, Structural)]
pub struct ZorderPath {
    pub zorder: u32,
    pub depth: u32,
}

/// The number of cells along one side of the grid at `depth`.
pub open spec fn side(depth: nat) -> nat {
    pow2(depth)
}

/// The number of cells of the grid at `depth`.
pub open spec fn cells(depth: nat) -> nat {
    pow2(2 * depth)
}

/// The column of the cell that the lowest `depth` steps of `zorder` lead to.
pub open spec fn column(zorder: nat, depth: nat) -> nat
    decreases depth,
{
    if depth == 0 {
        0
    } else {
        2 * column(zorder / 4, (depth - 1) as nat) + zorder % 2
    }
}

/// The row of the cell that the lowest `depth` steps of `zorder` lead to.
pub open spec fn row(zorder: nat, depth: nat) -> nat
    decreases depth,
{
    if depth == 0 {
        0
    } else {
        2 * row(zorder / 4, (depth - 1) as nat) + (zorder / 2) % 2
    }
}

/// The Morton code of depth `depth` for column `x` and row `y`.
pub open spec fn morton(x: nat, y: nat, depth: nat) -> nat
    decreases depth,
{
    if depth == 0 {
        0
    } else {
        4 * morton(x / 2, y / 2, (depth - 1) as nat) + 2 * (y % 2) + x % 2
    }
}

proof fn lemma_cells_step(depth: nat)
    ensures
        cells(depth + 1) == 4 * cells(depth),
        side(depth + 1) == 2 * side(depth),
        cells(depth) > 0,
        side(depth) > 0,
{
    lemma_pow2_unfold(2 * depth + 2);
    lemma_pow2_unfold(2 * depth + 1);
    lemma_pow2_unfold(depth + 1);
    lemma_pow2_pos(2 * depth);
    lemma_pow2_pos(depth);
}

proof fn lemma_cells_bound(depth: nat)
    requires
        depth <= MAX_DEPTH,
    ensures
        0 < cells(depth) <= 0x1_0000_0000,
        0 < side(depth) <= 0x1_0000,
{
    lemma2_to64();
    lemma_pow2_pos(2 * depth);
    lemma_pow2_pos(depth);
    if depth < MAX_DEPTH {
        lemma_pow2_strictly_increases(2 * depth, 32);
        lemma_pow2_strictly_increases(depth, 16);
    }
}

/// A column and a row lie inside the grid of their depth.
pub proof fn lemma_cell_in_grid(zorder: nat, depth: nat)
    ensures
        column(zorder, depth) < side(depth),
        row(zorder, depth) < side(depth),
    decreases depth,
{
    if depth == 0 {
        lemma2_to64();
    } else {
        lemma_cell_in_grid(zorder / 4, (depth - 1) as nat);
        lemma_cells_step((depth - 1) as nat);
    }
}

/// A Morton code lies below the number of cells of its depth.
pub proof fn lemma_morton_in_grid(x: nat, y: nat, depth: nat)
    ensures
        morton(x, y, depth) < cells(depth),
    decreases depth,
{
    if depth == 0 {
        lemma2_to64();
    } else {
        lemma_morton_in_grid(x / 2, y / 2, (depth - 1) as nat);
        lemma_cells_step((depth - 1) as nat);
    }
}

proof fn lemma_quadrant_digits(m: nat, by: nat, bx: nat)
    requires
        by < 2,
        bx < 2,
    ensures
        (4 * m + 2 * by + bx) / 4 == m,
        (4 * m + 2 * by + bx) % 2 == bx,
        ((4 * m + 2 * by + bx) / 2) % 2 == by,
{
}

proof fn lemma_halves(v: nat, h: nat, b: nat)
    requires
        b < 2,
        v == 2 * h + b,
    ensures
        v / 2 == h,
        v % 2 == b,
{
}

/// The cell of a Morton code is the cell the code was made of.
pub proof fn lemma_cell_of_morton(x: nat, y: nat, depth: nat)
    requires
        x < side(depth),
        y < side(depth),
    ensures
        column(morton(x, y, depth), depth) == x,
        row(morton(x, y, depth), depth) == y,
    decreases depth,
{
    if depth == 0 {
        lemma2_to64();
    } else {
        let d = (depth - 1) as nat;
        lemma_cells_step(d);
        lemma_cell_of_morton(x / 2, y / 2, d);
        let m = morton(x / 2, y / 2, d);
        let z = morton(x, y, depth);
        assert(z == 4 * m + 2 * (y % 2) + x % 2);
        lemma_quadrant_digits(m, y % 2, x % 2);
        assert(column(z, depth) == 2 * column(z / 4, d) + z % 2);
        assert(row(z, depth) == 2 * row(z / 4, d) + (z / 2) % 2);
    }
}

/// The Morton code of a path's cell is the path itself.
pub proof fn lemma_morton_of_cell(zorder: nat, depth: nat)
    requires
        zorder < cells(depth),
    ensures
        morton(column(zorder, depth), row(zorder, depth), depth) == zorder,
    decreases depth,
{
    if depth == 0 {
        lemma2_to64();
    } else {
        let d = (depth - 1) as nat;
        lemma_cells_step(d);
        lemma_morton_of_cell(zorder / 4, d);
        let x = column(zorder, depth);
        let y = row(zorder, depth);
        lemma_halves(x, column(zorder / 4, d), zorder % 2);
        lemma_halves(y, row(zorder / 4, d), (zorder / 2) % 2);
        assert(morton(x, y, depth) == 4 * morton(x / 2, y / 2, d) + 2 * (y % 2) + x % 2);
    }
}

impl View for ZorderPath {
    type V = Seq<u32>;

    /// The steps of the path, from the root down.
    open spec fn view(&self) -> Seq<u32> {
        Seq::new(self.depth as nat, |k: int| self.spec_read_step(k + 1))
    }
}

impl ZorderPath {
    /// The path holds no more than `MAX_DEPTH` steps and no bits above them.
    pub open spec fn wf(self) -> bool {
        self.depth <= MAX_DEPTH && self.zorder < cells(self.depth as nat)
    }

    pub open spec fn spec_with_depth(self, new_depth: nat) -> ZorderPath {
        ZorderPath {
            zorder: if self.depth <= new_depth {
                (self.zorder * cells((new_depth - self.depth) as nat)) as u32
            } else {
                (self.zorder as nat / cells((self.depth - new_depth) as nat)) as u32
            },
            depth: new_depth as u32,
        }
    }

    pub open spec fn spec_read_step(self, layer: int) -> u32 {
        (self.spec_with_depth(layer as nat).zorder % 4) as u32
    }

    pub open spec fn spec_step_down(self, direction: u32) -> ZorderPath {
        ZorderPath { zorder: (4 * self.zorder + direction) as u32, depth: (self.depth + 1) as u32 }
    }

    pub open spec fn spec_to_cell(self) -> Cell {
        Cell {
            x: column(self.zorder as nat, self.depth as nat) as u32,
            y: row(self.zorder as nat, self.depth as nat) as u32,
        }
    }

    pub open spec fn spec_from_cell(cell: Cell, depth: u32) -> ZorderPath {
        ZorderPath { zorder: morton(cell.x as nat, cell.y as nat, depth as nat) as u32, depth }
    }

    /// Whether `cell` moved by `offset` is still a cell of the grid at `depth`.
    pub open spec fn in_grid(cell: Cell, offset: Shift, depth: u32) -> bool {
        &&& 0 <= cell.x + offset.x < side(depth as nat)
        &&& 0 <= cell.y + offset.y < side(depth as nat)
    }

    pub open spec fn spec_move_cartesianly(self, offset: Shift) -> Option<ZorderPath> {
        let cell = self.spec_to_cell();
        if Self::in_grid(cell, offset, self.depth) {
            Some(
                Self::spec_from_cell(
                    Cell { x: (cell.x + offset.x) as u32, y: (cell.y + offset.y) as u32 },
                    self.depth,
                ),
            )
        } else {
            None
        }
    }

    /// The empty path.
    pub fn root() -> (r: Self)
        ensures
            r.zorder == 0,
            r.depth == 0,
            r.wf(),
    {
        proof {
            lemma2_to64();
        }
        Self { zorder: 0, depth: 0 }
    }

    /// The cell this path leads to, in the grid of its own depth.
    pub fn to_cell(&self) -> (cell: Cell)
        requires
            self.depth <= MAX_DEPTH,
        ensures
            cell == self.spec_to_cell(),
            cell.x < side(self.depth as nat),
            cell.y < side(self.depth as nat),
    {
        let mut x: u32 = 0;
        let mut y: u32 = 0;
        let mut layer: u32 = 0;
        proof {
            lemma_cells_bound(self.depth as nat);
        }
        while layer < self.depth
            invariant
                layer <= self.depth <= MAX_DEPTH,
                x == column(self.zorder as nat / cells((self.depth - layer) as nat), layer as nat),
                y == row(self.zorder as nat / cells((self.depth - layer) as nat), layer as nat),
            decreases self.depth - layer,
        {
            let below: u32 = self.depth - layer - 1;
            let step: u32 = if below == MAX_DEPTH - 1 {
                self.zorder / 0x4000_0000
            } else {
                (self.zorder >> (2 * below)) % 4
            };
            proof {
                lemma_cells_bound((below + 1) as nat);
                let upper = self.zorder as nat / cells((below + 1) as nat);
                let here = self.zorder as nat / cells(below as nat);
                lemma2_to64();
                lemma_cells_step(below as nat);
                lemma_cells_bound(below as nat);
                vstd::arithmetic::div_mod::lemma_div_denominator(
                    self.zorder as int,
                    cells(below as nat) as int,
                    4,
                );
                assert(here / 4 == upper);
                if below == MAX_DEPTH - 1 {
                    assert(here < 4);
                } else {
                    lemma_u32_shr_is_div(self.zorder, (2 * below) as u32);
                }
                assert(step == here % 4);
                lemma_cell_in_grid(here, (layer + 1) as nat);
                lemma_cells_bound((layer + 1) as nat);
                assert(column(here, (layer + 1) as nat) == 2 * column(here / 4, layer as nat) + here
                    % 2);
                assert(row(here, (layer + 1) as nat) == 2 * row(here / 4, layer as nat) + (here / 2)
                    % 2);
            }
            x = 2 * x + step % 2;
            y = 2 * y + (step / 2) % 2;
            layer = layer + 1;
        }
        proof {
            lemma2_to64();
            let whole = cells((self.depth - layer) as nat);
            assert(whole == 1);
            assert(self.zorder as nat / whole == self.zorder as nat) by (nonlinear_arith)
                requires
                    whole == 1,
            ;
            lemma_cell_in_grid(self.zorder as nat, self.depth as nat);
            lemma_cells_bound(self.depth as nat);
        }
        Cell { x, y }
    }

    /// The path of depth `depth` to `cell`. Bits of the cell above `depth` are ignored.
    pub fn from_cell(cell: Cell, depth: u32) -> (r: Self)
        requires
            depth <= MAX_DEPTH,
        ensures
            r == Self::spec_from_cell(cell, depth),
            r.wf(),
    {
        let mut zorder: u32 = 0;
        let mut layer: u32 = depth;
        proof {
            lemma2_to64();
            lemma_morton_in_grid(cell.x as nat, cell.y as nat, depth as nat);
            lemma_cells_bound(depth as nat);
        }
        while layer > 0
            invariant
                layer <= depth <= MAX_DEPTH,
                zorder == morton(
                    cell.x as nat / side(layer as nat),
                    cell.y as nat / side(layer as nat),
                    (depth - layer) as nat,
                ),
            decreases layer,
        {
            let ghost above = layer as nat;
            layer = layer - 1;
            let bx: u32 = (cell.x >> layer) % 2;
            let by: u32 = (cell.y >> layer) % 2;
            proof {
                let s = side(layer as nat);
                lemma_cells_step(layer as nat);
                lemma_u32_shr_is_div(cell.x, layer);
                lemma_u32_shr_is_div(cell.y, layer);
                let px = cell.x as nat / s;
                let py = cell.y as nat / s;
                assert(px / 2 == cell.x as nat / side(above)) by {
                    vstd::arithmetic::div_mod::lemma_div_denominator(cell.x as int, s as int, 2);
                }
                assert(py / 2 == cell.y as nat / side(above)) by {
                    vstd::arithmetic::div_mod::lemma_div_denominator(cell.y as int, s as int, 2);
                }
                lemma_morton_in_grid(px / 2, py / 2, (depth - above) as nat);
                lemma_cells_bound((depth - above) as nat);
                lemma_cells_step((depth - above) as nat);
                lemma_cells_bound((depth - layer) as nat);
                assert(morton(px, py, (depth - layer) as nat) == 4 * morton(
                    px / 2,
                    py / 2,
                    (depth - above) as nat,
                ) + 2 * (py % 2) + px % 2);
            }
            zorder = zorder * 4 + 2 * by + bx;
        }
        proof {
            lemma2_to64();
            let whole = side(layer as nat);
            assert(whole == 1);
            assert(cell.x as nat / whole == cell.x as nat && cell.y as nat / whole
                == cell.y as nat) by (nonlinear_arith)
                requires
                    whole == 1,
            ;
            lemma_morton_in_grid(cell.x as nat, cell.y as nat, depth as nat);
            lemma_cells_bound(depth as nat);
        }
        Self { zorder, depth }
    }

    /// The path cut or extended to `new_depth`: cut, it is the ancestor at that
    /// depth; extended, it keeps to the top left quadrant.
    pub fn with_depth(&self, new_depth: u32) -> (r: Self)
        requires
            self.wf(),
            new_depth <= MAX_DEPTH,
        ensures
            r == self.spec_with_depth(new_depth as nat),
            r.wf(),
    {
        proof {
            lemma2_to64();
            lemma_cells_bound(self.depth as nat);
            lemma_cells_bound(new_depth as nat);
        }
        if self.depth < new_depth {
            let shift: u32 = 2 * (new_depth - self.depth);
            let ghost factor = cells((new_depth - self.depth) as nat);
            proof {
                let k = (new_depth - self.depth) as nat;
                lemma_pow2_adds(2 * self.depth as nat, 2 * k);
                lemma_cells_bound(k);
                assert(self.zorder * factor < cells(self.depth as nat) * factor)
                    by (nonlinear_arith)
                    requires
                        self.zorder < cells(self.depth as nat),
                        factor > 0,
                ;
                assert(self.zorder * factor < cells(new_depth as nat));
            }
            if shift >= 32 {
                proof {
                    assert(self.depth == 0);
                    assert(self.zorder == 0);
                    assert(self.zorder * factor == 0) by (nonlinear_arith)
                        requires
                            self.zorder == 0,
                    ;
                }
                Self { zorder: 0, depth: new_depth }
            } else {
                proof {
                    assert(pow2(shift as nat) == factor);
                    lemma_u32_shl_is_mul(self.zorder, shift);
                }
                Self { zorder: self.zorder << shift, depth: new_depth }
            }
        } else {
            let shift: u32 = 2 * (self.depth - new_depth);
            let ghost factor = cells((self.depth - new_depth) as nat);
            proof {
                let k = (self.depth - new_depth) as nat;
                lemma_pow2_adds(2 * new_depth as nat, 2 * k);
                lemma_cells_bound(k);
                assert(self.zorder as nat / factor < cells(new_depth as nat)) by (nonlinear_arith)
                    requires
                        self.zorder < cells(new_depth as nat) * factor,
                        factor > 0,
                ;
            }
            if shift >= 32 {
                proof {
                    assert(factor == 0x1_0000_0000);
                    assert(self.zorder as nat / factor == 0) by (nonlinear_arith)
                        requires
                            self.zorder < 0x1_0000_0000,
                            factor == 0x1_0000_0000,
                    ;
                }
                Self { zorder: 0, depth: new_depth }
            } else {
                proof {
                    assert(pow2(shift as nat) == factor);
                    lemma_u32_shr_is_div(self.zorder, shift);
                    if self.depth == new_depth {
                        assert(factor == 1);
                        assert(self.zorder * factor == self.zorder && self.zorder as nat / factor
                            == self.zorder) by (nonlinear_arith)
                            requires
                                factor == 1,
                        ;
                    }
                }
                Self { zorder: self.zorder >> shift, depth: new_depth }
            }
        }
    }

    /// The cell reached by moving `offset` cells in the grid of this path's depth,
    /// or `None` where that leaves the grid.
    pub fn move_cartesianly(&self, offset: Shift) -> (r: Option<Self>)
        requires
            self.depth <= MAX_DEPTH,
        ensures
            r == self.spec_move_cartesianly(offset),
            r matches Some(path) ==> path.wf(),
    {
        let cell = self.to_cell();
        let end_x: i64 = cell.x as i64 + offset.x as i64;
        let end_y: i64 = cell.y as i64 + offset.y as i64;
        let limit: i64 = grid_side(self.depth) as i64;
        if end_x < 0 || end_y < 0 || end_x >= limit || end_y >= limit {
            return None;
        }
        Some(Self::from_cell(Cell { x: end_x as u32, y: end_y as u32 }, self.depth))
    }

    /// The step taken to reach depth `layer`: the last step of the path cut or
    /// extended to that depth.
    pub fn read_step(&self, layer: u32) -> (r: u32)
        requires
            self.wf(),
            layer <= MAX_DEPTH,
        ensures
            r == self.spec_read_step(layer as int),
            r < 4,
    {
        self.with_depth(layer).zorder % 4
    }

    /// The deepest path that leads to both `self` and `other`, once the
    /// shallower of the two is extended to the depth of the other.
    pub fn shared_parent(&self, other: Self) -> (r: Self)
        requires
            self.wf(),
            other.wf(),
        ensures
            r.wf(),
            r.depth <= Self::common_depth(*self, other),
            Self::agree(*self, other, r.depth as nat),
            r == Self::padded(*self, other).spec_with_depth(r.depth as nat),
            forall|layer: nat|
                r.depth < layer <= Self::common_depth(*self, other) ==> !Self::agree(
                    *self,
                    other,
                    layer,
                ),
    {
        let common_depth: u32 = if self.depth >= other.depth {
            self.depth
        } else {
            other.depth
        };
        let a = self.with_depth(common_depth);
        let b = other.with_depth(common_depth);
        let mut layer: u32 = common_depth;
        while layer > 0
            invariant
                layer <= common_depth <= MAX_DEPTH,
                common_depth == Self::common_depth(*self, other),
                a == Self::padded(*self, other),
                b == Self::padded(other, *self),
                a.wf(),
                b.wf(),
                forall|l: nat| layer < l <= common_depth ==> !Self::agree(*self, other, l),
            decreases layer,
        {
            let pa = a.with_depth(layer);
            let pb = b.with_depth(layer);
            if pa.zorder == pb.zorder {
                return pa;
            }
            layer = layer - 1;
        }
        proof {
            lemma2_to64();
            lemma_cells_bound(common_depth as nat);
            vstd::arithmetic::div_mod::lemma_basic_div(
                a.zorder as int,
                cells(common_depth as nat) as int,
            );
            vstd::arithmetic::div_mod::lemma_basic_div(
                b.zorder as int,
                cells(common_depth as nat) as int,
            );
        }
        a.with_depth(0)
    }

    /// The depth of the deeper of two paths.
    pub open spec fn common_depth(a: ZorderPath, b: ZorderPath) -> nat {
        if a.depth >= b.depth {
            a.depth as nat
        } else {
            b.depth as nat
        }
    }

    /// `a`, extended to the depth of the deeper of `a` and `b`.
    pub open spec fn padded(a: ZorderPath, b: ZorderPath) -> ZorderPath {
        a.spec_with_depth(Self::common_depth(a, b))
    }

    /// Whether `a` and `b`, extended to their common depth, have the same
    /// ancestor at depth `layer`.
    pub open spec fn agree(a: ZorderPath, b: ZorderPath, layer: nat) -> bool {
        Self::padded(a, b).spec_with_depth(layer) == Self::padded(b, a).spec_with_depth(layer)
    }

    /// The path one step longer, ending in quadrant `direction`.
    pub fn step_down(&self, direction: u32) -> (r: Self)
        requires
            self.wf(),
            self.depth < MAX_DEPTH,
            direction < 4,
        ensures
            r == self.spec_step_down(direction),
            r.wf(),
    {
        proof {
            lemma_cells_step(self.depth as nat);
            lemma_cells_bound((self.depth + 1) as nat);
        }
        Self { zorder: self.zorder * 4 + direction, depth: self.depth + 1 }
    }

    /// The steps of the path, from the root down.
    pub fn steps(&self) -> (r: Vec<u32>)
        requires
            self.wf(),
        ensures
            r@ == self@,
            forall|k: int| 0 <= k < r@.len() ==> r@[k] < 4,
    {
        let mut steps: Vec<u32> = Vec::with_capacity(self.depth as usize);
        let mut layer: u32 = 1;
        while layer <= self.depth
            invariant
                1 <= layer <= self.depth + 1,
                self.wf(),
                steps@.len() == layer - 1,
                forall|k: int| 0 <= k < steps@.len() ==> steps@[k] == self.spec_read_step(k + 1),
                forall|k: int| 0 <= k < steps@.len() ==> steps@[k] < 4,
            decreases self.depth + 1 - layer,
        {
            steps.push(self.read_step(layer));
            layer = layer + 1;
        }
        steps
    }
}

/// The number of cells along one side of the grid at `depth`.
pub fn grid_side(depth: u32) -> (r: u32)
    requires
        depth <= MAX_DEPTH,
    ensures
        r == side(depth as nat),
        0 < r <= 0x1_0000,
{
    proof {
        lemma2_to64();
        lemma_cells_bound(depth as nat);
        lemma_u32_shl_is_mul(1, depth);
    }
    1u32 << depth
}

} // verus!
