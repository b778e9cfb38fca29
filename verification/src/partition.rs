//! Where a quadtree sits in the world: bounding boxes, cell sizes, and the
//! lookup from a point to the cells around it.

use vstd::prelude::*;
use vstd::arithmetic::power2::{lemma_pow2_pos, lemma_pow2_adds, lemma2_to64};
use crate::graph::{CellData, ExternalPointer, SparseDirectedGraph};
use crate::math::{quotient, saturate, scaled, Axes, Vector};
use crate::zorder::{cells, grid_side, side, Cell, Shift, ZorderPath, MAX_DEPTH};

verus! {

/// The longest side a smallest cell may have.
pub const MAX_CELL_LENGTH: i64 = 0x8000_0000;

/// The absolute value of `v`.
pub open spec fn distance(v: int) -> int {
    if v < 0 {
        -v
    } else {
        v
    }
}

fn gap(a: i64, b: i64) -> (r: i128)
    ensures
        r == distance(a - b),
{
    let d: i128 = a as i128 - b as i128;
    if d < 0 {
        -d
    } else {
        d
    }
}

/// An axis-aligned box, given by its center and its half extent on each axis.
#[derive(Clone, Copy, Debug, PartialEq, Eq, Structural)]
pub struct AABB {
    pub center: Vector,
    pub radius: Vector,
}

impl AABB {
    pub open spec fn spec_min(self) -> Vector {
        self.center.spec_minus(self.radius)
    }

    pub open spec fn spec_max(self) -> Vector {
        self.center.spec_plus(self.radius)
    }

    pub open spec fn spec_intersects(self, other: AABB) -> Axes {
        Axes {
            x: distance(other.center.x - self.center.x) < self.radius.x + other.radius.x,
            y: distance(other.center.y - self.center.y) < self.radius.y + other.radius.y,
        }
    }

    pub open spec fn spec_contains(self, point: Vector) -> Axes {
        Axes {
            x: distance(point.x - self.center.x) < self.radius.x,
            y: distance(point.y - self.center.y) < self.radius.y,
        }
    }

    pub open spec fn spec_expand(self, distance: Vector) -> AABB {
        AABB {
            center: self.center.spec_plus(distance.spec_scaled(1, 2)),
            radius: Vector::spec_new(
                self.radius.x + self::distance(distance.x as int) / 2,
                self.radius.y + self::distance(distance.y as int) / 2,
            ),
        }
    }

    pub open spec fn spec_shrink(self, distance: Vector) -> AABB {
        AABB {
            center: self.center.spec_minus(distance.spec_scaled(1, 2)),
            radius: Vector::spec_new(
                self::distance(self.radius.x - self::distance(distance.x as int) / 2),
                self::distance(self.radius.y - self::distance(distance.y as int) / 2),
            ),
        }
    }

    /// On each axis, the cell of the box that a point outside it on that axis
    /// comes in by: -1 before the near edge, 1 beyond the far edge, 0 between
    /// the two. `None` where the point moves away from the box on some axis.
    pub open spec fn spec_exterior_will_intersect(self, point: Vector, velocity: Vector) -> Option<
        Shift,
    > {
        let x = Self::entry(point.x, self.spec_min().x, self.spec_max().x, velocity.x);
        let y = Self::entry(point.y, self.spec_min().y, self.spec_max().y, velocity.y);
        if x is Some && y is Some {
            Some(Shift { x: x->0, y: y->0 })
        } else {
            None
        }
    }

    /// The entry on one axis, for a box from `low` to `high`.
    pub open spec fn entry(point: i64, low: i64, high: i64, velocity: i64) -> Option<i32> {
        if point <= low {
            if velocity > 0 {
                Some(-1i32)
            } else {
                None
            }
        } else if point >= high {
            if velocity < 0 {
                Some(1i32)
            } else {
                None
            }
        } else {
            Some(0i32)
        }
    }

    pub fn new(center: Vector, radius: Vector) -> (r: Self)
        ensures
            r.center == center,
            r.radius == radius,
    {
        Self { center, radius }
    }

    /// The corner with the smallest coordinates.
    pub fn min(&self) -> (r: Vector)
        ensures
            r == self.spec_min(),
    {
        self.center.minus(self.radius)
    }

    /// The corner with the largest coordinates.
    pub fn max(&self) -> (r: Vector)
        ensures
            r == self.spec_max(),
    {
        self.center.plus(self.radius)
    }

    pub fn center(&self) -> (r: Vector)
        ensures
            r == self.center,
    {
        self.center
    }

    pub fn radius(&self) -> (r: Vector)
        ensures
            r == self.radius,
    {
        self.radius
    }

    pub fn set_radius(&mut self, radius: Vector)
        ensures
            final(self).radius == radius,
            final(self).center == old(self).center,
    {
        self.radius = radius;
    }

    /// On each axis, whether the two boxes overlap.
    pub fn intersects(&self, other: Self) -> (r: Axes)
        ensures
            r == self.spec_intersects(other),
    {
        Axes {
            x: gap(other.center.x, self.center.x) < self.radius.x as i128 + other.radius.x as i128,
            y: gap(other.center.y, self.center.y) < self.radius.y as i128 + other.radius.y as i128,
        }
    }

    /// On each axis, whether `point` lies strictly inside the box.
    pub fn contains(&self, point: Vector) -> (r: Axes)
        ensures
            r == self.spec_contains(point),
    {
        Axes {
            x: gap(point.x, self.center.x) < self.radius.x as i128,
            y: gap(point.y, self.center.y) < self.radius.y as i128,
        }
    }

    pub fn move_by(&mut self, displacement: Vector)
        ensures
            final(self).center == old(self).center.spec_plus(displacement),
            final(self).radius == old(self).radius,
    {
        self.center = self.center.plus(displacement);
    }

    pub fn move_to(&mut self, position: Vector)
        ensures
            final(self).center == position,
            final(self).radius == old(self).radius,
    {
        self.center = position;
    }

    /// The box stretched by `distance`: it covers the box and the box moved
    /// by `distance`, up to rounding.
    pub fn expand(&self, distance: Vector) -> (r: Self)
        ensures
            r == self.spec_expand(distance),
    {
        Self {
            center: self.center.plus(distance.scaled(1, 2)),
            radius: Vector {
                x: saturate(self.radius.x as i128 + gap(distance.x, 0) / 2),
                y: saturate(self.radius.y as i128 + gap(distance.y, 0) / 2),
            },
        }
    }

    /// The box narrowed by `distance`.
    pub fn shrink(&self, distance: Vector) -> (r: Self)
        ensures
            r == self.spec_shrink(distance),
    {
        let rx: i128 = self.radius.x as i128 - gap(distance.x, 0) / 2;
        let ry: i128 = self.radius.y as i128 - gap(distance.y, 0) / 2;
        Self {
            center: self.center.minus(distance.scaled(1, 2)),
            radius: Vector {
                x: saturate(if rx < 0 { -rx } else { rx }),
                y: saturate(if ry < 0 { -ry } else { ry }),
            },
        }
    }

    /// See [`AABB::spec_exterior_will_intersect`].
    pub fn exterior_will_intersect(&self, point: Vector, velocity: Vector) -> (r: Option<Shift>)
        ensures
            r == self.spec_exterior_will_intersect(point, velocity),
    {
        let low = self.min();
        let high = self.max();
        let mut cell = Shift { x: 0, y: 0 };
        if point.x <= low.x {
            if velocity.x > 0 {
                cell.x = -1;
            } else {
                return None;
            }
        } else if point.x >= high.x {
            if velocity.x < 0 {
                cell.x = 1;
            } else {
                return None;
            }
        }
        if point.y <= low.y {
            if velocity.y > 0 {
                cell.y = -1;
            } else {
                return None;
            }
        } else if point.y >= high.y {
            if velocity.y < 0 {
                cell.y = 1;
            } else {
                return None;
            }
        }
        Some(cell)
    }
}

/// The place of a quadtree in the world: the center of its root, the root,
/// and the size of a cell of height zero.
#[derive(Clone, Copy, Debug, PartialEq, Eq, Structural)]
pub struct Location {
    pub position: Vector,
    pub pointer: ExternalPointer,
    pub min_cell_length: Vector,
}

/// Whether `length` can be the size of a smallest cell.
pub open spec fn cell_sized(length: Vector) -> bool {
    0 < length.x <= MAX_CELL_LENGTH && 0 < length.y <= MAX_CELL_LENGTH
}

impl Location {
    /// The root is no higher than a path can reach, and the smallest cell has
    /// a positive size within bounds.
    pub open spec fn wf(self) -> bool {
        self.pointer.height <= MAX_DEPTH && cell_sized(self.min_cell_length)
    }

    pub open spec fn spec_to_aabb(self) -> AABB {
        Bounds::spec_aabb(self.position, self.pointer.height, self.min_cell_length)
    }

    pub fn new(position: Vector, pointer: ExternalPointer, min_cell_length: Vector) -> (r: Self)
        ensures
            r.position == position,
            r.pointer == pointer,
            r.min_cell_length == min_cell_length,
    {
        Self { position, pointer, min_cell_length }
    }

    /// Whether [`Location::wf`] holds.
    pub fn is_wf(&self) -> (r: bool)
        ensures
            r == self.wf(),
    {
        self.pointer.height <= MAX_DEPTH && 0 < self.min_cell_length.x && self.min_cell_length.x
            <= MAX_CELL_LENGTH && 0 < self.min_cell_length.y && self.min_cell_length.y
            <= MAX_CELL_LENGTH
    }

    /// The box that the root covers.
    pub fn to_aabb(&self) -> (r: AABB)
        requires
            self.pointer.height <= MAX_DEPTH,
        ensures
            r == self.spec_to_aabb(),
    {
        Bounds::aabb(self.position, self.pointer.height, self.min_cell_length)
    }
}

/// Sizes and corners of cells.
pub struct Bounds;

impl Bounds {
    pub open spec fn spec_cell_length(height: u32, min_cell_length: Vector) -> Vector {
        Vector::spec_new(
            min_cell_length.x * side(height as nat),
            min_cell_length.y * side(height as nat),
        )
    }

    pub open spec fn spec_center_to_edges(height: u32, min_cell_length: Vector) -> Vector {
        Self::spec_cell_length(height, min_cell_length).spec_scaled(1, 2)
    }

    pub open spec fn spec_aabb(position: Vector, height: u32, min_cell_length: Vector) -> AABB {
        AABB { center: position, radius: Self::spec_center_to_edges(height, min_cell_length) }
    }

    pub open spec fn spec_top_left_corner(cell: Cell, height: u32, min_cell_length: Vector) -> Vector {
        let length = Self::spec_cell_length(height, min_cell_length);
        Vector::spec_new(length.x * cell.x, length.y * cell.y)
    }

    /// The size of a cell of height `height`: `2^height` smallest cells a side.
    pub fn cell_length(height: u32, min_cell_length: Vector) -> (r: Vector)
        requires
            height <= MAX_DEPTH,
        ensures
            r == Self::spec_cell_length(height, min_cell_length),
    {
        let factor: i64 = grid_side(height) as i64;
        Vector { x: scaled(min_cell_length.x, factor, 1), y: scaled(min_cell_length.y, factor, 1) }
    }

    /// Half the size of a cell of height `height`.
    pub fn center_to_edges(height: u32, min_cell_length: Vector) -> (r: Vector)
        requires
            height <= MAX_DEPTH,
        ensures
            r == Self::spec_center_to_edges(height, min_cell_length),
    {
        Self::cell_length(height, min_cell_length).scaled(1, 2)
    }

    /// The box of a cell of height `height` centered at `position`.
    pub fn aabb(position: Vector, height: u32, min_cell_length: Vector) -> (r: AABB)
        requires
            height <= MAX_DEPTH,
        ensures
            r == Self::spec_aabb(position, height, min_cell_length),
    {
        AABB::new(position, Self::center_to_edges(height, min_cell_length))
    }

    /// The top left corner of `cell` in the grid of cells of height `height`,
    /// measured from the top left corner of the grid.
    pub fn top_left_corner(cell: Cell, height: u32, min_cell_length: Vector) -> (r: Vector)
        requires
            height <= MAX_DEPTH,
        ensures
            r == Self::spec_top_left_corner(cell, height, min_cell_length),
    {
        let length = Self::cell_length(height, min_cell_length);
        Vector { x: scaled(length.x, cell.x as i64, 1), y: scaled(length.y, cell.y as i64, 1) }
    }
}

/// The lookup from points to cells.
pub struct Gate;

impl Gate {
    /// The place of `point` on one axis, counted from the near edge of a grid
    /// centered at `grid_position` and `grid_length` long.
    pub open spec fn from_edge(point: i64, grid_position: i64, grid_length: i64) -> int {
        point - (grid_position - quotient(grid_length as int, 2))
    }

    /// One unit toward the quadrant `quadrant` on each axis: bit 0 set is
    /// right, bit 1 set is down.
    pub open spec fn nudge(quadrant: int) -> (int, int) {
        (if quadrant % 2 == 1 { 1 } else { -1 }, if quadrant / 2 == 1 { 1 } else { -1 })
    }

    /// The cell that holds the point one unit from `point` toward `quadrant`,
    /// if that point lies in the grid.
    pub open spec fn spec_point_to_cell(
        grid_position: Vector,
        cell_height: u32,
        root_height: u32,
        min_cell_length: Vector,
        point: Vector,
        quadrant: int,
    ) -> Option<Cell> {
        let cell_length = Bounds::spec_cell_length(cell_height, min_cell_length);
        let grid_length = Bounds::spec_cell_length(root_height, min_cell_length);
        let x = Self::from_edge(point.x, grid_position.x, grid_length.x) + Self::nudge(quadrant).0;
        let y = Self::from_edge(point.y, grid_position.y, grid_length.y) + Self::nudge(quadrant).1;
        if 0 <= x < grid_length.x && 0 <= y < grid_length.y {
            Some(Cell { x: (x / cell_length.x as int) as u32, y: (y / cell_length.y as int) as u32 })
        } else {
            None
        }
    }

    pub open spec fn spec_find_real_cell(
        graph: &SparseDirectedGraph,
        pointer: ExternalPointer,
        cell: Cell,
    ) -> CellData {
        let path = ZorderPath::spec_from_cell(cell, pointer.height);
        let reached = graph.spec_read(pointer, path@);
        CellData {
            pointer: reached,
            cell: path.spec_with_depth((pointer.height - reached.height) as nat).spec_to_cell(),
        }
    }

    pub open spec fn spec_point_to_real_cell(
        graph: &SparseDirectedGraph,
        location: Location,
        point: Vector,
        quadrant: int,
    ) -> Option<CellData> {
        match Self::spec_point_to_cell(
            location.position,
            0,
            location.pointer.height,
            location.min_cell_length,
            point,
            quadrant,
        ) {
            Some(cell) => Some(Self::spec_find_real_cell(graph, location.pointer, cell)),
            None => None,
        }
    }

    /// The cells of height `cell_height` around `point`, one per quadrant:
    /// top left, top right, bottom left, bottom right. A quadrant whose side
    /// of the point lies outside the grid has none.
    pub fn point_to_cells(
        grid_position: Vector,
        cell_height: u32,
        root_height: u32,
        min_cell_length: Vector,
        point: Vector,
    ) -> (r: [Option<Cell>; 4])
        requires
            cell_height <= root_height <= MAX_DEPTH,
            cell_sized(min_cell_length),
        ensures
            forall|q: int|
                0 <= q < 4 ==> #[trigger] r[q] == Self::spec_point_to_cell(
                    grid_position,
                    cell_height,
                    root_height,
                    min_cell_length,
                    point,
                    q,
                ),
            forall|q: int|
                0 <= q < 4 ==> (#[trigger] r[q] matches Some(cell) ==> cell.x < side(
                    (root_height - cell_height) as nat,
                ) && cell.y < side((root_height - cell_height) as nat)),
    {
        let cell_length = Bounds::cell_length(cell_height, min_cell_length);
        let grid_length = Bounds::cell_length(root_height, min_cell_length);
        proof {
            lemma_lengths(cell_height, root_height, min_cell_length.x);
            lemma_lengths(cell_height, root_height, min_cell_length.y);
        }
        let origin_x: i128 = point.x as i128 - (grid_position.x as i128 - (grid_length.x / 2) as i128);
        let origin_y: i128 = point.y as i128 - (grid_position.y as i128 - (grid_length.y / 2) as i128);
        let mut surrounding: [Option<Cell>; 4] = [None, None, None, None];
        let mut quadrant: usize = 0;
        while quadrant < 4
            invariant
                quadrant <= 4,
                cell_height <= root_height <= MAX_DEPTH,
                cell_sized(min_cell_length),
                cell_length == Bounds::spec_cell_length(cell_height, min_cell_length),
                grid_length == Bounds::spec_cell_length(root_height, min_cell_length),
                origin_x == Self::from_edge(point.x, grid_position.x, grid_length.x),
                origin_y == Self::from_edge(point.y, grid_position.y, grid_length.y),
                cell_length.x == min_cell_length.x * side(cell_height as nat),
                cell_length.y == min_cell_length.y * side(cell_height as nat),
                grid_length.x == cell_length.x * side((root_height - cell_height) as nat),
                grid_length.y == cell_length.y * side((root_height - cell_height) as nat),
                0 < cell_length.x,
                0 < cell_length.y,
                0 < side((root_height - cell_height) as nat) <= 0x1_0000,
                forall|q: int|
                    0 <= q < quadrant ==> #[trigger] surrounding[q] == Self::spec_point_to_cell(
                        grid_position,
                        cell_height,
                        root_height,
                        min_cell_length,
                        point,
                        q,
                    ),
                forall|q: int|
                    0 <= q < quadrant ==> (#[trigger] surrounding[q] matches Some(cell) ==> cell.x
                        < side((root_height - cell_height) as nat) && cell.y < side(
                        (root_height - cell_height) as nat,
                    )),
                forall|q: int| quadrant <= q < 4 ==> #[trigger] surrounding[q] is None,
            decreases 4 - quadrant,
        {
            let x: i128 = origin_x + if quadrant % 2 == 1 { 1i128 } else { -1i128 };
            let y: i128 = origin_y + if quadrant / 2 == 1 { 1i128 } else { -1i128 };
            if 0 <= x && x < grid_length.x as i128 && 0 <= y && y < grid_length.y as i128 {
                proof {
                    lemma_floor(
                        x as int,
                        cell_length.x as int,
                        side((root_height - cell_height) as nat) as int,
                    );
                    lemma_floor(
                        y as int,
                        cell_length.y as int,
                        side((root_height - cell_height) as nat) as int,
                    );
                }
                let cx: i128 = x / cell_length.x as i128;
                let cy: i128 = y / cell_length.y as i128;
                surrounding[quadrant] = Some(Cell { x: cx as u32, y: cy as u32 });
            }
            quadrant = quadrant + 1;
        }
        surrounding
    }

    /// The node of the tree at `pointer` that fills `cell`, a cell of height
    /// zero, and the cell that this node fills in the grid of its own height.
    pub fn find_real_cell(graph: &SparseDirectedGraph, pointer: ExternalPointer, cell: Cell) -> (r:
        CellData)
        requires
            graph.wf(),
            graph.contains(pointer.pointer.index),
            pointer.height <= MAX_DEPTH,
        ensures
            r == Self::spec_find_real_cell(graph, pointer, cell),
            graph.contains(r.pointer.pointer.index),
            r.pointer.height <= pointer.height,
            graph.holds(pointer) ==> graph.spec_is_leaf(r.pointer.pointer.index),
    {
        let path = ZorderPath::from_cell(cell, pointer.height);
        let steps = path.steps();
        proof {
            if graph.holds(pointer) {
                graph.lemma_read_reaches_leaf(pointer, steps@);
            }
        }
        let real_pointer = graph.read(pointer, &steps);
        let zorder = path.with_depth(pointer.height - real_pointer.height);
        CellData::new(real_pointer, zorder.to_cell())
    }

    /// The nodes of the tree at `location` around `point`, one per quadrant:
    /// top left, top right, bottom left, bottom right.
    pub fn point_to_real_cells(graph: &SparseDirectedGraph, location: Location, point: Vector) -> (r:
        [Option<CellData>; 4])
        requires
            graph.wf(),
            graph.contains(location.pointer.pointer.index),
            location.wf(),
        ensures
            forall|q: int|
                0 <= q < 4 ==> #[trigger] r[q] == Self::spec_point_to_real_cell(
                    graph,
                    location,
                    point,
                    q,
                ),
            forall|q: int|
                0 <= q < 4 ==> (#[trigger] r[q] matches Some(data) ==> data.pointer.height
                    <= location.pointer.height && graph.contains(data.pointer.pointer.index)),
            graph.holds(location.pointer) ==> forall|q: int|
                0 <= q < 4 ==> (#[trigger] r[q] matches Some(data) ==> graph.spec_is_leaf(
                    data.pointer.pointer.index,
                )),
    {
        let cells = Self::point_to_cells(
            location.position,
            0,
            location.pointer.height,
            location.min_cell_length,
            point,
        );
        let mut reached: [Option<CellData>; 4] = [None, None, None, None];
        let mut quadrant: usize = 0;
        while quadrant < 4
            invariant
                quadrant <= 4,
                graph.wf(),
                graph.contains(location.pointer.pointer.index),
                location.wf(),
                forall|q: int|
                    0 <= q < 4 ==> #[trigger] cells[q] == Self::spec_point_to_cell(
                        location.position,
                        0,
                        location.pointer.height,
                        location.min_cell_length,
                        point,
                        q,
                    ),
                forall|q: int|
                    0 <= q < quadrant ==> #[trigger] reached[q] == Self::spec_point_to_real_cell(
                        graph,
                        location,
                        point,
                        q,
                    ),
                forall|q: int|
                    0 <= q < 4 ==> (#[trigger] reached[q] matches Some(data) ==> data.pointer.height
                        <= location.pointer.height && graph.contains(data.pointer.pointer.index)),
                graph.holds(location.pointer) ==> forall|q: int|
                    0 <= q < 4 ==> (#[trigger] reached[q] matches Some(data) ==> graph.spec_is_leaf(
                        data.pointer.pointer.index,
                    )),
            decreases 4 - quadrant,
        {
            reached[quadrant] =
            match cells[quadrant] {
                Some(cell) => Some(Self::find_real_cell(graph, location.pointer, cell)),
                None => None,
            };
            quadrant = quadrant + 1;
        }
        reached
    }
}

/// A cell found around a point holds the point it was looked up for: the
/// point one unit from `point` toward the quadrant lies between the near
/// sides of that cell and those of the next.
pub proof fn lemma_cell_holds_point(
    grid_position: Vector,
    cell_height: u32,
    root_height: u32,
    min_cell_length: Vector,
    point: Vector,
    quadrant: int,
)
    requires
        cell_height <= root_height <= MAX_DEPTH,
        cell_sized(min_cell_length),
        0 <= quadrant < 4,
    ensures
        Gate::spec_point_to_cell(
            grid_position,
            cell_height,
            root_height,
            min_cell_length,
            point,
            quadrant,
        ) matches Some(cell) ==> {
            let length = Bounds::spec_cell_length(cell_height, min_cell_length);
            let whole = Bounds::spec_cell_length(root_height, min_cell_length);
            let x = Gate::from_edge(point.x, grid_position.x, whole.x) + Gate::nudge(quadrant).0;
            let y = Gate::from_edge(point.y, grid_position.y, whole.y) + Gate::nudge(quadrant).1;
            &&& cell.x * length.x <= x < (cell.x + 1) * length.x
            &&& cell.y * length.y <= y < (cell.y + 1) * length.y
            &&& cell.x < side((root_height - cell_height) as nat)
            &&& cell.y < side((root_height - cell_height) as nat)
        },
{
    lemma_lengths(cell_height, root_height, min_cell_length.x);
    lemma_lengths(cell_height, root_height, min_cell_length.y);
    let length = Bounds::spec_cell_length(cell_height, min_cell_length);
    let whole = Bounds::spec_cell_length(root_height, min_cell_length);
    let count = side((root_height - cell_height) as nat) as int;
    let x = Gate::from_edge(point.x, grid_position.x, whole.x) + Gate::nudge(quadrant).0;
    let y = Gate::from_edge(point.y, grid_position.y, whole.y) + Gate::nudge(quadrant).1;
    if 0 <= x < whole.x && 0 <= y < whole.y {
        lemma_floor(x, length.x as int, count);
        lemma_floor(y, length.y as int, count);
    }
}

proof fn lemma_floor(x: int, length: int, count: int)
    requires
        0 <= x < length * count,
        0 < length,
        0 < count,
    ensures
        0 <= x / length < count,
        (x / length) * length <= x < (x / length + 1) * length,
{
    assert(0 <= x / length < count && (x / length) * length <= x < (x / length + 1) * length)
        by (nonlinear_arith)
        requires
            0 <= x < length * count,
            0 < length,
            0 < count,
    ;
}

/// Cell and grid lengths are exact: nothing saturates within the bounds.
proof fn lemma_lengths(cell_height: u32, root_height: u32, min: i64)
    requires
        cell_height <= root_height <= MAX_DEPTH,
        0 < min <= MAX_CELL_LENGTH,
    ensures
        0 < min * side(cell_height as nat) <= 0x8000_0000_0000,
        0 < min * side(root_height as nat) <= 0x8000_0000_0000,
        min * side(root_height as nat) == (min * side(cell_height as nat)) * side(
            (root_height - cell_height) as nat,
        ),
        0 < side((root_height - cell_height) as nat) <= 0x1_0000,
{
    let c = side(cell_height as nat);
    let r = side(root_height as nat);
    let k = side((root_height - cell_height) as nat);
    lemma2_to64();
    lemma_pow2_pos(cell_height as nat);
    lemma_pow2_pos(root_height as nat);
    lemma_pow2_pos((root_height - cell_height) as nat);
    lemma_pow2_adds(cell_height as nat, (root_height - cell_height) as nat);
    assert(r == c * k);
    if cell_height < 16 {
        vstd::arithmetic::power2::lemma_pow2_strictly_increases(cell_height as nat, 16);
    }
    if root_height < 16 {
        vstd::arithmetic::power2::lemma_pow2_strictly_increases(root_height as nat, 16);
    }
    if root_height - cell_height < 16 {
        vstd::arithmetic::power2::lemma_pow2_strictly_increases(
            (root_height - cell_height) as nat,
            16,
        );
    }
    assert(0 < min * c <= 0x8000_0000_0000 && 0 < min * r <= 0x8000_0000_0000 && min * r == (min
        * c) * k) by (nonlinear_arith)
        requires
            0 < min <= 0x8000_0000,
            0 < c <= 0x1_0000,
            0 < r <= 0x1_0000,
            r == c * k,
    ;
}

} // verus!
