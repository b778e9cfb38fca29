//! What a moving corner meets: whether it touches a solid cell, along which
//! axes it is stopped, and which cell boundary it crosses next.

use vstd::prelude::*;
use crate::blocks::BlockPalette;
use crate::corners::{CheckZorders, CornerType};
use crate::graph::{CellData, SparseDirectedGraph};
use crate::math::{scaled, Axes, Vector, TICK};
use crate::partition::{distance, Bounds, Gate, Location};
use crate::zorder::{Cell, MAX_DEPTH};

verus! {

/// Whether one of the listed quadrants around a point holds a solid cell.
pub open spec fn any_solid(
    blocks: &BlockPalette,
    position_data: [Option<CellData>; 4],
    quadrants: Seq<int>,
) -> bool {
    exists|k: int|
        0 <= k < quadrants.len() && blocks.spec_is_solid_cell(
            #[trigger] position_data[quadrants[k]],
        )
}

/// The axes along which the corner is stopped, before any sliding: those it
/// can be stopped along at all, and of these each axis on which it moves only
/// if a cell it runs into is solid.
pub open spec fn blocked(
    blocks: &BlockPalette,
    position_data: [Option<CellData>; 4],
    velocity: Vector,
    corner_type: CornerType,
) -> Axes {
    let hittable = corner_type.spec_hittable_walls(velocity);
    let hit = any_solid(blocks, position_data, corner_type.spec_checks(velocity));
    Axes {
        x: hittable.x && (velocity.x == 0 || hit),
        y: hittable.y && (velocity.y == 0 || hit),
    }
}

/// The quadrants beside the one ahead of a point that moves on both axes:
/// first the one across the vertical boundary, then the one across the
/// horizontal boundary.
pub open spec fn slide_quadrants(velocity: Vector) -> (int, int) {
    if velocity.x < 0 && velocity.y < 0 {
        (2, 1)
    } else if velocity.x < 0 {
        (0, 3)
    } else if velocity.y < 0 {
        (3, 0)
    } else {
        (1, 2)
    }
}

/// The axes along which the corner is stopped. A corner stopped on both axes
/// slides along one of them where exactly one of the two cells beside the
/// one ahead is solid: it then stays stopped only across that cell.
pub open spec fn spec_hitting_wall(
    blocks: &BlockPalette,
    position_data: [Option<CellData>; 4],
    velocity: Vector,
    corner_type: CornerType,
) -> Option<Axes> {
    let stopped = blocked(blocks, position_data, velocity, corner_type);
    let beside = slide_quadrants(velocity);
    let slide = Axes {
        x: blocks.spec_is_solid_cell(position_data[beside.0]),
        y: blocks.spec_is_solid_cell(position_data[beside.1]),
    };
    let walls = if stopped.spec_all() && slide.spec_any() {
        slide
    } else {
        stopped
    };
    if walls.spec_any() {
        Some(walls)
    } else {
        None
    }
}

/// A corner is stopped only where it runs into something solid, and only
/// along axes it can be stopped along.
pub proof fn lemma_walls_are_hit(
    blocks: &BlockPalette,
    position_data: [Option<CellData>; 4],
    velocity: Vector,
    corner_type: CornerType,
)
    ensures
        spec_hitting_wall(blocks, position_data, velocity, corner_type) matches Some(walls) ==> {
            &&& walls.spec_any()
            &&& walls.x ==> corner_type.spec_hittable_walls(velocity).x
            &&& walls.y ==> corner_type.spec_hittable_walls(velocity).y
            &&& any_solid(blocks, position_data, corner_type.spec_checks(velocity))
        },
{
}

/// A corner is stopped only along an axis that it moves along: one that
/// moves along x alone is stopped along x alone.
pub proof fn lemma_walls_lie_along_motion(
    blocks: &BlockPalette,
    position_data: [Option<CellData>; 4],
    velocity: Vector,
    corner_type: CornerType,
)
    ensures
        spec_hitting_wall(blocks, position_data, velocity, corner_type) matches Some(walls) ==> {
            &&& velocity.x == 0 ==> !walls.x
            &&& velocity.y == 0 ==> !walls.y
        },
{
}

/// A corner meets a wall only in the tree it is swept against: where it
/// does, it lies in the box of the tree or within a unit of it. A corner
/// that keeps farther away meets nothing.
pub proof fn lemma_wall_is_in_the_tree(
    graph: &SparseDirectedGraph,
    blocks: &BlockPalette,
    location: Location,
    point: Vector,
    velocity: Vector,
    corner_type: CornerType,
)
    ensures
        spec_hitting_wall(
            blocks,
            surroundings(graph, location, point),
            velocity,
            corner_type,
        ) is Some ==> {
            let whole = Bounds::spec_cell_length(location.pointer.height, location.min_cell_length);
            &&& -1 <= Gate::from_edge(point.x, location.position.x, whole.x) <= whole.x
            &&& -1 <= Gate::from_edge(point.y, location.position.y, whole.y) <= whole.y
        },
{
    let around = surroundings(graph, location, point);
    if spec_hitting_wall(blocks, around, velocity, corner_type) is Some {
        lemma_walls_are_hit(blocks, around, velocity, corner_type);
        let quadrants = corner_type.spec_checks(velocity);
        let k = choose|k: int|
            0 <= k < quadrants.len() && blocks.spec_is_solid_cell(#[trigger] around[quadrants[k]]);
        let q = quadrants[k];
        assert(0 <= q < 4);
        assert(around[q] == Gate::spec_point_to_real_cell(graph, location, point, q));
        assert(around[q] is Some);
    }
}

/// See [`spec_hitting_wall`].
pub fn hitting_wall(
    blocks: &BlockPalette,
    position_data: &[Option<CellData>; 4],
    velocity: Vector,
    corner_type: CornerType,
) -> (r: Option<Axes>)
    requires
        !velocity.spec_is_zero(),
    ensures
        r == spec_hitting_wall(blocks, *position_data, velocity, corner_type),
{
    let mut hit_walls = corner_type.hittable_walls(velocity);
    let checks = corner_type.checks(velocity);
    let hit: bool = match checks {
        CheckZorders::One(index) => {
            assert(checks@[0] == index);
            blocks.is_solid_cell(position_data[index])
        },
        CheckZorders::Two(pair) => {
            assert(checks@[0] == pair[0] && checks@[1] == pair[1]);
            let first = blocks.is_solid_cell(position_data[pair[0]]);
            let second = blocks.is_solid_cell(position_data[pair[1]]);
            first || second
        },
    };
    proof {
        let quadrants = corner_type.spec_checks(velocity);
        assert(checks@ == quadrants);
        if hit {
            match checks {
                CheckZorders::One(index) => {
                    assert(blocks.spec_is_solid_cell(position_data[quadrants[0]]));
                },
                CheckZorders::Two(pair) => {
                    if blocks.spec_is_solid_cell(position_data[pair[0] as int]) {
                        assert(blocks.spec_is_solid_cell(position_data[quadrants[0]]));
                    } else {
                        assert(blocks.spec_is_solid_cell(position_data[quadrants[1]]));
                    }
                },
            }
        }
        assert(hit == any_solid(blocks, *position_data, quadrants));
    }
    if velocity.x != 0 {
        hit_walls.x = hit_walls.x && hit;
    }
    if velocity.y != 0 {
        hit_walls.y = hit_walls.y && hit;
    }
    assert(hit_walls == blocked(blocks, *position_data, velocity, corner_type));
    if hit_walls.all() {
        let idxs: [usize; 2] = if velocity.x < 0 && velocity.y < 0 {
            [2, 1]
        } else if velocity.x < 0 {
            [0, 3]
        } else if velocity.y < 0 {
            [3, 0]
        } else {
            [1, 2]
        };
        let slide = Axes::new(
            blocks.is_solid_cell(position_data[idxs[0]]),
            blocks.is_solid_cell(position_data[idxs[1]]),
        );
        if slide.any() {
            hit_walls = hit_walls.and(slide);
        }
    }
    if hit_walls.any() {
        Some(hit_walls)
    } else {
        None
    }
}

/// The cell and height of `data`, if it is there.
pub open spec fn bounds_of(data: Option<CellData>) -> Option<(Cell, u32)> {
    match data {
        Some(cell) => Some((cell.cell, cell.pointer.height)),
        None => None,
    }
}

/// The cell that sets the next boundary: of the listed quadrants, the one
/// that holds a cell; where two do, the lower cell, and the second of two
/// equally high.
pub open spec fn spec_select_cell_and_height(
    position_data: [Option<CellData>; 4],
    quadrants: Seq<int>,
) -> Option<(Cell, u32)> {
    if quadrants.len() == 1 {
        bounds_of(position_data[quadrants[0]])
    } else {
        match (bounds_of(position_data[quadrants[0]]), bounds_of(position_data[quadrants[1]])) {
            (Some(first), Some(second)) => if first.1 < second.1 {
                Some(first)
            } else {
                Some(second)
            },
            (Some(first), None) => Some(first),
            (None, second) => second,
        }
    }
}

/// See [`spec_select_cell_and_height`].
pub fn select_cell_and_height(position_data: &[Option<CellData>; 4], col_zorders: CheckZorders) -> (r:
    Option<(Cell, u32)>)
    requires
        forall|k: int| 0 <= k < col_zorders@.len() ==> 0 <= #[trigger] col_zorders@[k] < 4,
    ensures
        r == spec_select_cell_and_height(*position_data, col_zorders@),
{
    match col_zorders {
        CheckZorders::Two(indices) => {
            assert(col_zorders@[0] == indices[0] && col_zorders@[1] == indices[1]);
            match (position_data[indices[0]], position_data[indices[1]]) {
                (Some(cell1), Some(cell2)) => {
                    if cell1.pointer.height < cell2.pointer.height {
                        Some(cell1.bound_data())
                    } else {
                        Some(cell2.bound_data())
                    }
                },
                (Some(cell), None) => Some(cell.bound_data()),
                (None, Some(cell)) => Some(cell.bound_data()),
                (None, None) => None,
            }
        },
        CheckZorders::One(idx) => {
            assert(col_zorders@[0] == idx);
            match position_data[idx] {
                Some(cell) => Some(cell.bound_data()),
                None => None,
            }
        },
    }
}

/// 1 where `v` is positive or zero, else 0.
pub open spec fn beyond(v: int) -> int {
    if v >= 0 {
        1
    } else {
        0
    }
}

/// The cell whose far side, in the direction of `itvel`, the point crosses
/// next, counted in cells of the returned height from the top left corner of
/// the tree at `location`.
///
/// For a point outside the box of the tree on some axis it is the box itself
/// or the place of a box before or beyond it; for a point inside, the cell
/// chosen among those ahead of it.
pub open spec fn next_cell(
    location: Location,
    position_data: [Option<CellData>; 4],
    itvel: Vector,
    point: Vector,
) -> Option<(int, int, u32)> {
    let aabb = location.spec_to_aabb();
    if !aabb.spec_contains(point).spec_all() {
        match aabb.spec_exterior_will_intersect(point, itvel) {
            Some(cell) => Some((cell.x as int, cell.y as int, location.pointer.height)),
            None => None,
        }
    } else {
        match spec_select_cell_and_height(position_data, CheckZorders::spec_from_velocity(itvel)) {
            Some((cell, height)) => Some((cell.x as int, cell.y as int, height)),
            None => None,
        }
    }
}

/// The corner of the next cell that lies ahead of the point on both axes:
/// the vertical and the horizontal line that the point may cross next.
pub open spec fn spec_boundary_corner(
    location: Location,
    position_data: [Option<CellData>; 4],
    itvel: Vector,
    point: Vector,
) -> Option<Vector> {
    match next_cell(location, position_data, itvel, point) {
        Some((x, y, height)) => {
            let length = Bounds::spec_cell_length(height, location.min_cell_length);
            Some(
                location.spec_to_aabb().spec_min().spec_plus(
                    Vector::spec_new(
                        length.x * (x + beyond(itvel.x as int)),
                        length.y * (y + beyond(itvel.y as int)),
                    ),
                ),
            )
        },
        None => None,
    }
}

/// See [`spec_boundary_corner`].
pub fn boundary_corner(
    hitting_location: Location,
    position_data: &[Option<CellData>; 4],
    itvel: Vector,
    point: Vector,
) -> (r: Option<Vector>)
    requires
        hitting_location.wf(),
        !itvel.spec_is_zero(),
        forall|q: int|
            0 <= q < 4 ==> (#[trigger] position_data[q] matches Some(data) ==> data.pointer.height
                <= MAX_DEPTH),
    ensures
        r == spec_boundary_corner(hitting_location, *position_data, itvel, point),
{
    let hitting_aabb = hitting_location.to_aabb();
    let top_left = hitting_aabb.min();
    let (cell_x, cell_y, height): (i64, i64, u32) = if !hitting_aabb.contains(point).all() {
        match hitting_aabb.exterior_will_intersect(point, itvel) {
            Some(cell) => (cell.x as i64, cell.y as i64, hitting_location.pointer.height),
            None => {
                return None;
            },
        }
    } else {
        match select_cell_and_height(position_data, CheckZorders::from_velocity(itvel)) {
            Some((cell, height)) => (cell.x as i64, cell.y as i64, height),
            None => {
                return None;
            },
        }
    };
    let quadrant_x: i64 = if itvel.x >= 0 {
        1
    } else {
        0
    };
    let quadrant_y: i64 = if itvel.y >= 0 {
        1
    } else {
        0
    };
    let cell_length = Bounds::cell_length(height, hitting_location.min_cell_length);
    Some(
        top_left.plus(
            Vector {
                x: scaled(cell_length.x, cell_x + quadrant_x, 1),
                y: scaled(cell_length.y, cell_y + quadrant_y, 1),
            },
        ),
    )
}

/// How a corner stands to the tree it is swept against.
#[derive(Clone, Copy, Debug, PartialEq, Eq, Structural)]
pub enum Intersection {
    /// The corner touches a solid cell where it is: a contact after no time.
    Touching,
    /// The corner is free; the next lines it may cross meet at
    /// `boundary_corner`. `within_bounds` tells on which axes it lies inside
    /// the box of the tree.
    Crossing { boundary_corner: Vector, within_bounds: Axes },
    /// The corner is free and nothing lies ahead of it.
    Clear,
}

/// See [`next_intersection`].
pub open spec fn spec_next_intersection(
    graph: &SparseDirectedGraph,
    blocks: &BlockPalette,
    hitting_location: Location,
    corner_type: CornerType,
    point: Vector,
    itvel: Vector,
) -> Intersection {
    let position_data = surroundings(graph, hitting_location, point);
    if spec_hitting_wall(blocks, position_data, itvel, corner_type) is Some {
        Intersection::Touching
    } else {
        match spec_boundary_corner(hitting_location, position_data, itvel, point) {
            Some(corner) => Intersection::Crossing {
                boundary_corner: corner,
                within_bounds: hitting_location.spec_to_aabb().spec_contains(point),
            },
            None => Intersection::Clear,
        }
    }
}

/// The cells of the tree at `location` around `point`, one per quadrant.
pub open spec fn surroundings(graph: &SparseDirectedGraph, location: Location, point: Vector) -> [Option<
    CellData,
>; 4] {
    [
        Gate::spec_point_to_real_cell(graph, location, point, 0),
        Gate::spec_point_to_real_cell(graph, location, point, 1),
        Gate::spec_point_to_real_cell(graph, location, point, 2),
        Gate::spec_point_to_real_cell(graph, location, point, 3),
    ]
}

/// The first half of finding when a corner next meets the tree at
/// `hitting_location`: where the corner, now at `point` and moving at `itvel`,
/// stands to the tree. The crossing times of the two lines through
/// `boundary_corner` are for the caller to find; [`ticks_to_hit`] then
/// chooses between them.
pub fn next_intersection(
    graph: &SparseDirectedGraph,
    blocks: &BlockPalette,
    hitting_location: Location,
    corner_type: CornerType,
    point: Vector,
    itvel: Vector,
) -> (r: Intersection)
    requires
        graph.wf(),
        graph.contains(hitting_location.pointer.pointer.index),
        hitting_location.wf(),
        !itvel.spec_is_zero(),
    ensures
        r == spec_next_intersection(graph, blocks, hitting_location, corner_type, point, itvel),
{
    let within_bounds = hitting_location.to_aabb().contains(point);
    let position_data = Gate::point_to_real_cells(graph, hitting_location, point);
    proof {
        assert(position_data =~= surroundings(graph, hitting_location, point));
    }
    if hitting_wall(blocks, &position_data, itvel, corner_type).is_some() {
        return Intersection::Touching;
    }
    match boundary_corner(hitting_location, &position_data, itvel, point) {
        Some(corner) => Intersection::Crossing { boundary_corner: corner, within_bounds },
        None => Intersection::Clear,
    }
}

/// The later of two times, either of which may never come.
pub open spec fn latest(a: Option<u64>, b: Option<u64>) -> Option<u64> {
    match (a, b) {
        (Some(x), Some(y)) => Some(if x >= y { x } else { y }),
        _ => None,
    }
}

/// The earlier of two times, either of which may never come.
pub open spec fn earliest(a: Option<u64>, b: Option<u64>) -> Option<u64> {
    match (a, b) {
        (Some(x), Some(y)) => Some(if x <= y { x } else { y }),
        (Some(x), None) => Some(x),
        (None, y) => y,
    }
}

/// The time left for the crossing of the second line, once the first is
/// known to be crossed at `first`: no later than the first crossing.
pub open spec fn spec_second_budget(tick_max: u64, first: Option<u64>) -> u64 {
    match first {
        Some(ticks) if ticks < tick_max => ticks,
        _ => tick_max,
    }
}

/// See [`spec_second_budget`].
pub fn second_budget(tick_max: u64, first: Option<u64>) -> (r: u64)
    ensures
        r == spec_second_budget(tick_max, first),
{
    match first {
        Some(ticks) => if ticks < tick_max {
            ticks
        } else {
            tick_max
        },
        None => tick_max,
    }
}

/// The time at which the corner crosses into the next cell, given when it
/// crosses the vertical line, `ticks_x`, and the horizontal line, `ticks_y`.
///
/// A corner outside the box on both axes is in once it has crossed both
/// lines. A corner outside on one axis only that starts on the line of the
/// other axis slides along that line: the crossing of the line it is outside
/// of counts. Else the earlier crossing counts.
pub open spec fn chosen_ticks(within_bounds: Axes, ticks_x: Option<u64>, ticks_y: Option<u64>) -> Option<
    u64,
> {
    if !within_bounds.x && !within_bounds.y {
        latest(ticks_x, ticks_y)
    } else if within_bounds.x && !within_bounds.y && ticks_x == Some(0u64) {
        ticks_y
    } else if !within_bounds.x && within_bounds.y && ticks_y == Some(0u64) {
        ticks_x
    } else {
        earliest(ticks_x, ticks_y)
    }
}

/// The chosen crossing time, if it comes within `tick_max`.
pub open spec fn spec_ticks_to_hit(
    within_bounds: Axes,
    ticks_x: Option<u64>,
    ticks_y: Option<u64>,
    tick_max: u64,
) -> Option<u64> {
    match chosen_ticks(within_bounds, ticks_x, ticks_y) {
        Some(ticks) if ticks <= tick_max => Some(ticks),
        _ => None,
    }
}

/// The second half of finding when a corner next meets a tree: see
/// [`chosen_ticks`]. `None` in `ticks_x` or `ticks_y` stands for a line that
/// is never crossed.
pub fn ticks_to_hit(
    within_bounds: Axes,
    ticks_x: Option<u64>,
    ticks_y: Option<u64>,
    tick_max: u64,
) -> (r: Option<u64>)
    ensures
        r == spec_ticks_to_hit(within_bounds, ticks_x, ticks_y, tick_max),
        r matches Some(ticks) ==> ticks <= tick_max,
{
    let later: Option<u64> = match (ticks_x, ticks_y) {
        (Some(x), Some(y)) => Some(if x >= y { x } else { y }),
        _ => None,
    };
    let earlier: Option<u64> = match (ticks_x, ticks_y) {
        (Some(x), Some(y)) => Some(if x <= y { x } else { y }),
        (Some(x), None) => Some(x),
        (None, y) => y,
    };
    let x_at_start: bool = match ticks_x {
        Some(x) => x == 0,
        None => false,
    };
    let y_at_start: bool = match ticks_y {
        Some(y) => y == 0,
        None => false,
    };
    let chosen: Option<u64> = if !within_bounds.x && !within_bounds.y {
        later
    } else if within_bounds.x && !within_bounds.y && x_at_start {
        ticks_y
    } else if !within_bounds.x && within_bounds.y && y_at_start {
        ticks_x
    } else {
        earlier
    };
    match chosen {
        Some(ticks) => if ticks <= tick_max {
            Some(ticks)
        } else {
            None
        },
        None => None,
    }
}

/// Whether a point at `position` that moves at `velocity` comes nearer to `line`.
pub open spec fn heads_for(position: int, velocity: int, line: int) -> bool {
    (position < line && velocity > 0) || (position > line && velocity < 0)
}

/// Whether a point that starts `gap` from a line and moves toward it at
/// `speed` per tick is level with the line or past it after `ticks` quanta.
pub open spec fn covers(gap: int, speed: int, ticks: int) -> bool {
    speed * ticks >= gap * TICK
}

/// The first quantum at which a point at `position` that moves at `velocity`
/// per tick, without turning, is level with `line` or past it: none for a
/// point that is not on the line and does not come nearer to it.
pub open spec fn spec_ticks_to_line(position: int, velocity: int, line: int) -> Option<int> {
    if position == line {
        Some(0)
    } else if heads_for(position, velocity, line) {
        Some((distance(line - position) * TICK + distance(velocity) - 1) / distance(velocity))
    } else {
        None
    }
}

/// The time of [`spec_ticks_to_line`] is the first time at which the point
/// has covered the way to the line.
pub proof fn lemma_ticks_to_line_is_first(position: int, velocity: int, line: int)
    requires
        heads_for(position, velocity, line),
    ensures
        spec_ticks_to_line(position, velocity, line) matches Some(ticks) && ticks > 0 && covers(
            distance(line - position),
            distance(velocity),
            ticks,
        ) && !covers(distance(line - position), distance(velocity), ticks - 1),
{
    let gap = distance(line - position);
    let speed = distance(velocity);
    let whole = gap * TICK;
    let ticks = (whole + speed - 1) / speed;
    assert(speed * ticks >= whole && speed * (ticks - 1) < whole && ticks > 0) by (nonlinear_arith)
        requires
            speed > 0,
            whole > 0,
            ticks == (whole + speed - 1) / speed,
    ;
}

/// Where the way to the line is covered in a whole number of quanta, that
/// number is the time: half a unit ahead at a unit per tick is half a tick.
pub proof fn lemma_ticks_to_line_exact(position: int, velocity: int, line: int, ticks: int)
    requires
        heads_for(position, velocity, line),
        distance(velocity) * ticks == distance(line - position) * TICK,
    ensures
        spec_ticks_to_line(position, velocity, line) == Some(ticks),
{
    let gap = distance(line - position);
    let speed = distance(velocity);
    assert(gap * TICK + speed - 1 == ticks * speed + (speed - 1)) by (nonlinear_arith)
        requires
            speed * ticks == gap * TICK,
    ;
    vstd::arithmetic::div_mod::lemma_fundamental_div_mod_converse(
        gap * TICK + speed - 1,
        speed,
        ticks,
        speed - 1,
    );
}

/// The crossing time of a line for a point that moves without turning, if it
/// comes within `tick_max`: see [`spec_ticks_to_line`].
pub fn ticks_to_line(position: i64, velocity: i64, line: i64, tick_max: u64) -> (r: Option<u64>)
    ensures
        r == match spec_ticks_to_line(position as int, velocity as int, line as int) {
            Some(ticks) if ticks <= tick_max => Some(ticks as u64),
            _ => None,
        },
{
    if position == line {
        return Some(0);
    }
    if !((position < line && velocity > 0) || (position > line && velocity < 0)) {
        return None;
    }
    let gap: i128 = if line > position {
        line as i128 - position as i128
    } else {
        position as i128 - line as i128
    };
    let speed: i128 = if velocity < 0 {
        -(velocity as i128)
    } else {
        velocity as i128
    };
    let ticks: i128 = (gap * (TICK as i128) + speed - 1) / speed;
    proof {
        assert(0 <= ticks) by (nonlinear_arith)
            requires
                ticks == (gap * 0x10000 + speed - 1) / (speed as int),
                speed > 0,
                gap > 0,
        ;
    }
    if ticks <= tick_max as i128 {
        Some(ticks as u64)
    } else {
        None
    }
}

} // verus!
