use grid_ccd::blocks::BlockPalette;
use grid_ccd::corners::{CheckZorders, CornerType};
use grid_ccd::graph::{CellData, ExternalPointer, Index, NodePointer, SparseDirectedGraph};
use grid_ccd::intersection::{
    boundary_corner, hitting_wall, next_intersection, second_budget, select_cell_and_height, ticks_to_hit,
    ticks_to_line, Intersection,
};
use grid_ccd::math::{Axes, Vector, EIGHTH_TURN, TICK};
use grid_ccd::partition::Location;
use grid_ccd::zorder::Cell;

const AIR: usize = 0;
const GRASS: usize = 1;

fn cell(material: usize) -> Option<CellData> {
    Some(CellData::new(ExternalPointer::new(NodePointer::new(Index(material)), 0), Cell { x: 0, y: 0 }))
}

fn at(material: usize, height: u32, x: u32, y: u32) -> Option<CellData> {
    Some(CellData::new(ExternalPointer::new(NodePointer::new(Index(material)), height), Cell { x, y }))
}

fn walls(around: [usize; 4], velocity: Vector, corner: CornerType) -> Option<Axes> {
    let blocks = BlockPalette::new();
    hitting_wall(&blocks, &around.map(cell), velocity, corner)
}

#[test]
fn slide_along_the_solid_neighbor() {
    let v = Vector::new(1, 1);
    // Ahead and across the vertical line: stopped along x, free along y.
    assert_eq!(walls([AIR, GRASS, AIR, GRASS], v, CornerType::BottomRight), Some(Axes::new(true, false)));
    // Ahead and across the horizontal line: stopped along y, free along x.
    assert_eq!(walls([AIR, AIR, GRASS, GRASS], v, CornerType::BottomRight), Some(Axes::new(false, true)));
}

#[test]
fn full_stop_at_a_corner() {
    let v = Vector::new(1, 1);
    assert_eq!(walls([AIR, AIR, AIR, GRASS], v, CornerType::BottomRight), Some(Axes::both()));
    assert_eq!(walls([AIR, GRASS, GRASS, GRASS], v, CornerType::BottomRight), Some(Axes::both()));
}

#[test]
fn nothing_ahead_is_no_wall() {
    let v = Vector::new(1, 1);
    assert_eq!(walls([GRASS, GRASS, GRASS, AIR], v, CornerType::BottomRight), None);
    assert_eq!(walls([AIR, AIR, AIR, AIR], v, CornerType::BottomRight), None);
    let blocks = BlockPalette::new();
    assert_eq!(hitting_wall(&blocks, &[None, None, None, None], v, CornerType::BottomRight), None);
}

#[test]
fn a_corner_that_faces_away_meets_no_wall() {
    let v = Vector::new(1, 1);
    assert_eq!(walls([GRASS, GRASS, GRASS, GRASS], v, CornerType::TopLeft), None);
    assert_eq!(walls([AIR, AIR, AIR, GRASS], v, CornerType::TopRight), Some(Axes::new(true, false)));
    assert_eq!(walls([AIR, AIR, AIR, GRASS], v, CornerType::BottomLeft), Some(Axes::new(false, true)));
}

#[test]
fn slides_in_every_direction() {
    let corner = |v: Vector| match (v.x > 0, v.y > 0) {
        (false, false) => CornerType::TopLeft,
        (true, false) => CornerType::TopRight,
        (false, true) => CornerType::BottomLeft,
        (true, true) => CornerType::BottomRight,
    };
    // For each direction: the quadrant ahead, the one across the vertical line, the one across the horizontal line.
    let cases = [
        (Vector::new(-1, -1), 0, 2, 1),
        (Vector::new(-1, 1), 2, 0, 3),
        (Vector::new(1, -1), 1, 3, 0),
        (Vector::new(1, 1), 3, 1, 2),
    ];
    for (v, ahead, beside_x, beside_y) in cases {
        let mut around = [AIR; 4];
        around[ahead] = GRASS;
        assert_eq!(walls(around, v, corner(v)), Some(Axes::both()));
        around[beside_x] = GRASS;
        assert_eq!(walls(around, v, corner(v)), Some(Axes::new(true, false)));
        around[beside_y] = GRASS;
        assert_eq!(walls(around, v, corner(v)), Some(Axes::both()));
        around[beside_x] = AIR;
        assert_eq!(walls(around, v, corner(v)), Some(Axes::new(false, true)));
    }
}

#[test]
fn moving_along_one_axis() {
    let right = Vector::new(1, 0);
    assert_eq!(walls([AIR, AIR, AIR, GRASS], right, CornerType::TopRight), Some(Axes::new(true, false)));
    assert_eq!(walls([AIR, GRASS, AIR, AIR], right, CornerType::TopRight), None);
    assert_eq!(walls([AIR, GRASS, AIR, AIR], right, CornerType::BottomRight), Some(Axes::new(true, false)));
    assert_eq!(walls([AIR, GRASS, AIR, AIR], right, CornerType::Right(0)), Some(Axes::new(true, false)));
    assert_eq!(walls([AIR, AIR, AIR, GRASS], right, CornerType::Right(0)), Some(Axes::new(true, false)));
    assert_eq!(walls([GRASS, AIR, GRASS, AIR], right, CornerType::Right(0)), None);
    // An edge that faces down is stopped along y without moving along y.
    assert_eq!(walls([AIR, AIR, AIR, AIR], right, CornerType::Bottom(2 * EIGHTH_TURN)), None);
    let down = Vector::new(0, 1);
    assert_eq!(walls([AIR, AIR, AIR, AIR], down, CornerType::Right(0)), None);
    assert_eq!(walls([AIR, AIR, GRASS, AIR], down, CornerType::Bottom(2 * EIGHTH_TURN)), Some(Axes::new(false, true)));
}

#[test]
fn the_cell_ahead_sets_the_boundary() {
    let around = [at(GRASS, 0, 4, 4), at(AIR, 1, 3, 2), None, at(GRASS, 2, 1, 1)];
    assert_eq!(select_cell_and_height(&around, CheckZorders::One(1)), Some((Cell { x: 3, y: 2 }, 1)));
    assert_eq!(select_cell_and_height(&around, CheckZorders::One(2)), None);
    assert_eq!(select_cell_and_height(&around, CheckZorders::Two([0, 1])), Some((Cell { x: 4, y: 4 }, 0)));
    assert_eq!(select_cell_and_height(&around, CheckZorders::Two([1, 3])), Some((Cell { x: 3, y: 2 }, 1)));
    assert_eq!(select_cell_and_height(&around, CheckZorders::Two([3, 1])), Some((Cell { x: 3, y: 2 }, 1)));
    assert_eq!(select_cell_and_height(&around, CheckZorders::Two([2, 3])), Some((Cell { x: 1, y: 1 }, 2)));
    assert_eq!(select_cell_and_height(&around, CheckZorders::Two([0, 2])), Some((Cell { x: 4, y: 4 }, 0)));
    assert_eq!(select_cell_and_height(&around, CheckZorders::Two([2, 2])), None);
    let level = [at(GRASS, 1, 0, 0), at(AIR, 1, 1, 0), None, None];
    assert_eq!(select_cell_and_height(&level, CheckZorders::Two([0, 1])), Some((Cell { x: 1, y: 0 }, 1)));
}

fn tree() -> (SparseDirectedGraph, Location) {
    let mut graph = SparseDirectedGraph::new(5);
    let branch = graph.add_node([Index(1), Index(0), Index(0), Index(2)]).unwrap();
    let root = graph.add_node([Index(0), branch.index, Index(4), Index(3)]).unwrap();
    // Cells of 10 by 10; the tree reaches from (0, 0) to (40, 40).
    let location = Location::new(Vector::new(20, 20), ExternalPointer::new(root, 2), Vector::splat(10));
    (graph, location)
}

#[test]
fn boundary_inside_the_tree() {
    let (graph, location) = tree();
    let corner = |x: i64, y: i64, vx: i64, vy: i64| {
        let point = Vector::new(x, y);
        let around = grid_ccd::partition::Gate::point_to_real_cells(&graph, location, point);
        boundary_corner(location, &around, Vector::new(vx, vy), point)
    };
    // In the air quadrant, a cell of 20 by 20.
    assert_eq!(corner(5, 5, 1, 1), Some(Vector::new(20, 20)));
    assert_eq!(corner(5, 5, -1, -1), Some(Vector::new(0, 0)));
    assert_eq!(corner(5, 5, 1, -1), Some(Vector::new(20, 0)));
    // In the air cell at (3, 0), a cell of 10 by 10.
    assert_eq!(corner(35, 5, -1, 1), Some(Vector::new(30, 10)));
    // Moving along x: of the two cells ahead the lower one counts,
    // and the second of two equally high.
    assert_eq!(corner(20, 20, 1, 0), Some(Vector::new(30, 20)));
    assert_eq!(corner(20, 20, -1, 0), Some(Vector::new(0, 40)));
}

#[test]
fn boundary_outside_the_tree() {
    let (graph, location) = tree();
    let corner = |x: i64, y: i64, vx: i64, vy: i64| {
        let point = Vector::new(x, y);
        let around = grid_ccd::partition::Gate::point_to_real_cells(&graph, location, point);
        boundary_corner(location, &around, Vector::new(vx, vy), point)
    };
    assert_eq!(corner(-50, 5, 1, 0), Some(Vector::new(0, 40)));
    assert_eq!(corner(-50, 5, 1, -1), Some(Vector::new(0, 0)));
    assert_eq!(corner(-50, 5, -1, 0), None);
    assert_eq!(corner(90, 5, -1, 1), Some(Vector::new(40, 40)));
    assert_eq!(corner(90, 90, -1, -1), Some(Vector::new(40, 40)));
    assert_eq!(corner(90, 90, -1, 1), None);
    // On the edge counts as outside.
    assert_eq!(corner(0, 5, 1, 1), Some(Vector::new(0, 40)));
}

#[test]
fn where_a_corner_stands() {
    let (graph, location) = tree();
    let blocks = BlockPalette::new();
    let look = |x: i64, y: i64, vx: i64, vy: i64, corner: CornerType| {
        next_intersection(&graph, &blocks, location, corner, Vector::new(x, y), Vector::new(vx, vy))
    };
    // At the top left corner of the grass cell.
    assert_eq!(look(20, 0, 1, 1, CornerType::BottomRight), Intersection::Touching);
    assert_eq!(
        look(20, 0, 1, 1, CornerType::TopLeft),
        Intersection::Crossing { boundary_corner: Vector::new(40, 0), within_bounds: Axes::new(true, false) }
    );
    assert_eq!(
        look(5, 5, 1, 1, CornerType::BottomRight),
        Intersection::Crossing { boundary_corner: Vector::new(20, 20), within_bounds: Axes::both() }
    );
    assert_eq!(look(-5, 5, -1, 1, CornerType::BottomLeft), Intersection::Clear);
    assert_eq!(
        look(-5, 5, 1, 1, CornerType::BottomRight),
        Intersection::Crossing { boundary_corner: Vector::new(0, 40), within_bounds: Axes::new(false, true) }
    );
}

#[test]
fn time_to_a_line() {
    assert_eq!(ticks_to_line(100, 1000, 600, TICK), Some(TICK / 2));
    assert_eq!(ticks_to_line(100, 1000, 600, TICK / 2), Some(TICK / 2));
    assert_eq!(ticks_to_line(100, 1000, 600, TICK / 2 - 1), None);
    assert_eq!(ticks_to_line(600, -1000, 100, TICK), Some(TICK / 2));
    assert_eq!(ticks_to_line(100, -1000, 600, TICK), None);
    assert_eq!(ticks_to_line(100, 0, 600, TICK), None);
    assert_eq!(ticks_to_line(100, 0, 100, TICK), Some(0));
    assert_eq!(ticks_to_line(100, -7, 100, 0), Some(0));
    assert_eq!(ticks_to_line(0, 3, 1, TICK), Some(21846));
    assert_eq!(ticks_to_line(0, 3, 1, 21845), None);
    assert_eq!(ticks_to_line(i64::MIN, i64::MAX, i64::MAX, u64::MAX), Some(2 * TICK + 1));
    assert_eq!(ticks_to_line(i64::MIN, 1, i64::MAX, u64::MAX), None);
}

#[test]
fn the_second_line_has_no_more_time_than_the_first() {
    assert_eq!(second_budget(100, None), 100);
    assert_eq!(second_budget(100, Some(40)), 40);
    assert_eq!(second_budget(100, Some(100)), 100);
    assert_eq!(second_budget(100, Some(0)), 0);
}

#[test]
fn choosing_between_two_crossings() {
    let outside = Axes::new(false, false);
    let inside = Axes::both();
    assert_eq!(ticks_to_hit(outside, Some(10), Some(30), 100), Some(30));
    assert_eq!(ticks_to_hit(outside, Some(10), None, 100), None);
    assert_eq!(ticks_to_hit(outside, None, None, 100), None);
    assert_eq!(ticks_to_hit(inside, Some(10), Some(30), 100), Some(10));
    assert_eq!(ticks_to_hit(inside, None, Some(30), 100), Some(30));
    assert_eq!(ticks_to_hit(inside, Some(10), None, 100), Some(10));
    assert_eq!(ticks_to_hit(inside, None, None, 100), None);
    assert_eq!(ticks_to_hit(inside, Some(101), Some(130), 100), None);
    assert_eq!(ticks_to_hit(inside, Some(100), Some(130), 100), Some(100));
    assert_eq!(ticks_to_hit(inside, Some(0), Some(30), 100), Some(0));
}

#[test]
fn sliding_along_a_line_does_not_cross_it() {
    let beside = Axes::new(true, false);
    assert_eq!(ticks_to_hit(beside, Some(0), Some(30), 100), Some(30));
    assert_eq!(ticks_to_hit(beside, Some(0), None, 100), None);
    assert_eq!(ticks_to_hit(beside, Some(5), Some(30), 100), Some(5));
    assert_eq!(ticks_to_hit(beside, Some(30), Some(0), 100), Some(0));
    let above = Axes::new(false, true);
    assert_eq!(ticks_to_hit(above, Some(30), Some(0), 100), Some(30));
    assert_eq!(ticks_to_hit(above, Some(0), Some(30), 100), Some(0));
    assert_eq!(ticks_to_hit(above, None, Some(0), 100), None);
}
