use grid_ccd::blocks::BlockPalette;
use grid_ccd::collision_utils::{hittable_walls, mag_slide_check, Configurations, LimPositionData, Zorder};
use grid_ccd::corners::{cell_corner_mask, cell_corners, tree_corners, CheckZorders, CornerType, Corners};
use grid_ccd::graph::{CellData, ExternalPointer, Index, NodePointer, SparseDirectedGraph};
use grid_ccd::math::{Axes, Vector, EIGHTH_TURN, FULL_TURN};
use grid_ccd::zorder::{Cell, ZorderPath};

const E: u32 = EIGHTH_TURN;

fn quadrants(checks: CheckZorders) -> Vec<usize> {
    match checks {
        CheckZorders::One(index) => vec![index],
        CheckZorders::Two(pair) => pair.to_vec(),
    }
}

fn all_corner_types() -> Vec<CornerType> {
    vec![
        CornerType::TopLeft,
        CornerType::Top(6 * E),
        CornerType::TopRight,
        CornerType::Right(0),
        CornerType::BottomRight,
        CornerType::Bottom(2 * E),
        CornerType::BottomLeft,
        CornerType::Left(4 * E),
    ]
}

#[test]
fn corners_by_index() {
    assert_eq!(CornerType::from_index(0), CornerType::TopLeft);
    assert_eq!(CornerType::from_index(1), CornerType::TopRight);
    assert_eq!(CornerType::from_index(2), CornerType::BottomLeft);
    assert_eq!(CornerType::from_index(3), CornerType::BottomRight);
}

#[test]
fn diagonals_are_the_odd_eighths() {
    assert_eq!(CornerType::from_rotation(E as i64), CornerType::BottomRight);
    assert_eq!(CornerType::from_rotation(3 * E as i64), CornerType::BottomLeft);
    assert_eq!(CornerType::from_rotation(5 * E as i64), CornerType::TopLeft);
    assert_eq!(CornerType::from_rotation(7 * E as i64), CornerType::TopRight);
    assert_eq!(CornerType::BottomRight.rotation(), E);
    assert_eq!(CornerType::BottomLeft.rotation(), 3 * E);
    assert_eq!(CornerType::TopLeft.rotation(), 5 * E);
    assert_eq!(CornerType::TopRight.rotation(), 7 * E);
    assert_eq!(CornerType::from_rotation(E as i64 + FULL_TURN as i64), CornerType::BottomRight);
    assert_eq!(CornerType::from_rotation(E as i64 - 3 * FULL_TURN as i64), CornerType::BottomRight);
}

#[test]
fn edges_fill_the_quarters() {
    assert_eq!(CornerType::from_rotation(0), CornerType::Right(0));
    assert_eq!(CornerType::from_rotation(E as i64 - 1), CornerType::Right(E - 1));
    assert_eq!(CornerType::from_rotation(E as i64 + 1), CornerType::Bottom(E + 1));
    assert_eq!(CornerType::from_rotation(3 * E as i64 - 1), CornerType::Bottom(3 * E - 1));
    assert_eq!(CornerType::from_rotation(3 * E as i64 + 1), CornerType::Left(3 * E + 1));
    assert_eq!(CornerType::from_rotation(5 * E as i64 - 1), CornerType::Left(5 * E - 1));
    assert_eq!(CornerType::from_rotation(5 * E as i64 + 1), CornerType::Top(5 * E + 1));
    assert_eq!(CornerType::from_rotation(7 * E as i64 - 1), CornerType::Top(7 * E - 1));
    assert_eq!(CornerType::from_rotation(7 * E as i64 + 1), CornerType::Right(7 * E + 1));
    assert_eq!(CornerType::from_rotation(-1), CornerType::Right(FULL_TURN - 1));
    assert_eq!(CornerType::Top(6 * E).rotation(), 6 * E);
}

#[test]
fn rotate_adds_angles() {
    assert_eq!(CornerType::TopLeft.rotate(2 * E as i64), CornerType::TopRight);
    assert_eq!(CornerType::TopRight.rotate(2 * E as i64), CornerType::BottomRight);
    assert_eq!(CornerType::BottomRight.rotate(2 * E as i64), CornerType::BottomLeft);
    assert_eq!(CornerType::BottomLeft.rotate(2 * E as i64), CornerType::TopLeft);
    assert_eq!(CornerType::TopLeft.rotate(-2 * (E as i64)), CornerType::BottomLeft);
    assert_eq!(CornerType::TopLeft.rotate(1), CornerType::Top(5 * E + 1));
    assert_eq!(CornerType::TopLeft.rotate(-1), CornerType::Left(5 * E - 1));
    assert_eq!(CornerType::Right(7).rotate(-8), CornerType::Right(FULL_TURN - 1));
    assert_eq!(CornerType::Right(7).rotate(i64::MAX), CornerType::Right(6));
    assert_eq!(CornerType::Right(7).rotate(i64::MIN), CornerType::Right(7));
}

#[test]
fn rotate_is_a_group_action() {
    let angles: [i64; 9] = [0, 1, -1, 8191, 8192, -8193, 40000, 65536, -123456789];
    for corner in all_corner_types() {
        assert_eq!(corner.rotate(0), corner);
        assert_eq!(corner.rotate(FULL_TURN as i64), corner);
        for a in angles {
            for b in angles {
                assert_eq!(corner.rotate(a).rotate(b), corner.rotate(a + b));
            }
            assert_eq!(corner.rotate(a).rotate(-a), corner);
            assert_eq!(corner.rotate(a), CornerType::from_rotation(corner.rotation() as i64 + a));
        }
    }
}

#[test]
fn turning_the_body_turns_the_corner() {
    for rotation in [0i64, 100, 8192, 30000, 65535] {
        for turn in [0i64, 1, 8192, -8192, 70000] {
            assert_eq!(
                CornerType::from_rotation(rotation + turn),
                CornerType::from_rotation(rotation).rotate(turn)
            );
        }
    }
}

#[test]
fn hittable_walls_of_corners() {
    let v = Vector::new(-3, 5);
    assert_eq!(CornerType::TopLeft.hittable_walls(v), Axes::new(true, false));
    assert_eq!(CornerType::TopRight.hittable_walls(v), Axes::new(false, false));
    assert_eq!(CornerType::BottomLeft.hittable_walls(v), Axes::new(true, true));
    assert_eq!(CornerType::BottomRight.hittable_walls(v), Axes::new(false, true));
    assert_eq!(CornerType::Top(6 * E).hittable_walls(v), Axes::new(true, false));
    assert_eq!(CornerType::Bottom(2 * E).hittable_walls(v), Axes::new(true, true));
    assert_eq!(CornerType::Left(4 * E).hittable_walls(v), Axes::new(true, true));
    assert_eq!(CornerType::Right(0).hittable_walls(v), Axes::new(false, true));
    let down = Vector::new(0, 5);
    assert_eq!(CornerType::Bottom(2 * E).hittable_walls(down), Axes::new(false, true));
    assert_eq!(CornerType::Left(4 * E).hittable_walls(down), Axes::new(false, true));
    assert_eq!(CornerType::BottomLeft.hittable_walls(Vector::zero()), Axes::neither());
}

#[test]
fn checks_along_one_axis() {
    let up = Vector::new(0, -1);
    let down = Vector::new(0, 1);
    let left = Vector::new(-1, 0);
    let right = Vector::new(1, 0);
    assert_eq!(quadrants(CornerType::Top(6 * E).checks(up)), vec![0, 1]);
    assert_eq!(quadrants(CornerType::Bottom(2 * E).checks(down)), vec![2, 3]);
    assert_eq!(quadrants(CornerType::TopLeft.checks(up)), vec![1]);
    assert_eq!(quadrants(CornerType::Left(4 * E).checks(down)), vec![3]);
    assert_eq!(quadrants(CornerType::TopRight.checks(up)), vec![0]);
    assert_eq!(quadrants(CornerType::BottomRight.checks(down)), vec![2]);
    assert_eq!(quadrants(CornerType::Left(4 * E).checks(left)), vec![2, 0]);
    assert_eq!(quadrants(CornerType::Right(0).checks(right)), vec![3, 1]);
    assert_eq!(quadrants(CornerType::TopLeft.checks(left)), vec![2]);
    assert_eq!(quadrants(CornerType::Top(6 * E).checks(right)), vec![3]);
    assert_eq!(quadrants(CornerType::BottomLeft.checks(left)), vec![0]);
    assert_eq!(quadrants(CornerType::Bottom(2 * E).checks(right)), vec![1]);
}

#[test]
fn checks_along_both_axes() {
    for corner in all_corner_types() {
        assert_eq!(quadrants(corner.checks(Vector::new(-2, -9))), vec![0]);
        assert_eq!(quadrants(corner.checks(Vector::new(2, -9))), vec![1]);
        assert_eq!(quadrants(corner.checks(Vector::new(-2, 9))), vec![2]);
        assert_eq!(quadrants(corner.checks(Vector::new(2, 9))), vec![3]);
    }
}

#[test]
fn quadrants_ahead_of_a_velocity() {
    assert_eq!(quadrants(CheckZorders::from_velocity(Vector::new(0, -4))), vec![0, 1]);
    assert_eq!(quadrants(CheckZorders::from_velocity(Vector::new(0, 4))), vec![2, 3]);
    assert_eq!(quadrants(CheckZorders::from_velocity(Vector::new(-4, 0))), vec![0, 2]);
    assert_eq!(quadrants(CheckZorders::from_velocity(Vector::new(4, 0))), vec![1, 3]);
    assert_eq!(quadrants(CheckZorders::from_velocity(Vector::new(-4, -1))), vec![0]);
    assert_eq!(quadrants(CheckZorders::from_velocity(Vector::new(4, -1))), vec![1]);
    assert_eq!(quadrants(CheckZorders::from_velocity(Vector::new(-4, 1))), vec![2]);
    assert_eq!(quadrants(CheckZorders::from_velocity(Vector::new(4, 1))), vec![3]);
}

/// A tree of height 2. Its quadrants: air; a branch of grass, air, air and
/// dirt; metal; water.
fn tree() -> (SparseDirectedGraph, ExternalPointer) {
    let mut graph = SparseDirectedGraph::new(5);
    let branch = graph.add_node([Index(1), Index(0), Index(0), Index(2)]).unwrap();
    let root = graph.add_node([Index(0), branch.index, Index(4), Index(3)]).unwrap();
    (graph, ExternalPointer::new(root, 2))
}

#[test]
fn exposure_masks() {
    let (graph, root) = tree();
    let blocks = BlockPalette::new();
    let mask = |x: u32, y: u32, depth: u32| cell_corner_mask(&graph, &blocks, root, ZorderPath::from_cell(Cell { x, y }, depth));
    // Grass: dirt lies diagonally across its bottom right corner.
    assert_eq!(mask(2, 0, 2), 0b0111);
    // Dirt: grass lies diagonally across its top left corner.
    assert_eq!(mask(3, 1, 2), 0b1110);
    // Metal has no solid neighbor.
    assert_eq!(mask(0, 1, 1), 0b1111);
    // Air between grass and dirt: only the corner at the edge of the tree is free.
    assert_eq!(mask(3, 0, 2), 0b0010);
    assert_eq!(mask(2, 1, 2), 0b0000);
    // The whole tree has no neighbors.
    assert_eq!(mask(0, 0, 0), 0b1111);
}

#[test]
fn exposure_beside_a_larger_cell() {
    let mut graph = SparseDirectedGraph::new(5);
    let branch = graph.add_node([Index(0), Index(1), Index(0), Index(0)]).unwrap();
    let root = graph.add_node([branch.index, Index(4), Index(0), Index(0)]).unwrap();
    let root = ExternalPointer::new(root, 2);
    let blocks = BlockPalette::new();
    // Grass at (1, 0) touches the metal quadrant with its right side.
    assert_eq!(cell_corner_mask(&graph, &blocks, root, ZorderPath::from_cell(Cell { x: 1, y: 0 }, 2)), 0b0101);
    // Metal: grass covers its top left corner; air is beside the bottom left one.
    assert_eq!(cell_corner_mask(&graph, &blocks, root, ZorderPath::from_cell(Cell { x: 1, y: 0 }, 1)), 0b1110);
}

#[test]
fn corner_points() {
    let cell = CellData::new(ExternalPointer::new(NodePointer::new(Index(4)), 1), Cell { x: 0, y: 1 });
    assert_eq!(
        cell_corners(cell, Vector::new(10, 20)),
        [Vector::new(0, 40), Vector::new(20, 40), Vector::new(0, 80), Vector::new(20, 80)]
    );
}

#[test]
fn corners_of_a_tree() {
    let (graph, root) = tree();
    let blocks = BlockPalette::new();
    let corners = tree_corners(&graph, &blocks, root, Vector::splat(10));
    let summary: Vec<(usize, u8, Vector)> =
        corners.iter().map(|group| (group.index.0, group.mask, group.points[0])).collect();
    assert_eq!(
        summary,
        vec![
            (3, 0, Vector::new(20, 20)),
            (4, 0b1111, Vector::new(0, 20)),
            (2, 0b1110, Vector::new(30, 10)),
            (0, 0, Vector::new(20, 10)),
            (0, 0, Vector::new(30, 0)),
            (1, 0b0111, Vector::new(20, 0)),
            (0, 0, Vector::new(0, 0)),
        ]
    );
    assert_eq!(
        corners[1].points,
        [Vector::new(0, 20), Vector::new(20, 20), Vector::new(0, 40), Vector::new(20, 40)]
    );
}

#[test]
fn exposed_reads_the_mask() {
    let corners = Corners::new([Vector::zero(); 4], Index(1), 0b0110);
    assert!(!corners.exposed(0));
    assert!(corners.exposed(1));
    assert!(corners.exposed(2));
    assert!(!corners.exposed(3));
}

#[test]
fn configurations() {
    assert_eq!(Configurations::from_index(0), Configurations::TopLeft);
    assert_eq!(Configurations::from_index(1), Configurations::TopRight);
    assert_eq!(Configurations::from_index(2), Configurations::BottomLeft);
    assert_eq!(Configurations::from_index(3), Configurations::BottomRight);
    let data = LimPositionData::new(NodePointer::new(Index(3)), Cell { x: 1, y: 2 }, 4);
    assert_eq!(data.node_pointer, NodePointer::new(Index(3)));
    assert_eq!(data.cell, Cell { x: 1, y: 2 });
    assert_eq!(data.depth, 4);
}

#[test]
fn walls_of_configurations() {
    let v = Vector::new(-3, 5);
    assert_eq!(hittable_walls(v, Configurations::TopLeft), Axes::new(true, false));
    assert_eq!(hittable_walls(v, Configurations::TopRight), Axes::new(false, false));
    assert_eq!(hittable_walls(v, Configurations::BottomLeft), Axes::new(true, true));
    assert_eq!(hittable_walls(v, Configurations::BottomRight), Axes::new(false, true));
    assert_eq!(mag_slide_check(Vector::new(5, -2)), Axes::new(false, true));
    assert_eq!(mag_slide_check(Vector::new(2, -5)), Axes::new(true, false));
    assert_eq!(mag_slide_check(Vector::new(-5, 5)), Axes::both());
    assert_eq!(mag_slide_check(Vector::new(i64::MIN, i64::MAX)), Axes::new(false, true));
}

#[test]
fn quadrant_of_a_configured_direction() {
    let quadrant = Zorder::from_configured_direction;
    assert_eq!(quadrant(Vector::new(3, 4), Configurations::TopLeft), 3);
    assert_eq!(quadrant(Vector::new(-3, 4), Configurations::TopLeft), 2);
    assert_eq!(quadrant(Vector::new(3, -4), Configurations::BottomRight), 1);
    assert_eq!(quadrant(Vector::new(-3, -4), Configurations::BottomRight), 0);
    assert_eq!(quadrant(Vector::new(0, 4), Configurations::TopLeft), 3);
    assert_eq!(quadrant(Vector::new(0, 4), Configurations::TopRight), 2);
    assert_eq!(quadrant(Vector::new(0, -4), Configurations::BottomLeft), 1);
    assert_eq!(quadrant(Vector::new(0, -4), Configurations::BottomRight), 0);
    assert_eq!(quadrant(Vector::new(3, 0), Configurations::TopLeft), 3);
    assert_eq!(quadrant(Vector::new(3, 0), Configurations::BottomLeft), 1);
    assert_eq!(quadrant(Vector::new(-3, 0), Configurations::TopRight), 2);
    assert_eq!(quadrant(Vector::new(-3, 0), Configurations::BottomRight), 0);
}
