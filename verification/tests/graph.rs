use grid_ccd::blocks::{BlockPalette, OnTouch, BLACK, BLUE, BROWN, GRAY, GREEN};
use grid_ccd::graph::{CellData, ExternalPointer, Index, NodePointer, SparseDirectedGraph};
use grid_ccd::math::{Axes, Vector};
use grid_ccd::partition::{Gate, Location};
use grid_ccd::zorder::Cell;

fn leaf(index: usize) -> Index {
    Index(index)
}

/// A tree of height 2. Its quadrants: air; a branch of grass, air, air and
/// dirt; metal; water.
fn tree() -> (SparseDirectedGraph, ExternalPointer) {
    let mut graph = SparseDirectedGraph::new(5);
    let branch = graph.add_node([leaf(1), leaf(0), leaf(0), leaf(2)]).unwrap();
    let root = graph.add_node([leaf(0), branch.index, leaf(4), leaf(3)]).unwrap();
    (graph, ExternalPointer::new(root, 2))
}

fn found(index: usize, height: u32, x: u32, y: u32) -> CellData {
    CellData::new(ExternalPointer::new(NodePointer::new(Index(index)), height), Cell { x, y })
}

#[test]
fn new_graph_holds_only_leaves() {
    let graph = SparseDirectedGraph::new(5);
    assert_eq!(graph.node_count(), 5);
    for index in 0..5 {
        assert!(graph.is_leaf(Index(index)));
        for direction in 0..4 {
            assert_eq!(graph.get_child(NodePointer::new(Index(index)), direction), NodePointer::new(Index(index)));
        }
    }
    assert!(!graph.is_leaf(Index(5)));
}

#[test]
fn add_node_appends_a_branch() {
    let mut graph = SparseDirectedGraph::new(2);
    let branch = graph.add_node([leaf(1), leaf(0), leaf(0), leaf(1)]).unwrap();
    assert_eq!(branch, NodePointer::new(Index(2)));
    assert_eq!(graph.node_count(), 3);
    assert!(!graph.is_leaf(branch.index));
    assert_eq!(graph.get_child(branch, 0), NodePointer::new(Index(1)));
    assert_eq!(graph.get_child(branch, 1), NodePointer::new(Index(0)));
    assert_eq!(graph.get_child(branch, 3), NodePointer::new(Index(1)));
}

#[test]
fn add_node_refuses_unknown_children() {
    let mut graph = SparseDirectedGraph::new(2);
    assert_eq!(graph.add_node([leaf(0), leaf(0), leaf(2), leaf(0)]), None);
    assert_eq!(graph.add_node([leaf(0), leaf(0), leaf(0), leaf(usize::MAX)]), None);
    assert_eq!(graph.node_count(), 2);
}

#[test]
fn read_follows_steps_to_a_leaf() {
    let (graph, root) = tree();
    assert_eq!(graph.read(root, &vec![]), root);
    assert_eq!(graph.read(root, &vec![0]), ExternalPointer::new(NodePointer::new(Index(0)), 1));
    assert_eq!(graph.read(root, &vec![0, 3]), ExternalPointer::new(NodePointer::new(Index(0)), 1));
    assert_eq!(graph.read(root, &vec![1]), ExternalPointer::new(NodePointer::new(Index(5)), 1));
    assert_eq!(graph.read(root, &vec![1, 0]), ExternalPointer::new(NodePointer::new(Index(1)), 0));
    assert_eq!(graph.read(root, &vec![1, 3]), ExternalPointer::new(NodePointer::new(Index(2)), 0));
    assert_eq!(graph.read(root, &vec![2, 1]), ExternalPointer::new(NodePointer::new(Index(4)), 1));
}

#[test]
fn dfs_leaves_lists_the_last_quadrant_first() {
    let (graph, root) = tree();
    assert_eq!(
        graph.dfs_leaves(root),
        vec![
            found(3, 1, 1, 1),
            found(4, 1, 0, 1),
            found(2, 0, 3, 1),
            found(0, 0, 2, 1),
            found(0, 0, 3, 0),
            found(1, 0, 2, 0),
            found(0, 1, 0, 0),
        ]
    );
    let alone = ExternalPointer::new(NodePointer::new(Index(3)), 4);
    assert_eq!(graph.dfs_leaves(alone), vec![found(3, 4, 0, 0)]);
}

#[test]
fn find_real_cell_stops_at_the_leaf() {
    let (graph, root) = tree();
    assert_eq!(Gate::find_real_cell(&graph, root, Cell { x: 0, y: 0 }), found(0, 1, 0, 0));
    assert_eq!(Gate::find_real_cell(&graph, root, Cell { x: 1, y: 1 }), found(0, 1, 0, 0));
    assert_eq!(Gate::find_real_cell(&graph, root, Cell { x: 2, y: 0 }), found(1, 0, 2, 0));
    assert_eq!(Gate::find_real_cell(&graph, root, Cell { x: 3, y: 1 }), found(2, 0, 3, 1));
    assert_eq!(Gate::find_real_cell(&graph, root, Cell { x: 1, y: 3 }), found(4, 1, 0, 1));
    assert_eq!(Gate::find_real_cell(&graph, root, Cell { x: 2, y: 2 }), found(3, 1, 1, 1));
}

#[test]
fn real_cells_around_a_point() {
    let (graph, root) = tree();
    // Cells of 10 by 10; the tree reaches from (0, 0) to (40, 40).
    let location = Location::new(Vector::new(20, 20), root, Vector::splat(10));
    let around = |x: i64, y: i64| Gate::point_to_real_cells(&graph, location, Vector::new(x, y));
    assert_eq!(
        around(20, 20),
        [Some(found(0, 1, 0, 0)), Some(found(0, 0, 2, 1)), Some(found(4, 1, 0, 1)), Some(found(3, 1, 1, 1))]
    );
    assert_eq!(around(30, 0), [None, None, Some(found(1, 0, 2, 0)), Some(found(0, 0, 3, 0))]);
    assert_eq!(around(40, 40), [Some(found(3, 1, 1, 1)), None, None, None]);
    assert_eq!(around(50, 50), [None, None, None, None]);
}

#[test]
fn stock_materials() {
    let palette = BlockPalette::new();
    let expected = [
        ("Air", OnTouch::Ignore, BLACK),
        ("Grass", OnTouch::Resist(Axes::both()), GREEN),
        ("Dirt", OnTouch::Resist(Axes::both()), BROWN),
        ("Water", OnTouch::Ignore, BLUE),
        ("Metal", OnTouch::Resist(Axes::both()), GRAY),
    ];
    assert_eq!(palette.blocks.len(), expected.len());
    for (at, (name, collision, color)) in expected.into_iter().enumerate() {
        assert_eq!(palette.blocks[at].name, name);
        assert_eq!(palette.blocks[at].index, Index(at));
        assert_eq!(palette.blocks[at].collision, collision);
        assert_eq!(palette.blocks[at].color, color);
    }
}

#[test]
fn solid_materials() {
    let mut palette = BlockPalette::new();
    let solid: Vec<bool> = (0..7).map(|index| palette.is_solid_index(Index(index))).collect();
    assert_eq!(solid, vec![false, true, true, false, true, false, false]);
    assert!(!palette.is_solid_index(Index(usize::MAX)));
    assert!(!palette.is_solid_cell(None));
    assert!(palette.is_solid_cell(Some(found(4, 0, 0, 0))));
    assert!(!palette.is_solid_cell(Some(found(3, 0, 0, 0))));
    palette.blocks[3].collision = OnTouch::Resist(Axes::new(true, false));
    assert!(palette.is_solid_index(Index(3)));
}

#[test]
fn rank_is_the_longest_walk_down() {
    let (graph, root) = tree();
    for index in 0..5 {
        assert_eq!(graph.rank_of(Index(index)), 0);
    }
    assert_eq!(graph.rank_of(Index(5)), 1);
    assert_eq!(graph.rank_of(root.pointer.index), 2);
    assert!(graph.check_holds(root));
    assert!(graph.check_holds(ExternalPointer::new(root.pointer, 16)));
    assert!(!graph.check_holds(ExternalPointer::new(root.pointer, 1)));
    assert!(!graph.check_holds(ExternalPointer::new(root.pointer, 17)));
    assert!(!graph.check_holds(ExternalPointer::new(NodePointer::new(Index(7)), 2)));
    assert!(graph.check_holds(ExternalPointer::new(NodePointer::new(Index(3)), 0)));
}

#[test]
fn every_cell_leads_to_a_leaf() {
    let (graph, root) = tree();
    for x in 0..4 {
        for y in 0..4 {
            let cell = Gate::find_real_cell(&graph, root, Cell { x, y });
            assert!(graph.is_leaf(cell.pointer.pointer.index));
            let scale = 1 << cell.pointer.height;
            assert_eq!(cell.cell, Cell { x: x / scale, y: y / scale });
        }
    }
    for leaf in graph.dfs_leaves(root) {
        assert!(graph.is_leaf(leaf.pointer.pointer.index));
    }
}

#[test]
fn graphs_are_in_good_order() {
    let (graph, _) = tree();
    assert!(graph.is_wf());
    assert!(SparseDirectedGraph::new(0).is_wf());
    let mut grown = SparseDirectedGraph::new(1);
    assert!(grown.add_node([Index(0); 4]).is_some());
    assert!(grown.add_node([Index(1), Index(0), Index(1), Index(0)]).is_some());
    assert!(grown.is_wf());
}
