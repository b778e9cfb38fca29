//! The sparse directed graph that stores every quadtree of the world.
//!
//! The first nodes are the leaves, one per material; a leaf stands for a region
//! filled with that material, whatever its size. Every later node is a branch
//! with four children, one per quadrant, each of them an earlier node. Trees
//! share their subtrees, and a walk down from any node ends in a leaf.

use vstd::prelude::*;
use crate::zorder::{Cell, ZorderPath, MAX_DEPTH};

verus! {

/// The number of a node in the graph; for a leaf, also the number of its material.
#[derive(Clone, Copy, Debug, PartialEq, Eq, Structural)]
pub struct Index(pub usize);

/// A reference to a node.
#[derive(Clone, Copy, Debug, PartialEq, Eq, Structural)]
pub struct NodePointer {
    pub index: Index,
}

/// A reference to a node together with the height of the region it covers:
/// the region is `2^height` smallest cells wide.
#[derive(Clone, Copy, Debug, PartialEq, Eq, Structural)]
pub struct ExternalPointer {
    pub pointer: NodePointer,
    pub height: u32,
}

/// A node found in a tree, and the cell it fills in the grid of its own height.
#[derive(Clone, Copy, Debug, PartialEq, Eq, Structural)]
pub struct CellData {
    pub pointer: ExternalPointer,
    pub cell: Cell,
}

pub struct SparseDirectedGraph {
    nodes: Vec<[usize; 4]>,
    leaf_count: usize,
}

impl NodePointer {
    pub fn new(index: Index) -> (r: Self)
        ensures
            r.index == index,
    {
        NodePointer { index }
    }
}

impl ExternalPointer {
    pub fn new(pointer: NodePointer, height: u32) -> (r: Self)
        ensures
            r.pointer == pointer,
            r.height == height,
    {
        ExternalPointer { pointer, height }
    }
}

impl CellData {
    pub fn new(pointer: ExternalPointer, cell: Cell) -> (r: Self)
        ensures
            r.pointer == pointer,
            r.cell == cell,
    {
        CellData { pointer, cell }
    }

    /// The cell and the height of the grid it is counted in.
    pub fn bound_data(&self) -> (r: (Cell, u32))
        ensures
            r == (self.cell, self.pointer.height),
    {
        (self.cell, self.pointer.height)
    }
}

/// The larger of two numbers.
pub open spec fn larger(a: nat, b: nat) -> nat {
    if a >= b {
        a
    } else {
        b
    }
}

impl SparseDirectedGraph {
    /// The number of nodes.
    pub closed spec fn len(&self) -> nat {
        self.nodes@.len()
    }

    /// The number of leaves.
    pub closed spec fn leaves(&self) -> nat {
        self.leaf_count as nat
    }

    /// The child of node `index` in quadrant `direction`.
    pub closed spec fn child(&self, index: int, direction: int) -> int {
        self.nodes@[index][direction] as int
    }

    /// Whether `index` is a node of this graph.
    pub open spec fn contains(&self, index: Index) -> bool {
        index.0 < self.len()
    }

    pub open spec fn spec_is_leaf(&self, index: Index) -> bool {
        index.0 < self.leaves()
    }

    /// Every leaf is its own child in each quadrant, and the children of a
    /// branch are earlier nodes.
    pub open spec fn wf(&self) -> bool {
        &&& self.leaves() <= self.len()
        &&& forall|i: int, d: int|
            0 <= i < self.leaves() && 0 <= d < 4 ==> #[trigger] self.child(i, d) == i
        &&& forall|i: int, d: int|
            self.leaves() <= i < self.len() && 0 <= d < 4 ==> 0 <= #[trigger] self.child(i, d) < i
    }

    /// The rank of `child` where it is an earlier node than `index`, else zero.
    pub open spec fn rank_below(&self, index: int, child: int) -> nat
        decreases index, 0nat,
    {
        if 0 <= child < index {
            self.rank(child)
        } else {
            0
        }
    }

    /// The length of the longest walk from node `index` down to a leaf.
    pub open spec fn rank(&self, index: int) -> nat
        decreases index, 1nat,
    {
        if self.leaves() <= index < self.len() {
            1 + larger(
                larger(
                    self.rank_below(index, self.child(index, 0)),
                    self.rank_below(index, self.child(index, 1)),
                ),
                larger(
                    self.rank_below(index, self.child(index, 2)),
                    self.rank_below(index, self.child(index, 3)),
                ),
            )
        } else {
            0
        }
    }

    /// Whether `pointer` names a node of this graph and its height is enough
    /// to hold the whole tree below it.
    pub open spec fn holds(&self, pointer: ExternalPointer) -> bool {
        &&& self.contains(pointer.pointer.index)
        &&& self.rank(pointer.pointer.index.0 as int) <= pointer.height <= MAX_DEPTH
    }

    pub open spec fn spec_child(&self, pointer: NodePointer, direction: int) -> NodePointer {
        NodePointer { index: Index(self.child(pointer.index.0 as int, direction) as usize) }
    }

    /// The node reached from `start` by following `steps` until they run out or
    /// a leaf is met.
    pub open spec fn spec_read(&self, start: ExternalPointer, steps: Seq<u32>) -> ExternalPointer
        decreases steps.len(),
    {
        if steps.len() == 0 || self.spec_is_leaf(start.pointer.index) {
            start
        } else {
            self.spec_read(
                ExternalPointer {
                    pointer: self.spec_child(start.pointer, steps[0] as int),
                    height: (start.height - 1) as u32,
                },
                steps.drop_first(),
            )
        }
    }

    /// The leaves of the tree below node `index`, which lies at the end of
    /// `path` and covers a region of height `height`: those of the last
    /// quadrant first, those of the first quadrant last.
    pub open spec fn spec_leaves(&self, index: int, height: int, path: ZorderPath) -> Seq<CellData>
        decreases index, 1nat,
    {
        if self.leaves() <= index < self.len() {
            self.leaves_below(index, 3, height, path) + self.leaves_below(index, 2, height, path)
                + self.leaves_below(index, 1, height, path) + self.leaves_below(
                index,
                0,
                height,
                path,
            )
        } else {
            seq![
                CellData {
                    pointer: ExternalPointer {
                        pointer: NodePointer { index: Index(index as usize) },
                        height: height as u32,
                    },
                    cell: path.spec_to_cell(),
                },
            ]
        }
    }

    /// The leaves of the tree below the child of `index` in quadrant `direction`.
    pub open spec fn leaves_below(
        &self,
        index: int,
        direction: u32,
        height: int,
        path: ZorderPath,
    ) -> Seq<CellData>
        decreases index, 0nat,
    {
        let child = self.child(index, direction as int);
        if 0 <= child < index {
            self.spec_leaves(child, height - 1, path.spec_step_down(direction))
        } else {
            Seq::empty()
        }
    }

    /// A walk of no fewer steps than the rank of its start ends in a leaf.
    pub proof fn lemma_read_reaches_leaf(&self, start: ExternalPointer, steps: Seq<u32>)
        requires
            self.wf(),
            self.contains(start.pointer.index),
            self.rank(start.pointer.index.0 as int) <= steps.len(),
            forall|k: int| 0 <= k < steps.len() ==> steps[k] < 4,
        ensures
            self.spec_is_leaf(self.spec_read(start, steps).pointer.index),
            self.contains(self.spec_read(start, steps).pointer.index),
        decreases steps.len(),
    {
        let i = start.pointer.index.0 as int;
        if !self.spec_is_leaf(start.pointer.index) {
            let d = steps[0] as int;
            let child = self.child(i, d);
            assert(0 <= child < i);
            assert(self.rank_below(i, child) == self.rank(child));
            assert(self.rank(i) >= 1 + self.rank(child));
            let next = ExternalPointer {
                pointer: self.spec_child(start.pointer, d),
                height: (start.height - 1) as u32,
            };
            assert forall|k: int| 0 <= k < steps.drop_first().len() implies steps.drop_first()[k]
                < 4 by {
                assert(steps.drop_first()[k] == steps[k + 1]);
            }
            self.lemma_read_reaches_leaf(next, steps.drop_first());
        }
    }

    /// What `dfs_leaves` lists are leaves of the graph.
    pub proof fn lemma_leaves_are_leaves(&self, index: int, height: int, path: ZorderPath)
        requires
            self.wf(),
            0 <= index < self.len(),
        ensures
            self.spec_leaves(index, height, path).len() > 0,
            forall|k: int|
                0 <= k < self.spec_leaves(index, height, path).len() ==> self.spec_is_leaf(
                    (#[trigger] self.spec_leaves(index, height, path)[k]).pointer.pointer.index,
                ),
        decreases index,
    {
        if self.leaves() <= index < self.len() {
            let a = self.leaves_below(index, 3, height, path);
            let b = self.leaves_below(index, 2, height, path);
            let c = self.leaves_below(index, 1, height, path);
            let d = self.leaves_below(index, 0, height, path);
            assert(0 <= self.child(index, 3) < index);
            assert(0 <= self.child(index, 2) < index);
            assert(0 <= self.child(index, 1) < index);
            assert(0 <= self.child(index, 0) < index);
            self.lemma_leaves_are_leaves(self.child(index, 3), height - 1, path.spec_step_down(3));
            self.lemma_leaves_are_leaves(self.child(index, 2), height - 1, path.spec_step_down(2));
            self.lemma_leaves_are_leaves(self.child(index, 1), height - 1, path.spec_step_down(1));
            self.lemma_leaves_are_leaves(self.child(index, 0), height - 1, path.spec_step_down(0));
            let all = self.spec_leaves(index, height, path);
            assert(all == a + b + c + d);
            assert forall|k: int| 0 <= k < all.len() implies self.spec_is_leaf(
                (#[trigger] all[k]).pointer.pointer.index,
            ) by {
                if k < a.len() {
                    assert(all[k] == a[k]);
                } else if k < a.len() + b.len() {
                    assert(all[k] == b[k - a.len()]);
                } else if k < a.len() + b.len() + c.len() {
                    assert(all[k] == c[k - a.len() - b.len()]);
                } else {
                    assert(all[k] == d[k - a.len() - b.len() - c.len()]);
                }
            }
        }
    }

    /// A graph of `leaf_count` leaves and no branch.
    pub fn new(leaf_count: usize) -> (r: Self)
        ensures
            r.wf(),
            r.len() == leaf_count,
            r.leaves() == leaf_count,
    {
        let mut nodes: Vec<[usize; 4]> = Vec::new();
        let mut i: usize = 0;
        while i < leaf_count
            invariant
                i <= leaf_count,
                nodes@.len() == i,
                forall|k: int, d: int| 0 <= k < i && 0 <= d < 4 ==> #[trigger] nodes@[k][d] == k,
            decreases leaf_count - i,
        {
            nodes.push([i, i, i, i]);
            i = i + 1;
        }
        SparseDirectedGraph { nodes, leaf_count }
    }

    /// Adds a branch with the given children and returns it, or returns `None`
    /// and leaves the graph alone where one of them is no node of the graph.
    pub fn add_node(&mut self, children: [Index; 4]) -> (r: Option<NodePointer>)
        requires
            old(self).wf(),
        ensures
            final(self).wf(),
            final(self).leaves() == old(self).leaves(),
            r is Some <==> forall|d: int| 0 <= d < 4 ==> old(self).contains(#[trigger] children[d]),
            r is None ==> *final(self) == *old(self),
            r matches Some(pointer) ==> {
                &&& pointer.index.0 == old(self).len()
                &&& final(self).len() == old(self).len() + 1
                &&& forall|d: int|
                    0 <= d < 4 ==> #[trigger] final(self).child(pointer.index.0 as int, d)
                        == children[d].0
                &&& forall|i: int, d: int|
                    0 <= i < old(self).len() && 0 <= d < 4 ==> #[trigger] final(self).child(i, d)
                        == old(self).child(i, d)
            },
    {
        let len: usize = self.nodes.len();
        if children[0].0 >= len || children[1].0 >= len || children[2].0 >= len || children[3].0
            >= len {
            return None;
        }
        self.nodes.push([children[0].0, children[1].0, children[2].0, children[3].0]);
        proof {
            assert forall|i: int, d: int| 0 <= i < final(self).leaves() && 0 <= d < 4 implies #[trigger] self.child(
                i,
                d,
            ) == i by {
                assert(self.child(i, d) == old(self).child(i, d));
            }
            assert forall|i: int, d: int|
                self.leaves() <= i < self.len() && 0 <= d < 4 implies 0 <= #[trigger] self.child(
                i,
                d,
            ) < i by {
                if i < len {
                    assert(self.child(i, d) == old(self).child(i, d));
                }
            }
        }
        Some(NodePointer { index: Index(len) })
    }

    /// Whether [`SparseDirectedGraph::wf`] holds. It does of every graph made
    /// by [`SparseDirectedGraph::new`] and [`SparseDirectedGraph::add_node`].
    pub fn is_wf(&self) -> (r: bool)
        ensures
            r == self.wf(),
    {
        if self.leaf_count > self.nodes.len() {
            return false;
        }
        let mut i: usize = 0;
        while i < self.nodes.len()
            invariant
                i <= self.nodes@.len(),
                self.leaf_count <= self.nodes@.len(),
                forall|k: int, d: int|
                    0 <= k < i && k < self.leaves() && 0 <= d < 4 ==> #[trigger] self.child(k, d)
                        == k,
                forall|k: int, d: int|
                    self.leaves() <= k < i && 0 <= d < 4 ==> 0 <= #[trigger] self.child(k, d) < k,
            decreases self.nodes@.len() - i,
        {
            let mut direction: usize = 0;
            while direction < 4
                invariant
                    direction <= 4,
                    i < self.nodes@.len(),
                    forall|d: int|
                        0 <= d < direction ==> if i < self.leaves() {
                            #[trigger] self.child(i as int, d) == i
                        } else {
                            0 <= self.child(i as int, d) < i
                        },
                decreases 4 - direction,
            {
                let child: usize = self.nodes[i][direction];
                let good: bool = if i < self.leaf_count {
                    child == i
                } else {
                    child < i
                };
                if !good {
                    proof {
                        assert(self.child(i as int, direction as int) == child);
                    }
                    return false;
                }
                direction = direction + 1;
            }
            i = i + 1;
        }
        true
    }

    /// The number of nodes.
    pub fn node_count(&self) -> (r: usize)
        ensures
            r == self.len(),
    {
        self.nodes.len()
    }

    /// Whether `index` is a leaf.
    pub fn is_leaf(&self, index: Index) -> (r: bool)
        ensures
            r == self.spec_is_leaf(index),
    {
        index.0 < self.leaf_count
    }

    /// The child of `pointer` in quadrant `direction`.
    pub fn get_child(&self, pointer: NodePointer, direction: u32) -> (r: NodePointer)
        requires
            self.wf(),
            self.contains(pointer.index),
            direction < 4,
        ensures
            r == self.spec_child(pointer, direction as int),
            self.contains(r.index),
            !self.spec_is_leaf(pointer.index) ==> r.index.0 < pointer.index.0,
    {
        proof {
            let i = pointer.index.0 as int;
            if i < self.leaves() {
                assert(self.child(i, direction as int) == i);
            } else {
                assert(self.child(i, direction as int) < i);
            }
        }
        NodePointer { index: Index(self.nodes[pointer.index.0][direction as usize]) }
    }

    /// The length of the longest walk from node `index` down to a leaf.
    pub fn rank_of(&self, index: Index) -> (r: usize)
        requires
            self.wf(),
            self.contains(index),
        ensures
            r == self.rank(index.0 as int),
            r <= index.0,
        decreases index.0,
    {
        if self.is_leaf(index) {
            return 0;
        }
        let pointer = NodePointer { index };
        let mut deepest: usize = 0;
        let mut direction: u32 = 0;
        proof {
            assert(0 <= self.child(index.0 as int, 0) < index.0);
        }
        while direction < 4
            invariant
                direction <= 4,
                self.wf(),
                self.contains(index),
                !self.spec_is_leaf(index),
                pointer.index == index,
                deepest < index.0,
                forall|d: int|
                    0 <= d < direction ==> self.rank_below(
                        index.0 as int,
                        #[trigger] self.child(index.0 as int, d),
                    ) <= deepest,
                direction > 0 ==> exists|d: int|
                    0 <= d < direction && self.rank_below(
                        index.0 as int,
                        #[trigger] self.child(index.0 as int, d),
                    ) == deepest,
                direction == 0 ==> deepest == 0,
            decreases 4 - direction,
        {
            let child = self.get_child(pointer, direction);
            let depth: usize = self.rank_of(child.index);
            proof {
                assert(self.rank_below(index.0 as int, self.child(index.0 as int, direction as int))
                    == depth);
            }
            if depth > deepest || direction == 0 {
                deepest = depth;
            }
            direction = direction + 1;
        }
        deepest + 1
    }

    /// Whether [`SparseDirectedGraph::holds`] is true of `pointer`.
    pub fn check_holds(&self, pointer: ExternalPointer) -> (r: bool)
        requires
            self.wf(),
        ensures
            r == self.holds(pointer),
    {
        pointer.pointer.index.0 < self.nodes.len() && pointer.height <= MAX_DEPTH && self.rank_of(
            pointer.pointer.index,
        ) <= pointer.height as usize
    }

    /// The node reached from `start` by following `steps` until they run out or
    /// a leaf is met. Each step taken lowers the height by one.
    pub fn read(&self, start: ExternalPointer, steps: &Vec<u32>) -> (r: ExternalPointer)
        requires
            self.wf(),
            self.contains(start.pointer.index),
            steps@.len() <= start.height,
            forall|k: int| 0 <= k < steps@.len() ==> steps@[k] < 4,
        ensures
            r == self.spec_read(start, steps@),
            self.contains(r.pointer.index),
            r.height <= start.height,
            start.height - r.height <= steps@.len(),
    {
        let mut current = start;
        let mut taken: usize = 0;
        proof {
            assert(steps@.subrange(0, steps@.len() as int) =~= steps@);
        }
        while taken < steps.len() && !self.is_leaf(current.pointer.index)
            invariant
                self.wf(),
                taken <= steps@.len(),
                self.contains(current.pointer.index),
                current.height + taken == start.height,
                steps@.len() <= start.height,
                forall|k: int| 0 <= k < steps@.len() ==> steps@[k] < 4,
                self.spec_read(current, steps@.subrange(taken as int, steps@.len() as int))
                    == self.spec_read(start, steps@),
            decreases steps@.len() - taken,
        {
            let ghost rest = steps@.subrange(taken as int, steps@.len() as int);
            proof {
                assert(rest[0] == steps@[taken as int]);
                assert(rest.drop_first() =~= steps@.subrange(taken + 1, steps@.len() as int));
            }
            let direction: u32 = steps[taken];
            current =
            ExternalPointer {
                pointer: self.get_child(current.pointer, direction),
                height: current.height - 1,
            };
            taken = taken + 1;
        }
        current
    }

    /// The leaves of the tree at `start`, each with the cell it fills in the
    /// grid of its own height: those of the last quadrant first.
    pub fn dfs_leaves(&self, start: ExternalPointer) -> (r: Vec<CellData>)
        requires
            self.wf(),
            self.holds(start),
        ensures
            r@ == self.spec_leaves(
                start.pointer.index.0 as int,
                start.height as int,
                ZorderPath { zorder: 0, depth: 0 },
            ),
            forall|k: int| 0 <= k < r@.len() ==> (#[trigger] r@[k]).pointer.height <= start.height,
    {
        let mut leaves: Vec<CellData> = Vec::new();
        self.collect_leaves(start, ZorderPath::root(), &mut leaves);
        leaves
    }

    fn collect_leaves(&self, node: ExternalPointer, path: ZorderPath, out: &mut Vec<CellData>)
        requires
            self.wf(),
            self.contains(node.pointer.index),
            self.rank(node.pointer.index.0 as int) <= node.height,
            path.wf(),
            path.depth + node.height <= MAX_DEPTH,
        ensures
            final(out)@ == old(out)@ + self.spec_leaves(
                node.pointer.index.0 as int,
                node.height as int,
                path,
            ),
            forall|k: int|
                old(out)@.len() <= k < final(out)@.len() ==> (#[trigger] final(out)@[k]).pointer.height
                    <= node.height,
        decreases node.pointer.index.0,
    {
        let index = node.pointer.index;
        if self.is_leaf(index) {
            out.push(CellData { pointer: node, cell: path.to_cell() });
            proof {
                assert(final(out)@ =~= old(out)@ + self.spec_leaves(
                    index.0 as int,
                    node.height as int,
                    path,
                ));
            }
        } else {
            let ghost before = out@;
            let mut direction: u32 = 4;
            while direction > 0
                invariant
                    direction <= 4,
                    self.wf(),
                    self.contains(index),
                    !self.spec_is_leaf(index),
                    index == node.pointer.index,
                    self.rank(index.0 as int) <= node.height,
                    path.wf(),
                    path.depth + node.height <= MAX_DEPTH,
                    out@ == before + self.leaves_from(index.0 as int, direction, node.height as int, path),
                    forall|k: int|
                        before.len() <= k < out@.len() ==> (#[trigger] out@[k]).pointer.height
                            <= node.height,
                decreases direction,
            {
                direction = direction - 1;
                let child = self.get_child(node.pointer, direction);
                proof {
                    let i = index.0 as int;
                    assert(self.rank_below(i, self.child(i, direction as int)) == self.rank(
                        child.index.0 as int,
                    ));
                    assert(self.rank(i) >= 1 + self.rank(child.index.0 as int));
                }
                let ghost so_far = out@;
                self.collect_leaves(
                    ExternalPointer { pointer: child, height: node.height - 1 },
                    path.step_down(direction),
                    out,
                );
                proof {
                    let i = index.0 as int;
                    let h = node.height as int;
                    assert(self.leaves_from(i, direction, h, path) =~= self.leaves_from(
                        i,
                        (direction + 1) as u32,
                        h,
                        path,
                    ) + self.leaves_below(i, direction, h, path));
                    assert(out@ =~= before + self.leaves_from(i, direction, h, path));
                }
            }
            proof {
                let i = index.0 as int;
                let h = node.height as int;
                assert(self.leaves_from(i, 0, h, path) =~= self.spec_leaves(i, h, path)) by {
                    reveal_with_fuel(SparseDirectedGraph::leaves_from, 5);
                }
            }
        }
    }

    /// The leaves below the children of `index` in the quadrants from 3 down to `from`.
    pub open spec fn leaves_from(
        &self,
        index: int,
        from: u32,
        height: int,
        path: ZorderPath,
    ) -> Seq<CellData>
        decreases 4 - from,
    {
        if from >= 4 {
            Seq::empty()
        } else {
            self.leaves_from(index, (from + 1) as u32, height, path) + self.leaves_below(
                index,
                from,
                height,
                path,
            )
        }
    }
}

} // verus!
