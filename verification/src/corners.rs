//! Corners of solid cells: which way each one faces, which of them can touch
//! anything, and which cells around a corner decide whether it does.

use vstd::prelude::*;
use crate::blocks::BlockPalette;
use crate::graph::{CellData, ExternalPointer, Index, SparseDirectedGraph};
use crate::math::{normalize_angle, normalized, Axes, Vector, EIGHTH_TURN, FULL_TURN};
use crate::partition::Bounds;
use crate::zorder::{Shift, ZorderPath, MAX_DEPTH};

verus! {

/// The way a corner faces, seen from the center of its cell.
///
/// The four diagonal variants stand for the odd multiples of an eighth of a
/// turn; an edge variant carries any other angle of its quarter. Angles grow
/// from the positive x axis toward the positive y axis, which points down.
#[derive(Clone, Copy, Debug, PartialEq, Eq, Structural)]
pub enum CornerType {
    TopLeft,
    Top(u32),
    TopRight,
    Right(u32),
    BottomRight,
    Bottom(u32),
    BottomLeft,
    Left(u32),
}

/// The quadrants around a point to look into: one of them, or two side by side.
/// Quadrants are numbered top left, top right, bottom left, bottom right.
#[derive(Clone, Copy, Debug)]
pub enum CheckZorders {
    One(usize),
    Two([usize; 2]),
}

impl View for CheckZorders {
    type V = Seq<int>;

    /// The quadrants, in the order they are listed.
    open spec fn view(&self) -> Seq<int> {
        match self {
            CheckZorders::One(index) => seq![*index as int],
            CheckZorders::Two(pair) => seq![pair[0] as int, pair[1] as int],
        }
    }
}

/// 1 where `v` is positive, else 0.
pub open spec fn forward(v: int) -> int {
    if v > 0 {
        1
    } else {
        0
    }
}

fn toward(v: i64) -> (r: usize)
    ensures
        r == forward(v as int),
{
    if v > 0 {
        1
    } else {
        0
    }
}

impl CornerType {
    /// An edge variant carries an angle strictly inside its own quarter.
    pub open spec fn wf(self) -> bool {
        match self {
            CornerType::Right(angle) => angle < EIGHTH_TURN || 7 * EIGHTH_TURN < angle < FULL_TURN,
            CornerType::Bottom(angle) => EIGHTH_TURN < angle < 3 * EIGHTH_TURN,
            CornerType::Left(angle) => 3 * EIGHTH_TURN < angle < 5 * EIGHTH_TURN,
            CornerType::Top(angle) => 5 * EIGHTH_TURN < angle < 7 * EIGHTH_TURN,
            _ => true,
        }
    }

    pub open spec fn spec_from_index(index: int) -> CornerType {
        if index == 0 {
            CornerType::TopLeft
        } else if index == 1 {
            CornerType::TopRight
        } else if index == 2 {
            CornerType::BottomLeft
        } else {
            CornerType::BottomRight
        }
    }

    pub open spec fn spec_rotation(self) -> int {
        match self {
            CornerType::BottomRight => EIGHTH_TURN as int,
            CornerType::BottomLeft => 3 * EIGHTH_TURN,
            CornerType::TopLeft => 5 * EIGHTH_TURN,
            CornerType::TopRight => 7 * EIGHTH_TURN,
            CornerType::Top(angle) => angle as int,
            CornerType::Left(angle) => angle as int,
            CornerType::Right(angle) => angle as int,
            CornerType::Bottom(angle) => angle as int,
        }
    }

    pub open spec fn spec_from_rotation(rotation: int) -> CornerType {
        let rot = normalized(rotation);
        if rot == EIGHTH_TURN {
            CornerType::BottomRight
        } else if rot == 3 * EIGHTH_TURN {
            CornerType::BottomLeft
        } else if rot == 5 * EIGHTH_TURN {
            CornerType::TopLeft
        } else if rot == 7 * EIGHTH_TURN {
            CornerType::TopRight
        } else if rot < EIGHTH_TURN {
            CornerType::Right(rot as u32)
        } else if rot < 3 * EIGHTH_TURN {
            CornerType::Bottom(rot as u32)
        } else if rot < 5 * EIGHTH_TURN {
            CornerType::Left(rot as u32)
        } else if rot < 7 * EIGHTH_TURN {
            CornerType::Top(rot as u32)
        } else {
            CornerType::Right(rot as u32)
        }
    }

    pub open spec fn spec_rotate(self, rotation: int) -> CornerType {
        Self::spec_from_rotation(self.spec_rotation() + rotation)
    }

    /// Whether the corner faces up, being a top corner or the top edge.
    pub open spec fn faces_up(self) -> bool {
        self is TopLeft || self is TopRight || self is Top
    }

    /// Whether the corner faces down.
    pub open spec fn faces_down(self) -> bool {
        self is BottomLeft || self is BottomRight || self is Bottom
    }

    /// Whether the corner faces left.
    pub open spec fn faces_left(self) -> bool {
        self is TopLeft || self is BottomLeft || self is Left
    }

    /// Whether the corner faces right.
    pub open spec fn faces_right(self) -> bool {
        self is TopRight || self is BottomRight || self is Right
    }

    /// The quadrants that decide whether a corner moving at `velocity` has
    /// met something.
    ///
    /// Moving on both axes, it is the quadrant ahead. Moving along one axis,
    /// it is the two quadrants ahead for an edge that faces along that axis,
    /// and else the one of them on the far side from where the corner faces.
    pub open spec fn spec_checks(self, velocity: Vector) -> Seq<int> {
        let ahead_x = forward(velocity.x as int);
        let ahead_y = forward(velocity.y as int);
        if velocity.x == 0 {
            if self is Top || self is Bottom {
                seq![2 * ahead_y, 2 * ahead_y + 1]
            } else if self.faces_left() {
                seq![2 * ahead_y + 1]
            } else {
                seq![2 * ahead_y]
            }
        } else if velocity.y == 0 {
            if self is Left || self is Right {
                seq![2 + ahead_x, ahead_x]
            } else if self.faces_up() {
                seq![2 + ahead_x]
            } else {
                seq![ahead_x]
            }
        } else {
            seq![ahead_x + 2 * ahead_y]
        }
    }

    /// The axes along which a corner moving at `velocity` can be stopped: it
    /// must move the way it faces; an edge is stopped across itself by any
    /// motion along itself.
    pub open spec fn spec_hittable_walls(self, velocity: Vector) -> Axes {
        match self {
            CornerType::TopLeft => Axes { x: velocity.x < 0, y: velocity.y < 0 },
            CornerType::TopRight => Axes { x: velocity.x > 0, y: velocity.y < 0 },
            CornerType::BottomLeft => Axes { x: velocity.x < 0, y: velocity.y > 0 },
            CornerType::BottomRight => Axes { x: velocity.x > 0, y: velocity.y > 0 },
            CornerType::Top(_) => Axes { x: velocity.x != 0, y: velocity.y < 0 },
            CornerType::Bottom(_) => Axes { x: velocity.x != 0, y: velocity.y > 0 },
            CornerType::Left(_) => Axes { x: velocity.x < 0, y: velocity.y != 0 },
            CornerType::Right(_) => Axes { x: velocity.x > 0, y: velocity.y != 0 },
        }
    }

    /// See [`CornerType::spec_checks`].
    pub fn checks(&self, velocity: Vector) -> (r: CheckZorders)
        requires
            !velocity.spec_is_zero(),
        ensures
            r@ == self.spec_checks(velocity),
            forall|k: int| 0 <= k < r@.len() ==> 0 <= #[trigger] r@[k] < 4,
    {
        let ahead_x: usize = toward(velocity.x);
        let ahead_y: usize = toward(velocity.y);
        if velocity.x == 0 {
            match self {
                Self::Top(_) | Self::Bottom(_) => CheckZorders::Two(
                    [2 * ahead_y, 2 * ahead_y + 1],
                ),
                Self::TopLeft | Self::BottomLeft | Self::Left(_) => CheckZorders::One(
                    2 * ahead_y + 1,
                ),
                Self::TopRight | Self::BottomRight | Self::Right(_) => CheckZorders::One(
                    2 * ahead_y,
                ),
            }
        } else if velocity.y == 0 {
            match self {
                Self::Left(_) | Self::Right(_) => CheckZorders::Two([2 + ahead_x, ahead_x]),
                Self::TopLeft | Self::TopRight | Self::Top(_) => CheckZorders::One(2 + ahead_x),
                Self::BottomLeft | Self::BottomRight | Self::Bottom(_) => CheckZorders::One(
                    ahead_x,
                ),
            }
        } else {
            CheckZorders::One(ahead_x + 2 * ahead_y)
        }
    }

    /// See [`CornerType::spec_hittable_walls`].
    pub fn hittable_walls(&self, velocity: Vector) -> (r: Axes)
        ensures
            r == self.spec_hittable_walls(velocity),
    {
        match self {
            Self::TopLeft => Axes { x: velocity.x < 0, y: velocity.y < 0 },
            Self::TopRight => Axes { x: velocity.x > 0, y: velocity.y < 0 },
            Self::BottomLeft => Axes { x: velocity.x < 0, y: velocity.y > 0 },
            Self::BottomRight => Axes { x: velocity.x > 0, y: velocity.y > 0 },
            Self::Top(_) => Axes { x: velocity.x != 0, y: velocity.y < 0 },
            Self::Bottom(_) => Axes { x: velocity.x != 0, y: velocity.y > 0 },
            Self::Left(_) => Axes { x: velocity.x < 0, y: velocity.y != 0 },
            Self::Right(_) => Axes { x: velocity.x > 0, y: velocity.y != 0 },
        }
    }

    /// The corner of an unturned cell with the given number: top left, top
    /// right, bottom left, bottom right.
    pub fn from_index(index: usize) -> (r: Self)
        requires
            index < 4,
        ensures
            r == Self::spec_from_index(index as int),
    {
        if index == 0 {
            Self::TopLeft
        } else if index == 1 {
            Self::TopRight
        } else if index == 2 {
            Self::BottomLeft
        } else {
            Self::BottomRight
        }
    }

    /// The corner that faces along `rotation`.
    pub fn from_rotation(rotation: i64) -> (r: Self)
        ensures
            r == Self::spec_from_rotation(rotation as int),
            r.wf(),
    {
        let rot: u32 = normalize_angle(rotation);
        if rot == EIGHTH_TURN {
            Self::BottomRight
        } else if rot == 3 * EIGHTH_TURN {
            Self::BottomLeft
        } else if rot == 5 * EIGHTH_TURN {
            Self::TopLeft
        } else if rot == 7 * EIGHTH_TURN {
            Self::TopRight
        } else if rot < EIGHTH_TURN {
            Self::Right(rot)
        } else if rot < 3 * EIGHTH_TURN {
            Self::Bottom(rot)
        } else if rot < 5 * EIGHTH_TURN {
            Self::Left(rot)
        } else if rot < 7 * EIGHTH_TURN {
            Self::Top(rot)
        } else {
            Self::Right(rot)
        }
    }

    /// The angle the corner faces along.
    pub fn rotation(&self) -> (r: u32)
        ensures
            r == self.spec_rotation(),
    {
        match self {
            Self::BottomRight => EIGHTH_TURN,
            Self::BottomLeft => 3 * EIGHTH_TURN,
            Self::TopLeft => 5 * EIGHTH_TURN,
            Self::TopRight => 7 * EIGHTH_TURN,
            Self::Top(angle) | Self::Left(angle) | Self::Right(angle) | Self::Bottom(angle) => *angle,
        }
    }

    /// The corner turned by `rotation`.
    pub fn rotate(&self, rotation: i64) -> (r: Self)
        ensures
            r == self.spec_rotate(rotation as int),
            r.wf(),
    {
        let base: i64 = normalize_angle(self.rotation() as i64) as i64;
        let turn: i64 = normalize_angle(rotation) as i64;
        Self::from_rotation(base + turn)
    }
}

/// The angle of a corner made from an angle is that angle, reduced to a turn.
pub proof fn lemma_rotation_round_trip(rotation: int)
    ensures
        CornerType::spec_from_rotation(rotation).spec_rotation() == normalized(rotation),
        CornerType::spec_from_rotation(rotation).wf(),
{
}

/// A corner made from its own angle is the corner itself.
pub proof fn lemma_from_own_rotation(corner: CornerType)
    requires
        corner.wf(),
    ensures
        CornerType::spec_from_rotation(corner.spec_rotation()) == corner,
        corner.spec_rotate(0) == corner,
{
}

/// Turning is a group action of the angles on the corners: turning twice is
/// turning once by the sum.
pub proof fn lemma_rotate_composes(corner: CornerType, a: int, b: int)
    ensures
        corner.spec_rotate(a).spec_rotate(b) == corner.spec_rotate(a + b),
{
    lemma_rotation_round_trip(corner.spec_rotation() + a);
    let first = corner.spec_rotation() + a;
    assert(normalized(normalized(first) + b) == normalized(first + b));
}

/// A whole number of turns changes no corner.
pub proof fn lemma_rotate_full_turns(corner: CornerType, rotation: int, turns: int)
    ensures
        corner.spec_rotate(rotation + turns * FULL_TURN) == corner.spec_rotate(rotation),
{
    let base = corner.spec_rotation() + rotation;
    assert(normalized(base + turns * FULL_TURN) == normalized(base)) by {
        vstd::arithmetic::div_mod::lemma_mod_multiples_vanish(turns, base, FULL_TURN as int);
    }
}

/// The diagonal corners are the corners of the odd eighths of a turn, and
/// nothing else is.
pub proof fn lemma_diagonals_are_fixed(rotation: int)
    ensures
        CornerType::spec_from_rotation(EIGHTH_TURN as int) == CornerType::BottomRight,
        CornerType::spec_from_rotation(3 * EIGHTH_TURN) == CornerType::BottomLeft,
        CornerType::spec_from_rotation(5 * EIGHTH_TURN) == CornerType::TopLeft,
        CornerType::spec_from_rotation(7 * EIGHTH_TURN) == CornerType::TopRight,
        CornerType::spec_from_rotation(rotation) is BottomRight <==> normalized(rotation)
            == EIGHTH_TURN,
        CornerType::spec_from_rotation(rotation) is BottomLeft <==> normalized(rotation) == 3
            * EIGHTH_TURN,
        CornerType::spec_from_rotation(rotation) is TopLeft <==> normalized(rotation) == 5
            * EIGHTH_TURN,
        CornerType::spec_from_rotation(rotation) is TopRight <==> normalized(rotation) == 7
            * EIGHTH_TURN,
{
}

/// A corner made from an angle and then turned is the corner made from the
/// turned angle.
pub proof fn lemma_rotate_from_rotation(rotation: int, turn: int)
    ensures
        CornerType::spec_from_rotation(rotation).spec_rotate(turn) == CornerType::spec_from_rotation(
            rotation + turn,
        ),
{
    lemma_rotation_round_trip(rotation);
    assert(normalized(normalized(rotation) + turn) == normalized(rotation + turn));
}

impl CheckZorders {
    /// The quadrants ahead of a point moving at `velocity`: two side by side
    /// where it moves along an axis, else the one ahead on both axes.
    pub open spec fn spec_from_velocity(velocity: Vector) -> Seq<int> {
        if velocity.x == 0 && velocity.y < 0 {
            seq![0, 1]
        } else if velocity.x == 0 && velocity.y > 0 {
            seq![2, 3]
        } else if velocity.x < 0 && velocity.y == 0 {
            seq![0, 2]
        } else if velocity.x > 0 && velocity.y == 0 {
            seq![1, 3]
        } else {
            seq![forward(velocity.y as int) * 2 + forward(velocity.x as int)]
        }
    }

    /// See [`CheckZorders::spec_from_velocity`].
    pub fn from_velocity(velocity: Vector) -> (r: Self)
        requires
            !velocity.spec_is_zero(),
        ensures
            r@ == Self::spec_from_velocity(velocity),
            forall|k: int| 0 <= k < r@.len() ==> 0 <= #[trigger] r@[k] < 4,
    {
        if velocity.x == 0 && velocity.y < 0 {
            CheckZorders::Two([0, 1])
        } else if velocity.x == 0 && velocity.y > 0 {
            CheckZorders::Two([2, 3])
        } else if velocity.x < 0 && velocity.y == 0 {
            CheckZorders::Two([0, 2])
        } else if velocity.x > 0 && velocity.y == 0 {
            CheckZorders::Two([1, 3])
        } else {
            CheckZorders::One(toward(velocity.y) * 2 + toward(velocity.x))
        }
    }
}

/// The four corners of one leaf, in the frame of its tree: `points` from the
/// top left corner of the root, `index` the leaf, and `mask` with bit `i` set
/// where corner `i` can touch anything.
#[derive(Clone, Copy, Debug)]
pub struct Corners {
    pub points: [Vector; 4],
    pub index: Index,
    pub mask: u8,
}

/// Whether bit `corner` of `mask` is set.
pub open spec fn bit(mask: u8, corner: int) -> bool {
    if corner == 0 {
        mask % 2 == 1
    } else if corner == 1 {
        (mask / 2) % 2 == 1
    } else if corner == 2 {
        (mask / 4) % 2 == 1
    } else {
        (mask / 8) % 2 == 1
    }
}

impl Corners {
    pub fn new(points: [Vector; 4], index: Index, mask: u8) -> (r: Self)
        ensures
            r.points == points,
            r.index == index,
            r.mask == mask,
    {
        Self { points, index, mask }
    }

    /// Whether corner `corner` can touch anything.
    pub fn exposed(&self, corner: usize) -> (r: bool)
        requires
            corner < 4,
        ensures
            r == bit(self.mask, corner as int),
    {
        if corner == 0 {
            self.mask % 2 == 1
        } else if corner == 1 {
            (self.mask / 2) % 2 == 1
        } else if corner == 2 {
            (self.mask / 4) % 2 == 1
        } else {
            (self.mask / 8) % 2 == 1
        }
    }
}

/// The cell to look at for neighbor `neighbor` of corner `corner`: the cells
/// beside, above or below, and diagonally across the corner.
pub open spec fn neighbor_offset(corner: int, neighbor: int) -> Shift {
    let x: i32 = if corner % 2 == 0 {
        -1i32
    } else {
        1i32
    };
    let y: i32 = if corner / 2 == 0 {
        -1i32
    } else {
        1i32
    };
    if neighbor == 0 {
        Shift { x, y: 0 }
    } else if neighbor == 1 {
        Shift { x: 0, y }
    } else {
        Shift { x, y }
    }
}

/// The quadrant of the neighbor cell that touches the corner.
pub open spec fn neighbor_direction(corner: int, neighbor: int) -> u32 {
    let across_x: int = 1 - corner % 2;
    let across_y: int = 1 - corner / 2;
    let same_x: int = corner % 2;
    let same_y: int = corner / 2;
    if neighbor == 0 {
        (across_x + 2 * same_y) as u32
    } else if neighbor == 1 {
        (same_x + 2 * across_y) as u32
    } else {
        (across_x + 2 * across_y) as u32
    }
}

/// `path` extended to `depth` by steps into quadrant `direction`.
pub open spec fn descend(path: ZorderPath, direction: u32, depth: u32) -> ZorderPath
    decreases depth - path.depth,
{
    if path.depth >= depth {
        path
    } else {
        descend(path.spec_step_down(direction), direction, depth)
    }
}

/// Whether neighbor `neighbor` of corner `corner` of the cell at `zorder` is
/// solid where it touches the corner. Beyond the edge of the tree nothing is.
pub open spec fn covered(
    graph: &SparseDirectedGraph,
    blocks: &BlockPalette,
    start: ExternalPointer,
    zorder: ZorderPath,
    corner: int,
    neighbor: int,
) -> bool {
    match zorder.spec_move_cartesianly(neighbor_offset(corner, neighbor)) {
        Some(beside) => blocks.spec_is_solid_index(
            graph.spec_read(
                start,
                descend(beside, neighbor_direction(corner, neighbor), start.height)@,
            ).pointer.index,
        ),
        None => false,
    }
}

/// Whether none of the three neighbors of corner `corner` is solid.
pub open spec fn corner_exposed(
    graph: &SparseDirectedGraph,
    blocks: &BlockPalette,
    start: ExternalPointer,
    zorder: ZorderPath,
    corner: int,
) -> bool {
    &&& !covered(graph, blocks, start, zorder, corner, 0)
    &&& !covered(graph, blocks, start, zorder, corner, 1)
    &&& !covered(graph, blocks, start, zorder, corner, 2)
}

/// Corner `corner` of `cell`, measured from the top left corner of the root.
pub open spec fn spec_cell_corner(cell: CellData, min_cell_length: Vector, corner: int) -> Vector {
    let size = Bounds::spec_cell_length(cell.pointer.height, min_cell_length);
    let top_left = Bounds::spec_top_left_corner(cell.cell, cell.pointer.height, min_cell_length);
    if corner == 0 {
        top_left
    } else if corner == 1 {
        Vector { x: top_left.spec_plus(size).x, y: top_left.y }
    } else if corner == 2 {
        Vector { x: top_left.x, y: top_left.spec_plus(size).y }
    } else {
        top_left.spec_plus(size)
    }
}

/// Whether corner `corner` of `leaf`, a leaf of the tree at `start`, can touch
/// anything: the leaf is solid and none of the three cells that share the
/// corner with it is.
pub open spec fn spec_leaf_mask(
    graph: &SparseDirectedGraph,
    blocks: &BlockPalette,
    start: ExternalPointer,
    leaf: CellData,
    corner: int,
) -> bool {
    let zorder = ZorderPath::spec_from_cell(leaf.cell, (start.height - leaf.pointer.height) as u32);
    blocks.spec_is_solid_index(leaf.pointer.pointer.index) && corner_exposed(
        graph,
        blocks,
        start,
        zorder,
        corner,
    )
}

fn neighbor_check(corner: usize, side: usize) -> (r: (Shift, u32))
    requires
        corner < 4,
        side < 3,
    ensures
        r.0 == neighbor_offset(corner as int, side as int),
        r.1 == neighbor_direction(corner as int, side as int),
        r.1 < 4,
{
    let checks: [(Shift, u32); 12] = [
        (Shift { x: -1, y: 0 }, 1),
        (Shift { x: 0, y: -1 }, 2),
        (Shift { x: -1, y: -1 }, 3),
        (Shift { x: 1, y: 0 }, 0),
        (Shift { x: 0, y: -1 }, 3),
        (Shift { x: 1, y: -1 }, 2),
        (Shift { x: -1, y: 0 }, 3),
        (Shift { x: 0, y: 1 }, 0),
        (Shift { x: -1, y: 1 }, 1),
        (Shift { x: 1, y: 0 }, 2),
        (Shift { x: 0, y: 1 }, 1),
        (Shift { x: 1, y: 1 }, 0),
    ];
    checks[corner * 3 + side]
}

fn descend_to(path: ZorderPath, direction: u32, depth: u32) -> (r: ZorderPath)
    requires
        path.wf(),
        path.depth <= depth <= MAX_DEPTH,
        direction < 4,
    ensures
        r == descend(path, direction, depth),
        r.wf(),
        r.depth == depth,
{
    let mut current = path;
    while current.depth < depth
        invariant
            current.wf(),
            current.depth <= depth <= MAX_DEPTH,
            direction < 4,
            descend(current, direction, depth) == descend(path, direction, depth),
        decreases depth - current.depth,
    {
        current = current.step_down(direction);
    }
    current
}

/// The exposure mask of the cell at `zorder` in the tree at `start`: bit `i`
/// is set where none of the three cells that share corner `i` with it is
/// solid at that corner.
pub fn cell_corner_mask(
    graph: &SparseDirectedGraph,
    blocks: &BlockPalette,
    start: ExternalPointer,
    zorder: ZorderPath,
) -> (mask: u8)
    requires
        graph.wf(),
        graph.contains(start.pointer.index),
        start.height <= MAX_DEPTH,
        zorder.wf(),
        zorder.depth <= start.height,
    ensures
        mask < 16,
        forall|corner: int|
            0 <= corner < 4 ==> #[trigger] bit(mask, corner) == corner_exposed(
                graph,
                blocks,
                start,
                zorder,
                corner,
            ),
{
    let mut exposed_mask: u8 = 0;
    let mut weight: u8 = 1;
    let mut corner: usize = 0;
    while corner < 4
        invariant
            corner <= 4,
            graph.wf(),
            graph.contains(start.pointer.index),
            start.height <= MAX_DEPTH,
            zorder.wf(),
            zorder.depth <= start.height,
            corner == 0 ==> weight == 1,
            corner == 1 ==> weight == 2,
            corner == 2 ==> weight == 4,
            corner == 3 ==> weight == 8,
            exposed_mask < weight || corner == 4,
            exposed_mask < 16,
            forall|c: int|
                0 <= c < corner ==> #[trigger] bit(exposed_mask, c) == corner_exposed(
                    graph,
                    blocks,
                    start,
                    zorder,
                    c,
                ),
        decreases 4 - corner,
    {
        let mut exposed: bool = true;
        let mut side: usize = 0;
        while side < 3 && exposed
            invariant
                side <= 3,
                corner < 4,
                graph.wf(),
                graph.contains(start.pointer.index),
                start.height <= MAX_DEPTH,
                zorder.wf(),
                zorder.depth <= start.height,
                exposed <==> forall|n: int|
                    0 <= n < side ==> !#[trigger] covered(
                        graph,
                        blocks,
                        start,
                        zorder,
                        corner as int,
                        n,
                    ),
            decreases 3 - side + if exposed { 1int } else { 0int },
        {
            let (offset, direction) = neighbor_check(corner, side);
            match zorder.move_cartesianly(offset) {
                Some(beside) => {
                    let check_zorder = descend_to(beside, direction, start.height);
                    let steps = check_zorder.steps();
                    let pointer = graph.read(start, &steps);
                    if blocks.is_solid_index(pointer.pointer.index) {
                        exposed = false;
                    }
                },
                None => {},
            }
            proof {
                assert(covered(graph, blocks, start, zorder, corner as int, side as int)
                    == !exposed);
            }
            side = side + 1;
        }
        proof {
            if exposed {
                assert(side == 3);
                assert(!covered(graph, blocks, start, zorder, corner as int, 0));
                assert(!covered(graph, blocks, start, zorder, corner as int, 1));
                assert(!covered(graph, blocks, start, zorder, corner as int, 2));
            }
            assert(exposed == corner_exposed(graph, blocks, start, zorder, corner as int));
        }
        let ghost before = exposed_mask;
        if exposed {
            exposed_mask = exposed_mask + weight;
        }
        proof {
            assert forall|c: int| 0 <= c < corner + 1 implies #[trigger] bit(exposed_mask, c)
                == corner_exposed(graph, blocks, start, zorder, c) by {
                if c < corner {
                    assert(bit(before, c) == corner_exposed(graph, blocks, start, zorder, c));
                }
            }
        }
        corner = corner + 1;
        if corner < 4 {
            weight = weight * 2;
        }
    }
    exposed_mask
}

/// The four corners of `cell`, measured from the top left corner of the root:
/// top left, top right, bottom left, bottom right.
pub fn cell_corners(cell: CellData, min_cell_length: Vector) -> (r: [Vector; 4])
    requires
        cell.pointer.height <= MAX_DEPTH,
    ensures
        forall|corner: int|
            0 <= corner < 4 ==> #[trigger] r[corner] == spec_cell_corner(
                cell,
                min_cell_length,
                corner,
            ),
{
    let cell_size = Bounds::cell_length(cell.pointer.height, min_cell_length);
    let top_left_corner = Bounds::top_left_corner(cell.cell, cell.pointer.height, min_cell_length);
    let far = top_left_corner.plus(cell_size);
    [
        top_left_corner,
        Vector { x: far.x, y: top_left_corner.y },
        Vector { x: top_left_corner.x, y: far.y },
        far,
    ]
}

/// The corners of every leaf of the tree at `start`, in the order of
/// [`SparseDirectedGraph::dfs_leaves`].
pub fn tree_corners(
    graph: &SparseDirectedGraph,
    blocks: &BlockPalette,
    start: ExternalPointer,
    min_cell_length: Vector,
) -> (r: Vec<Corners>)
    requires
        graph.wf(),
        graph.holds(start),
    ensures
        r@.len() == graph.spec_leaves(
            start.pointer.index.0 as int,
            start.height as int,
            ZorderPath { zorder: 0, depth: 0 },
        ).len(),
        forall|k: int|
            0 <= k < r@.len() ==> is_corners_of(
                graph,
                blocks,
                start,
                min_cell_length,
                #[trigger] r@[k],
                graph.spec_leaves(
                    start.pointer.index.0 as int,
                    start.height as int,
                    ZorderPath { zorder: 0, depth: 0 },
                )[k],
            ),
{
    let leaves = graph.dfs_leaves(start);
    let mut corners: Vec<Corners> = Vec::new();
    let mut k: usize = 0;
    while k < leaves.len()
        invariant
            k <= leaves@.len(),
            graph.wf(),
            graph.holds(start),
            corners@.len() == k,
            forall|j: int|
                0 <= j < leaves@.len() ==> (#[trigger] leaves@[j]).pointer.height <= start.height,
            forall|j: int|
                0 <= j < k ==> is_corners_of(
                    graph,
                    blocks,
                    start,
                    min_cell_length,
                    #[trigger] corners@[j],
                    leaves@[j],
                ),
        decreases leaves@.len() - k,
    {
        let cell = leaves[k];
        let zorder = ZorderPath::from_cell(cell.cell, start.height - cell.pointer.height);
        let mask: u8 = if !blocks.is_solid_index(cell.pointer.pointer.index) {
            0
        } else {
            cell_corner_mask(graph, blocks, start, zorder)
        };
        corners.push(Corners::new(cell_corners(cell, min_cell_length), cell.pointer.pointer.index, mask));
        k = k + 1;
    }
    corners
}

/// Whether `corners` is what [`tree_corners`] makes of `leaf`.
pub open spec fn is_corners_of(
    graph: &SparseDirectedGraph,
    blocks: &BlockPalette,
    start: ExternalPointer,
    min_cell_length: Vector,
    corners: Corners,
    leaf: CellData,
) -> bool {
    &&& corners.index == leaf.pointer.pointer.index
    &&& corners.mask < 16
    &&& forall|corner: int|
        0 <= corner < 4 ==> #[trigger] corners.points[corner] == spec_cell_corner(
            leaf,
            min_cell_length,
            corner,
        )
    &&& forall|corner: int|
        0 <= corner < 4 ==> #[trigger] bit(corners.mask, corner) == spec_leaf_mask(
            graph,
            blocks,
            start,
            leaf,
            corner,
        )
}

} // verus!
